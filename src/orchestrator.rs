//! The per-request pipeline: query extraction, the decision after retrieval,
//! and the request's stage machine.

use crate::config::MergePolicy;
use crate::injection::{
    inject_context, messages_view, newline, option_view, with_context, ChatMessage, MessageView,
    Role,
};
use crate::retrieval::{RetrievalError, RetrievedChunk};
use vstd::prelude::*;

verus! {

/// Errors a request ends with.
#[derive(Clone, Copy, Debug, PartialEq, Eq, Structural)]
pub enum RequestError {
    /// An outside call failed (embedding, every retrieval source, inference).
    Operation,
    /// The client went away.
    Cancelled,
}

/// The contents of the user messages, in order.
pub open spec fn user_contents(m: Seq<MessageView>) -> Seq<Seq<char>>
    decreases m.len(),
{
    if m.len() == 0 {
        Seq::empty()
    } else if m.last().role == Role::User {
        user_contents(m.drop_last()).push(m.last().content)
    } else {
        user_contents(m.drop_last())
    }
}

/// The contents of the last `window` user messages (all of them if fewer).
pub open spec fn recent_user_turns(m: Seq<MessageView>, window: nat) -> Seq<Seq<char>> {
    let u = user_contents(m);
    if window >= u.len() {
        u
    } else {
        u.subrange(u.len() - window, u.len() as int)
    }
}

/// Lines joined with newlines.
pub open spec fn join_lines(s: Seq<Seq<char>>) -> Seq<char>
    decreases s.len(),
{
    if s.len() == 0 {
        Seq::empty()
    } else if s.len() == 1 {
        s[0]
    } else {
        join_lines(s.drop_last()) + newline() + s.last()
    }
}

/// The retrieval query of a conversation: its last `window` user turns joined
/// by newlines; none when the window is zero or there is no user turn.
pub open spec fn query_of(m: Seq<MessageView>, window: nat) -> Option<Seq<char>> {
    let turns = recent_user_turns(m, window);
    if turns.len() == 0 {
        None
    } else {
        Some(join_lines(turns))
    }
}

fn user_texts(messages: &Vec<ChatMessage>) -> (r: Vec<String>)
    ensures
        r@.map_values(|s: String| s@) == user_contents(messages_view(messages@)),
{
    let mut out: Vec<String> = Vec::new();
    let mut i: usize = 0;
    while i < messages.len()
        invariant
            i <= messages.len(),
            out@.map_values(|s: String| s@) == user_contents(messages_view(messages@.subrange(0, i as int))),
        decreases messages.len() - i,
    {
        proof {
            assert(messages_view(messages@.subrange(0, i + 1)).drop_last() =~= messages_view(
                messages@.subrange(0, i as int),
            ));
        }
        let ghost before = out@;
        if messages[i].role == Role::User {
            out.push(messages[i].content.clone());
            proof {
                assert(out@.map_values(|s: String| s@) =~= before.map_values(|s: String| s@).push(
                    messages@[i as int].content@,
                ));
            }
        }
        i += 1;
    }
    proof {
        assert(messages@.subrange(0, messages.len() as int) =~= messages@);
    }
    out
}

/// The retrieval query for a conversation, or none when retrieval is skipped.
pub fn retrieval_query(messages: &Vec<ChatMessage>, context_window: u64) -> (r: Option<String>)
    ensures
        option_view(r) == query_of(messages_view(messages@), context_window as nat),
{
    let texts = user_texts(messages);
    let ghost u = texts@.map_values(|s: String| s@);
    let n = texts.len();
    let start: usize = if (context_window as u128) >= (n as u128) {
        0
    } else {
        n - (context_window as usize)
    };
    proof {
        assert(recent_user_turns(messages_view(messages@), context_window as nat) =~= u.subrange(
            start as int,
            n as int,
        ));
    }
    if start == n {
        return None;
    }
    let mut q = texts[start].clone();
    let mut j: usize = start + 1;
    proof {
        reveal_strlit("\n");
        assert("\n"@ =~= newline());
        assert(u.subrange(start as int, j as int) =~= seq![u[start as int]]);
    }
    while j < n
        invariant
            start < j <= n,
            n == texts.len(),
            u == texts@.map_values(|s: String| s@),
            q@ == join_lines(u.subrange(start as int, j as int)),
        decreases n - j,
    {
        proof {
            assert(u.subrange(start as int, j + 1).drop_last() =~= u.subrange(start as int, j as int));
            assert(u.subrange(start as int, j + 1).last() == texts@[j as int]@);
            reveal_strlit("\n");
            assert("\n"@ =~= newline());
        }
        q.append("\n");
        q.append(texts[j].as_str());
        j += 1;
    }
    Some(q)
}

/// Characters of passage text allowed per token of the chat model's context.
pub const CHARS_PER_TOKEN: u64 = 4;

/// Characters in all message contents together.
pub open spec fn conversation_chars(m: Seq<MessageView>) -> nat
    decreases m.len(),
{
    if m.len() == 0 {
        0
    } else {
        conversation_chars(m.drop_last()) + m.last().content.len()
    }
}

/// The passage budget: what the model's context (in characters) leaves after
/// the conversation, never below zero.
pub open spec fn passage_budget_spec(ctx_tokens: nat, used_chars: nat) -> nat {
    let total = ctx_tokens * CHARS_PER_TOKEN;
    if used_chars >= total {
        0
    } else {
        (total - used_chars) as nat
    }
}

/// `n`, or `usize::MAX` when `n` is larger.
pub open spec fn capped(n: nat) -> nat {
    if n > usize::MAX {
        usize::MAX as nat
    } else {
        n
    }
}

/// Characters in all message contents together, saturating at `usize::MAX`.
pub fn conversation_length(messages: &Vec<ChatMessage>) -> (r: usize)
    ensures
        r as nat == capped(conversation_chars(messages_view(messages@))),
{
    let mut total: usize = 0;
    let mut saturated = false;
    let mut i: usize = 0;
    while i < messages.len()
        invariant
            i <= messages.len(),
            saturated ==> total == usize::MAX && conversation_chars(
                messages_view(messages@.subrange(0, i as int)),
            ) >= usize::MAX,
            !saturated ==> total as nat == conversation_chars(
                messages_view(messages@.subrange(0, i as int)),
            ),
        decreases messages.len() - i,
    {
        proof {
            assert(messages_view(messages@.subrange(0, i + 1)).drop_last() =~= messages_view(
                messages@.subrange(0, i as int),
            ));
        }
        let n = messages[i].content.as_str().unicode_len();
        if !saturated {
            if n > usize::MAX - total {
                total = usize::MAX;
                saturated = true;
            } else {
                total = total + n;
            }
        }
        i += 1;
    }
    proof {
        assert(messages@.subrange(0, messages.len() as int) =~= messages@);
    }
    total
}

/// The passage budget in characters for a chat model of `ctx_tokens` tokens
/// and a conversation of `used_chars` characters, saturating at `usize::MAX`.
pub fn passage_budget(ctx_tokens: u64, used_chars: usize) -> (r: usize)
    ensures
        r as nat == capped(passage_budget_spec(ctx_tokens as nat, used_chars as nat)),
{
    proof {
        assert((ctx_tokens as u128) * (CHARS_PER_TOKEN as u128) <= u64::MAX as u128 * 4) by (nonlinear_arith)
            requires
                ctx_tokens <= u64::MAX,
                CHARS_PER_TOKEN == 4,
        ;
    }
    let total: u128 = (ctx_tokens as u128) * (CHARS_PER_TOKEN as u128);
    if (used_chars as u128) >= total {
        return 0;
    }
    let rest: u128 = total - (used_chars as u128);
    if rest > (usize::MAX as u128) {
        usize::MAX
    } else {
        rest as usize
    }
}

/// How a request proceeds once it is received.
#[derive(Debug)]
pub enum Start {
    /// Retrieve passages for this query first; the conversation is handed back.
    Retrieve(String, Vec<ChatMessage>),
    /// Skip retrieval: the conversation goes to the engine as it is.
    Forward(Vec<ChatMessage>),
}

/// Decides whether a request needs retrieval. The conversation comes back
/// untouched either way.
pub fn start_request(messages: Vec<ChatMessage>, context_window: u64) -> (r: Start)
    ensures
        match r {
            Start::Retrieve(q, m) => m@ == messages@ && query_of(
                messages_view(messages@),
                context_window as nat,
            ) == Some(q@),
            Start::Forward(m) => m@ == messages@ && query_of(
                messages_view(messages@),
                context_window as nat,
            ) is None,
        },
        context_window == 0 ==> (r is Forward && r->Forward_0@ == messages@),
{
    match retrieval_query(&messages, context_window) {
        Some(q) => Start::Retrieve(q, messages),
        None => Start::Forward(messages),
    }
}

/// The conversation sent to the engine after retrieval: the merge failed
/// (every source failed) is an operation error; no passage leaves it as it
/// was; otherwise the passages are injected.
pub open spec fn after_retrieval_spec(
    m: Seq<MessageView>,
    merged: Result<Seq<RetrievedChunk>, RetrievalError>,
    policy: MergePolicy,
    rag_prompt: Option<Seq<char>>,
) -> Result<Seq<MessageView>, RequestError> {
    match merged {
        Err(_) => Err(RequestError::Operation),
        Ok(chunks) => Ok(with_context(m, chunks, policy, rag_prompt)),
    }
}

pub open spec fn merged_view(r: Result<Vec<RetrievedChunk>, RetrievalError>) -> Result<
    Seq<RetrievedChunk>,
    RetrievalError,
> {
    match r {
        Ok(v) => Ok(v@),
        Err(e) => Err(e),
    }
}

pub open spec fn request_view(r: Result<Vec<ChatMessage>, RequestError>) -> Result<
    Seq<MessageView>,
    RequestError,
> {
    match r {
        Ok(v) => Ok(messages_view(v@)),
        Err(e) => Err(e),
    }
}

/// Builds the conversation to forward once retrieval has answered.
pub fn after_retrieval(
    messages: Vec<ChatMessage>,
    merged: Result<Vec<RetrievedChunk>, RetrievalError>,
    policy: MergePolicy,
    rag_prompt: &Option<String>,
) -> (r: Result<Vec<ChatMessage>, RequestError>)
    ensures
        request_view(r) == after_retrieval_spec(
            messages_view(messages@),
            merged_view(merged),
            policy,
            option_view(*rag_prompt),
        ),
{
    match merged {
        Err(_) => Err(RequestError::Operation),
        Ok(chunks) => {
            let mut out = messages;
            inject_context(&mut out, &chunks, policy, rag_prompt);
            Ok(out)
        },
    }
}

/// Stages of a request.
#[derive(Clone, Copy, Debug, PartialEq, Eq, Structural)]
pub enum Stage {
    Received,
    QueryExtracted,
    Retrieved,
    Merged,
    Injected,
    Dispatched,
    Streaming,
    Completed,
    Done,
    Failed(RequestError),
}

/// What happened to a request.
#[derive(Clone, Copy, Debug, PartialEq, Eq, Structural)]
pub enum Event {
    /// A retrieval query was formed.
    QueryFormed,
    /// No query: the window is zero or there is no user turn.
    NoQuery,
    /// The fan-out answered (at least one source succeeded).
    SourcesAnswered,
    /// Merging kept at least one passage.
    PassagesKept,
    /// Merging kept no passage.
    NoPassages,
    /// The passages were injected.
    ContextInjected,
    /// The engine started a token stream.
    StreamStarted,
    /// The engine returned a complete answer.
    AnswerReady,
    /// The stream ended or the answer was sent.
    Delivered,
    /// An outside call failed.
    OutsideFailure,
    /// The client disconnected.
    ClientGone,
}

pub open spec fn is_terminal(s: Stage) -> bool {
    s is Done || s is Failed
}

/// The stage machine. Failures and disconnects end any live stage; events that
/// do not fit the stage leave it unchanged; final stages stay.
pub open spec fn next_stage_spec(s: Stage, e: Event) -> Stage {
    if is_terminal(s) {
        s
    } else if e == Event::OutsideFailure {
        Stage::Failed(RequestError::Operation)
    } else if e == Event::ClientGone {
        Stage::Failed(RequestError::Cancelled)
    } else {
        match (s, e) {
            (Stage::Received, Event::QueryFormed) => Stage::QueryExtracted,
            (Stage::Received, Event::NoQuery) => Stage::Dispatched,
            (Stage::QueryExtracted, Event::SourcesAnswered) => Stage::Retrieved,
            (Stage::Retrieved, Event::PassagesKept) => Stage::Merged,
            (Stage::Retrieved, Event::NoPassages) => Stage::Dispatched,
            (Stage::Merged, Event::ContextInjected) => Stage::Injected,
            (Stage::Injected, Event::StreamStarted) => Stage::Streaming,
            (Stage::Injected, Event::AnswerReady) => Stage::Completed,
            (Stage::Dispatched, Event::StreamStarted) => Stage::Streaming,
            (Stage::Dispatched, Event::AnswerReady) => Stage::Completed,
            (Stage::Streaming, Event::Delivered) => Stage::Done,
            (Stage::Completed, Event::Delivered) => Stage::Done,
            _ => s,
        }
    }
}

pub fn next_stage(s: Stage, e: Event) -> (r: Stage)
    ensures
        r == next_stage_spec(s, e),
{
    match s {
        Stage::Done | Stage::Failed(_) => s,
        _ => match e {
            Event::OutsideFailure => Stage::Failed(RequestError::Operation),
            Event::ClientGone => Stage::Failed(RequestError::Cancelled),
            Event::QueryFormed => if s == Stage::Received {
                Stage::QueryExtracted
            } else {
                s
            },
            Event::NoQuery => if s == Stage::Received {
                Stage::Dispatched
            } else {
                s
            },
            Event::SourcesAnswered => if s == Stage::QueryExtracted {
                Stage::Retrieved
            } else {
                s
            },
            Event::PassagesKept => if s == Stage::Retrieved {
                Stage::Merged
            } else {
                s
            },
            Event::NoPassages => if s == Stage::Retrieved {
                Stage::Dispatched
            } else {
                s
            },
            Event::ContextInjected => if s == Stage::Merged {
                Stage::Injected
            } else {
                s
            },
            Event::StreamStarted => if s == Stage::Injected || s == Stage::Dispatched {
                Stage::Streaming
            } else {
                s
            },
            Event::AnswerReady => if s == Stage::Injected || s == Stage::Dispatched {
                Stage::Completed
            } else {
                s
            },
            Event::Delivered => if s == Stage::Streaming || s == Stage::Completed {
                Stage::Done
            } else {
                s
            },
        },
    }
}

/// A context window of zero forms no retrieval query (so `start_request`
/// forwards the conversation it received).
pub proof fn lemma_zero_window_passthrough(m: Seq<MessageView>)
    ensures
        query_of(m, 0) is None,
{
}

/// When every retrieval source failed the request fails with an operation
/// error: no conversation is forwarded.
pub proof fn lemma_failed_retrieval_forwards_nothing(
    m: Seq<MessageView>,
    e: RetrievalError,
    policy: MergePolicy,
    rag_prompt: Option<Seq<char>>,
)
    ensures
        after_retrieval_spec(m, Err(e), policy, rag_prompt) == Err::<Seq<MessageView>, RequestError>(
            RequestError::Operation,
        ),
{
}

/// Retrieval that kept no passage forwards the conversation unchanged.
pub proof fn lemma_no_passages_passthrough(
    m: Seq<MessageView>,
    policy: MergePolicy,
    rag_prompt: Option<Seq<char>>,
)
    ensures
        after_retrieval_spec(m, Ok(Seq::empty()), policy, rag_prompt) == Ok::<
            Seq<MessageView>,
            RequestError,
        >(m),
{
}

/// Done and failed requests stay so, whatever happens next.
pub proof fn lemma_terminal_stages_stay(s: Stage, e: Event)
    requires
        is_terminal(s),
    ensures
        next_stage_spec(s, e) == s,
{
}

} // verus!
