//! Weaving retrieved passages into a chat conversation.

use crate::config::{effective_policy_spec, MergePolicy};
use crate::retrieval::RetrievedChunk;
use vstd::prelude::*;

verus! {

/// Header placed above the passages when no custom RAG prompt is configured.
pub const DEFAULT_RAG_PROMPT: &'static str = "Use the following pieces of context to answer the user's question.\nIf you don't know the answer, just say that you don't know, don't try to make up an answer.\n----------------";

#[derive(Clone, Copy, Debug, PartialEq, Eq, Structural)]
pub enum Role {
    System,
    User,
    Assistant,
}

#[derive(Debug)]
pub struct ChatMessage {
    pub role: Role,
    pub content: String,
}

/// A message as the contracts see it.
pub struct MessageView {
    pub role: Role,
    pub content: Seq<char>,
}

impl View for ChatMessage {
    type V = MessageView;

    open spec fn view(&self) -> MessageView {
        MessageView { role: self.role, content: self.content@ }
    }
}

pub open spec fn messages_view(v: Seq<ChatMessage>) -> Seq<MessageView> {
    v.map_values(|m: ChatMessage| m@)
}

pub open spec fn newline() -> Seq<char> {
    seq!['\n']
}

pub open spec fn paragraph_break() -> Seq<char> {
    seq!['\n', '\n']
}

/// The passage texts, separated by blank lines.
pub open spec fn joined_texts(s: Seq<RetrievedChunk>) -> Seq<char>
    decreases s.len(),
{
    if s.len() == 0 {
        Seq::empty()
    } else if s.len() == 1 {
        s[0].text@
    } else {
        joined_texts(s.drop_last()) + paragraph_break() + s.last().text@
    }
}

/// The header: the custom RAG prompt when one is set and not empty, else the
/// default one.
pub open spec fn header_of(rag_prompt: Option<Seq<char>>) -> Seq<char> {
    match rag_prompt {
        Some(p) => if p.len() > 0 {
            p
        } else {
            DEFAULT_RAG_PROMPT@
        },
        None => DEFAULT_RAG_PROMPT@,
    }
}

/// The block injected into the conversation: header, newline, passages.
pub open spec fn context_block(s: Seq<RetrievedChunk>, rag_prompt: Option<Seq<char>>) -> Seq<char> {
    header_of(rag_prompt) + newline() + joined_texts(s)
}

/// Index of the most recent user message, or -1 when there is none.
pub open spec fn last_user_index(m: Seq<MessageView>) -> int
    decreases m.len(),
{
    if m.len() == 0 {
        -1
    } else if m.last().role == Role::User {
        m.len() - 1
    } else {
        last_user_index(m.drop_last())
    }
}

pub proof fn lemma_last_user_index(m: Seq<MessageView>)
    ensures
        -1 <= last_user_index(m) < m.len(),
        last_user_index(m) >= 0 ==> m[last_user_index(m)].role == Role::User,
    decreases m.len(),
{
    if m.len() > 0 && m.last().role != Role::User {
        lemma_last_user_index(m.drop_last());
    }
}

/// The conversation after injecting `block` under `policy`.
pub open spec fn injected(m: Seq<MessageView>, block: Seq<char>, policy: MergePolicy) -> Seq<
    MessageView,
> {
    match policy {
        MergePolicy::SystemMessage => if m.len() > 0 && m[0].role == Role::System {
            m.update(0, MessageView { role: Role::System, content: m[0].content + newline() + block })
        } else {
            m.insert(0, MessageView { role: Role::System, content: block })
        },
        MergePolicy::LastUserMessage => {
            let i = last_user_index(m);
            if i >= 0 {
                m.update(i, MessageView { role: Role::User, content: m[i].content + paragraph_break() + block })
            } else {
                m
            }
        },
    }
}

/// What the conversation becomes: unchanged without passages, else injected.
pub open spec fn with_context(
    m: Seq<MessageView>,
    chunks: Seq<RetrievedChunk>,
    policy: MergePolicy,
    rag_prompt: Option<Seq<char>>,
) -> Seq<MessageView> {
    if chunks.len() == 0 {
        m
    } else {
        injected(m, context_block(chunks, rag_prompt), policy)
    }
}

proof fn lemma_replace_view(orig: Seq<ChatMessage>, i: int, x: ChatMessage)
    requires
        0 <= i < orig.len(),
    ensures
        messages_view(orig.remove(i).insert(i, x)) =~= messages_view(orig).update(i, x@),
{
    orig.remove_ensures(i);
    orig.remove(i).insert_ensures(i, x);
    let r = orig.remove(i).insert(i, x);
    assert forall|k: int| 0 <= k < orig.len() implies #[trigger] r[k] == (if k == i {
        x
    } else {
        orig[k]
    }) by {
        if k > i {
            assert(r[(k - 1) + 1] == orig.remove(i)[k - 1]);
        }
    }
}

proof fn lemma_prepend_view(orig: Seq<ChatMessage>, x: ChatMessage)
    ensures
        messages_view(orig.insert(0, x)) =~= messages_view(orig).insert(0, x@),
{
    orig.insert_ensures(0, x);
    messages_view(orig).insert_ensures(0, x@);
    let r = orig.insert(0, x);
    assert forall|k: int| 0 <= k < r.len() implies #[trigger] messages_view(r)[k] == messages_view(
        orig,
    ).insert(0, x@)[k] by {
        if k > 0 {
            assert(r[(k - 1) + 1] == orig[k - 1]);
            assert(messages_view(orig).insert(0, x@)[(k - 1) + 1] == messages_view(orig)[k - 1]);
        }
    }
}

pub open spec fn option_view(o: Option<String>) -> Option<Seq<char>> {
    match o {
        Some(s) => Some(s@),
        None => None,
    }
}

fn join_texts(chunks: &Vec<RetrievedChunk>) -> (r: String)
    ensures
        r@ == joined_texts(chunks@),
{
    let mut out = String::new();
    let mut i: usize = 0;
    while i < chunks.len()
        invariant
            i <= chunks.len(),
            out@ == joined_texts(chunks@.subrange(0, i as int)),
        decreases chunks.len() - i,
    {
        proof {
            assert(chunks@.subrange(0, i + 1).drop_last() =~= chunks@.subrange(0, i as int));
            assert(chunks@.subrange(0, i + 1).last() == chunks@[i as int]);
            reveal_strlit("\n\n");
        }
        if i > 0 {
            out.append("\n\n");
        }
        out.append(chunks[i].text.as_str());
        proof {
            if i == 0 {
                assert(out@ =~= joined_texts(chunks@.subrange(0, 1)));
            }
        }
        i += 1;
    }
    proof {
        assert(chunks@.subrange(0, chunks.len() as int) =~= chunks@);
    }
    out
}

/// Builds the block to inject: the header, a newline, then the passages
/// separated by blank lines.
pub fn build_context_block(chunks: &Vec<RetrievedChunk>, rag_prompt: &Option<String>) -> (r: String)
    ensures
        r@ == context_block(chunks@, option_view(*rag_prompt)),
{
    let mut out = match rag_prompt {
        Some(p) => if p.as_str().unicode_len() > 0 {
            p.clone()
        } else {
            String::from_str(DEFAULT_RAG_PROMPT)
        },
        None => String::from_str(DEFAULT_RAG_PROMPT),
    };
    proof {
        reveal_strlit("\n");
    }
    out.append("\n");
    let texts = join_texts(chunks);
    out.append(texts.as_str());
    out
}

fn last_user_position(m: &Vec<ChatMessage>) -> (r: Option<usize>)
    ensures
        match r {
            Some(i) => i as int == last_user_index(messages_view(m@)),
            None => last_user_index(messages_view(m@)) == -1,
        },
{
    let mut found: Option<usize> = None;
    let mut i: usize = 0;
    while i < m.len()
        invariant
            i <= m.len(),
            match found {
                Some(j) => j as int == last_user_index(messages_view(m@.subrange(0, i as int))),
                None => last_user_index(messages_view(m@.subrange(0, i as int))) == -1,
            },
        decreases m.len() - i,
    {
        proof {
            assert(messages_view(m@.subrange(0, i + 1)).drop_last() =~= messages_view(
                m@.subrange(0, i as int),
            ));
        }
        if m[i].role == Role::User {
            found = Some(i);
        }
        i += 1;
    }
    proof {
        assert(m@.subrange(0, m.len() as int) =~= m@);
    }
    found
}

/// Injects the passages into the conversation under `policy`: into the leading
/// system message (replacing its content with content, newline, block, or
/// inserting one), or appended after a blank line to the last user message.
/// Without passages the conversation is left as it is.
pub fn inject_context(
    messages: &mut Vec<ChatMessage>,
    chunks: &Vec<RetrievedChunk>,
    policy: MergePolicy,
    rag_prompt: &Option<String>,
)
    ensures
        messages_view(final(messages)@) == with_context(
            messages_view(old(messages)@),
            chunks@,
            policy,
            option_view(*rag_prompt),
        ),
{
    if chunks.len() == 0 {
        return;
    }
    let block = build_context_block(chunks, rag_prompt);
    let ghost orig = messages@;
    let ghost m0 = messages_view(messages@);
    proof {
        reveal_strlit("\n");
        reveal_strlit("\n\n");
        assert("\n"@ =~= newline());
        assert("\n\n"@ =~= paragraph_break());
    }
    match policy {
        MergePolicy::SystemMessage => {
            if messages.len() > 0 && messages[0].role == Role::System {
                let first = messages.remove(0);
                let mut content = first.content;
                content.append("\n");
                content.append(block.as_str());
                let msg = ChatMessage { role: Role::System, content };
                proof {
                    lemma_replace_view(orig, 0, msg);
                }
                messages.insert(0, msg);
            } else {
                let msg = ChatMessage { role: Role::System, content: block };
                proof {
                    lemma_prepend_view(orig, msg);
                }
                messages.insert(0, msg);
            }
        },
        MergePolicy::LastUserMessage => {
            match last_user_position(messages) {
                Some(i) => {
                    proof {
                        lemma_last_user_index(m0);
                    }
                    let old_msg = messages.remove(i);
                    let mut content = old_msg.content;
                    content.append("\n\n");
                    content.append(block.as_str());
                    let msg = ChatMessage { role: Role::User, content };
                    proof {
                        lemma_replace_view(orig, i as int, msg);
                    }
                    messages.insert(i, msg);
                },
                None => {},
            }
        },
    }
}

/// On a chat model without a system role, configuring `SystemMessage` injects
/// exactly as configuring `LastUserMessage` does.
pub proof fn lemma_downgraded_injection(
    m: Seq<MessageView>,
    chunks: Seq<RetrievedChunk>,
    rag_prompt: Option<Seq<char>>,
    supports_system: bool,
)
    requires
        !supports_system,
    ensures
        with_context(m, chunks, effective_policy_spec(MergePolicy::SystemMessage, supports_system), rag_prompt)
            == with_context(m, chunks, effective_policy_spec(MergePolicy::LastUserMessage, supports_system), rag_prompt),
        with_context(m, chunks, effective_policy_spec(MergePolicy::SystemMessage, supports_system), rag_prompt)
            == with_context(m, chunks, MergePolicy::LastUserMessage, rag_prompt),
{
}

} // verus!
