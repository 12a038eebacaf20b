//! Retrieval fan-out results: threshold filtering, ranking by score,
//! de-duplication by text and truncation to a passage budget.

use vstd::prelude::*;

verus! {

/// One hit as a retrieval source returned it, best first.
#[derive(Debug)]
pub struct Hit {
    pub text: String,
    /// Relevance in fixed-point units (see `config::SCORE_SCALE`).
    pub score: u64,
}

/// What one retrieval source gave back: its hits, or a failure (an error or a
/// timeout).
#[derive(Debug)]
pub enum SourceOutcome {
    Hits(Vec<Hit>),
    Failed,
}

/// Per-source retrieval parameters.
#[derive(Clone, Copy, Debug, PartialEq, Eq, Structural)]
pub struct SourceParams {
    /// Only the first `limit` hits of the source are considered.
    pub limit: u64,
    /// Hits scoring below this are discarded.
    pub score_threshold: u64,
}

/// A passage that survived filtering.
#[derive(Debug)]
pub struct RetrievedChunk {
    pub text: String,
    pub score: u64,
    /// Position of the source in the fan-out.
    pub source_id: usize,
    /// Position of the hit within its source's answer.
    pub rank: usize,
}

#[derive(Clone, Copy, Debug, PartialEq, Eq, Structural)]
pub enum RetrievalError {
    /// Every configured source failed.
    AllSourcesFailed,
}

/// The chunks contributed by one source's hits: those among the first `limit`
/// whose score reaches the threshold, in the source's order.
pub open spec fn qualifying(hits: Seq<Hit>, p: SourceParams, source: usize) -> Seq<RetrievedChunk>
    decreases hits.len(),
{
    if hits.len() == 0 {
        Seq::empty()
    } else {
        let prev = qualifying(hits.drop_last(), p, source);
        let k = hits.len() - 1;
        let h = hits.last();
        if k < p.limit && h.score >= p.score_threshold {
            prev.push(RetrievedChunk { text: h.text, score: h.score, source_id: source, rank: k as usize })
        } else {
            prev
        }
    }
}

/// All chunks of all sources that answered, source by source.
pub open spec fn candidates(outcomes: Seq<SourceOutcome>, params: Seq<SourceParams>) -> Seq<
    RetrievedChunk,
>
    decreases outcomes.len(),
{
    if outcomes.len() == 0 {
        Seq::empty()
    } else {
        let i = outcomes.len() - 1;
        let prev = candidates(outcomes.drop_last(), params);
        match outcomes[i] {
            SourceOutcome::Hits(h) => prev + qualifying(h@, params[i], i as usize),
            SourceOutcome::Failed => prev,
        }
    }
}

/// Index of the first chunk with the highest score.
pub open spec fn best_index(s: Seq<RetrievedChunk>) -> int
    decreases s.len(),
{
    if s.len() <= 1 {
        0
    } else {
        let j = best_index(s.drop_last());
        if s.last().score > s[j].score {
            s.len() - 1
        } else {
            j
        }
    }
}

pub proof fn lemma_best_index(s: Seq<RetrievedChunk>)
    requires
        s.len() > 0,
    ensures
        0 <= best_index(s) < s.len(),
        forall|k: int| 0 <= k < s.len() ==> #[trigger] s[k].score <= s[best_index(s)].score,
    decreases s.len(),
{
    if s.len() > 1 {
        let d = s.drop_last();
        lemma_best_index(d);
        assert forall|k: int| 0 <= k < s.len() - 1 implies #[trigger] s[k].score <= s[best_index(
            d,
        )].score by {
            assert(d[k] == s[k]);
        }
    }
}

/// The chunks ordered by descending score; among equal scores the earlier
/// chunk comes first.
pub open spec fn ranked(s: Seq<RetrievedChunk>) -> Seq<RetrievedChunk>
    decreases s.len(),
    via ranked_decreases
{
    if s.len() == 0 {
        Seq::empty()
    } else {
        let m = best_index(s);
        seq![s[m]] + ranked(s.remove(m))
    }
}

#[via_fn]
proof fn ranked_decreases(s: Seq<RetrievedChunk>) {
    if s.len() > 0 {
        lemma_best_index(s);
    }
}

/// Whether some chunk of `s` has text `t`.
pub open spec fn contains_text(s: Seq<RetrievedChunk>, t: Seq<char>) -> bool {
    exists|i: int| 0 <= i < s.len() && s[i].text@ == t
}

/// The chunks with each text kept at its first occurrence only.
pub open spec fn dedup(s: Seq<RetrievedChunk>) -> Seq<RetrievedChunk>
    decreases s.len(),
{
    if s.len() == 0 {
        Seq::empty()
    } else {
        let d = dedup(s.drop_last());
        if contains_text(d, s.last().text@) {
            d
        } else {
            d.push(s.last())
        }
    }
}

/// How many leading chunks fit in `budget` characters of text together.
pub open spec fn fit_count(s: Seq<RetrievedChunk>, budget: nat) -> nat
    decreases s.len(),
{
    if s.len() == 0 {
        0
    } else if s[0].text@.len() <= budget {
        1 + fit_count(s.drop_first(), (budget - s[0].text@.len()) as nat)
    } else {
        0
    }
}

pub proof fn lemma_fit_count_bound(s: Seq<RetrievedChunk>, budget: nat)
    ensures
        fit_count(s, budget) <= s.len(),
    decreases s.len(),
{
    if s.len() > 0 && s[0].text@.len() <= budget {
        lemma_fit_count_bound(s.drop_first(), (budget - s[0].text@.len()) as nat);
    }
}

/// Every configured source failed.
pub open spec fn all_failed(outcomes: Seq<SourceOutcome>) -> bool {
    outcomes.len() > 0 && forall|i: int| 0 <= i < outcomes.len() ==> outcomes[i] is Failed
}

/// The merged passages: the qualifying chunks ranked by score, each text once
/// (at its best score), cut to the passages that fit the budget.
pub open spec fn merged(outcomes: Seq<SourceOutcome>, params: Seq<SourceParams>, budget: nat) -> Seq<
    RetrievedChunk,
> {
    let d = unique_ranked(outcomes, params);
    d.take(fit_count(d, budget) as int)
}

/// The qualifying chunks ranked by score, each text once.
pub open spec fn unique_ranked(outcomes: Seq<SourceOutcome>, params: Seq<SourceParams>) -> Seq<
    RetrievedChunk,
> {
    dedup(ranked(candidates(outcomes, params)))
}

/// Scores never increase along the sequence.
pub open spec fn descending(s: Seq<RetrievedChunk>) -> bool {
    forall|i: int, j: int| 0 <= i < j < s.len() ==> #[trigger] s[i].score >= #[trigger] s[j].score
}

/// No two chunks share a text.
pub open spec fn distinct_texts(s: Seq<RetrievedChunk>) -> bool {
    forall|i: int, j: int| 0 <= i < j < s.len() ==> #[trigger] s[i].text@ != #[trigger] s[j].text@
}

/// Each chunk meets the threshold of the source it came from.
pub open spec fn meets_thresholds(s: Seq<RetrievedChunk>, params: Seq<SourceParams>) -> bool {
    forall|k: int|
        0 <= k < s.len() ==> (#[trigger] s[k]).source_id < params.len() && s[k].score
            >= params[s[k].source_id as int].score_threshold
}

proof fn lemma_qualifying_thresholds(hits: Seq<Hit>, p: SourceParams, source: usize, params: Seq<SourceParams>)
    requires
        source < params.len(),
        params[source as int] == p,
    ensures
        meets_thresholds(qualifying(hits, p, source), params),
    decreases hits.len(),
{
    if hits.len() > 0 {
        lemma_qualifying_thresholds(hits.drop_last(), p, source, params);
    }
}

proof fn lemma_candidates_thresholds(outcomes: Seq<SourceOutcome>, params: Seq<SourceParams>)
    requires
        outcomes.len() <= params.len(),
        outcomes.len() <= usize::MAX,
    ensures
        meets_thresholds(candidates(outcomes, params), params),
    decreases outcomes.len(),
{
    if outcomes.len() > 0 {
        let i = outcomes.len() - 1;
        lemma_candidates_thresholds(outcomes.drop_last(), params);
        match outcomes[i] {
            SourceOutcome::Hits(h) => {
                lemma_qualifying_thresholds(h@, params[i], i as usize, params);
                let a = candidates(outcomes.drop_last(), params);
                let b = qualifying(h@, params[i], i as usize);
                assert forall|k: int| 0 <= k < (a + b).len() implies (#[trigger] (a + b)[k]).source_id
                    < params.len() && (a + b)[k].score >= params[(a + b)[k].source_id as int].score_threshold by {
                    if k < a.len() {
                        assert((a + b)[k] == a[k]);
                    } else {
                        assert((a + b)[k] == b[k - a.len()]);
                    }
                }
            },
            SourceOutcome::Failed => {},
        }
    }
}

proof fn lemma_ranked_perm(s: Seq<RetrievedChunk>)
    ensures
        ranked(s).to_multiset() =~= s.to_multiset(),
    decreases s.len(),
{
    broadcast use vstd::seq_lib::group_to_multiset_ensures, vstd::multiset::group_multiset_axioms;

    if s.len() > 0 {
        let m = best_index(s);
        lemma_best_index(s);
        let rest = s.remove(m);
        lemma_ranked_perm(rest);
        vstd::seq_lib::lemma_multiset_commutative(seq![s[m]], ranked(rest));
        assert(seq![s[m]] =~= Seq::<RetrievedChunk>::empty().push(s[m]));
        assert(s.contains(s[m]));
    }
}

proof fn lemma_ranked_members(s: Seq<RetrievedChunk>)
    ensures
        ranked(s).len() == s.len(),
        forall|x: RetrievedChunk| ranked(s).contains(x) <==> s.contains(x),
{
    broadcast use vstd::seq_lib::group_to_multiset_ensures;

    lemma_ranked_perm(s);
    assert(ranked(s).to_multiset().len() == s.to_multiset().len());
    assert forall|x: RetrievedChunk| ranked(s).contains(x) <==> s.contains(x) by {
        assert(ranked(s).to_multiset().count(x) == s.to_multiset().count(x));
    }
}

proof fn lemma_ranked_descending(s: Seq<RetrievedChunk>)
    ensures
        descending(ranked(s)),
    decreases s.len(),
{
    if s.len() > 0 {
        let m = best_index(s);
        lemma_best_index(s);
        let rest = s.remove(m);
        lemma_ranked_descending(rest);
        lemma_ranked_members(rest);
        let r = ranked(s);
        assert(r == seq![s[m]] + ranked(rest));
        assert forall|i: int, j: int| 0 <= i < j < r.len() implies #[trigger] r[i].score
            >= #[trigger] r[j].score by {
            assert(r[j] == ranked(rest)[j - 1]);
            if i > 0 {
                assert(r[i] == ranked(rest)[i - 1]);
            } else {
                let y = ranked(rest)[j - 1];
                assert(ranked(rest).contains(y));
                assert(rest.contains(y));
                let k = choose|k: int| 0 <= k < rest.len() && rest[k] == y;
                s.remove_ensures(m);
                if k < m {
                    assert(rest[k] == s[k]);
                } else {
                    assert(rest[k] == s[k + 1]);
                }
            }
        }
    }
}

proof fn lemma_dedup_props(s: Seq<RetrievedChunk>)
    ensures
        forall|k: int| 0 <= k < dedup(s).len() ==> s.contains(#[trigger] dedup(s)[k]),
        forall|k: int| 0 <= k < s.len() ==> contains_text(dedup(s), #[trigger] s[k].text@),
        distinct_texts(dedup(s)),
        descending(s) ==> descending(dedup(s)),
    decreases s.len(),
{
    if s.len() > 0 {
        let p = s.drop_last();
        let d = dedup(p);
        lemma_dedup_props(p);
        let x = s.last();
        assert forall|k: int| 0 <= k < dedup(s).len() implies s.contains(#[trigger] dedup(s)[k]) by {
            if k < d.len() {
                assert(dedup(s)[k] == d[k]);
                let j = choose|j: int| 0 <= j < p.len() && p[j] == d[k];
                assert(s[j] == p[j]);
            } else {
                assert(s[s.len() - 1] == x);
            }
        }
        assert forall|k: int| 0 <= k < s.len() implies contains_text(dedup(s), #[trigger] s[k].text@) by {
            if k < p.len() {
                assert(s[k] == p[k]);
                assert(contains_text(d, p[k].text@));
                let j = choose|j: int| 0 <= j < d.len() && d[j].text@ == p[k].text@;
                assert(dedup(s)[j] == d[j]);
            } else if !contains_text(d, x.text@) {
                assert(dedup(s)[d.len() as int] == x);
            }
        }
        if descending(s) {
            assert forall|i: int, j: int| 0 <= i < j < p.len() implies #[trigger] p[i].score
                >= #[trigger] p[j].score by {
                assert(p[i] == s[i] && p[j] == s[j]);
            }
            assert forall|i: int, j: int| 0 <= i < j < dedup(s).len() implies #[trigger] dedup(
                s,
            )[i].score >= #[trigger] dedup(s)[j].score by {
                if j < d.len() {
                    assert(dedup(s)[i] == d[i] && dedup(s)[j] == d[j]);
                } else {
                    assert(dedup(s)[i] == d[i]);
                    let a = choose|a: int| 0 <= a < p.len() && p[a] == d[i];
                    assert(s[a] == p[a]);
                }
            }
        }
    }
}

/// The merged passages are ordered by descending score.
pub proof fn lemma_merged_descending(outcomes: Seq<SourceOutcome>, params: Seq<SourceParams>, budget: nat)
    ensures
        descending(merged(outcomes, params, budget)),
{
    let c = candidates(outcomes, params);
    lemma_ranked_descending(c);
    lemma_dedup_props(ranked(c));
    let d = unique_ranked(outcomes, params);
    let n = fit_count(d, budget) as int;
    lemma_fit_count_bound(d, budget);
    let m = merged(outcomes, params, budget);
    assert forall|i: int, j: int| 0 <= i < j < m.len() implies #[trigger] m[i].score
        >= #[trigger] m[j].score by {
        assert(m[i] == d[i] && m[j] == d[j]);
    }
}

/// A chunk scoring below the threshold of its source never appears in the
/// merged passages.
pub proof fn lemma_merged_meets_thresholds(
    outcomes: Seq<SourceOutcome>,
    params: Seq<SourceParams>,
    budget: nat,
)
    requires
        outcomes.len() == params.len(),
        outcomes.len() <= usize::MAX,
    ensures
        meets_thresholds(merged(outcomes, params, budget), params),
{
    let c = candidates(outcomes, params);
    lemma_candidates_thresholds(outcomes, params);
    lemma_ranked_members(c);
    lemma_dedup_props(ranked(c));
    let d = unique_ranked(outcomes, params);
    lemma_fit_count_bound(d, budget);
    let m = merged(outcomes, params, budget);
    assert forall|k: int| 0 <= k < m.len() implies (#[trigger] m[k]).source_id < params.len()
        && m[k].score >= params[m[k].source_id as int].score_threshold by {
        assert(m[k] == d[k]);
        assert(ranked(c).contains(d[k]));
        assert(c.contains(d[k]));
    }
}

/// Each text appears at most once among the merged passages; and when the
/// budget holds every distinct passage, every qualifying text appears.
pub proof fn lemma_merged_texts_once(
    outcomes: Seq<SourceOutcome>,
    params: Seq<SourceParams>,
    budget: nat,
)
    ensures
        distinct_texts(merged(outcomes, params, budget)),
        fit_count(unique_ranked(outcomes, params), budget) == unique_ranked(outcomes, params).len()
            ==> forall|k: int|
            0 <= k < candidates(outcomes, params).len() ==> contains_text(
                merged(outcomes, params, budget),
                #[trigger] candidates(outcomes, params)[k].text@,
            ),
{
    let c = candidates(outcomes, params);
    lemma_ranked_members(c);
    lemma_dedup_props(ranked(c));
    let d = unique_ranked(outcomes, params);
    lemma_fit_count_bound(d, budget);
    let m = merged(outcomes, params, budget);
    assert forall|i: int, j: int| 0 <= i < j < m.len() implies #[trigger] m[i].text@
        != #[trigger] m[j].text@ by {
        assert(m[i] == d[i] && m[j] == d[j]);
    }
    if fit_count(d, budget) == d.len() {
        assert(m =~= d);
        assert forall|k: int| 0 <= k < c.len() implies contains_text(m, #[trigger] c[k].text@) by {
            assert(c.contains(c[k]));
            assert(ranked(c).contains(c[k]));
            let j = choose|j: int| 0 <= j < ranked(c).len() && ranked(c)[j] == c[k];
            assert(contains_text(dedup(ranked(c)), ranked(c)[j].text@));
        }
    }
}

fn copy_chunk(c: &RetrievedChunk) -> (r: RetrievedChunk)
    ensures
        r == *c,
{
    RetrievedChunk { text: c.text.clone(), score: c.score, source_id: c.source_id, rank: c.rank }
}

/// Appends the qualifying chunks of one source to `out`.
fn collect_source(
    hits: &Vec<Hit>,
    p: SourceParams,
    source: usize,
    out: &mut Vec<RetrievedChunk>,
)
    ensures
        final(out)@ == old(out)@ + qualifying(hits@, p, source),
{
    let ghost start = out@;
    let mut k: usize = 0;
    while k < hits.len()
        invariant
            k <= hits.len(),
            out@ == start + qualifying(hits@.subrange(0, k as int), p, source),
        decreases hits.len() - k,
    {
        proof {
            assert(hits@.subrange(0, k + 1).drop_last() =~= hits@.subrange(0, k as int));
        }
        if (k as u64) < p.limit && hits[k].score >= p.score_threshold {
            let c = RetrievedChunk {
                text: hits[k].text.clone(),
                score: hits[k].score,
                source_id: source,
                rank: k,
            };
            out.push(c);
            proof {
                assert(out@ =~= start + qualifying(hits@.subrange(0, k + 1), p, source));
            }
        }
        k += 1;
    }
    proof {
        assert(hits@.subrange(0, hits.len() as int) =~= hits@);
    }
}

/// Position of the first chunk with the highest score.
fn best_position(s: &Vec<RetrievedChunk>) -> (m: usize)
    requires
        s.len() > 0,
    ensures
        m == best_index(s@),
{
    let mut best: usize = 0;
    let mut k: usize = 1;
    proof {
        assert(s@.subrange(0, 1).len() == 1);
    }
    while k < s.len()
        invariant
            1 <= k <= s.len(),
            best == best_index(s@.subrange(0, k as int)),
        decreases s.len() - k,
    {
        proof {
            lemma_best_index(s@.subrange(0, k as int));
            assert(s@.subrange(0, k + 1).drop_last() =~= s@.subrange(0, k as int));
        }
        if s[k].score > s[best].score {
            best = k;
        }
        k += 1;
    }
    proof {
        assert(s@.subrange(0, s.len() as int) =~= s@);
    }
    best
}

/// Orders chunks by descending score, earlier first among equal scores.
pub fn rank_by_score(chunks: Vec<RetrievedChunk>) -> (r: Vec<RetrievedChunk>)
    ensures
        r@ == ranked(chunks@),
{
    let mut rest = chunks;
    let mut out: Vec<RetrievedChunk> = Vec::new();
    proof {
        assert(out@ + ranked(rest@) =~= ranked(chunks@));
    }
    while rest.len() > 0
        invariant
            out@ + ranked(rest@) == ranked(chunks@),
        decreases rest.len(),
    {
        let m = best_position(&rest);
        proof {
            lemma_best_index(rest@);
        }
        let ghost before = rest@;
        let c = rest.remove(m);
        out.push(c);
        proof {
            assert(ranked(before) == seq![before[m as int]] + ranked(rest@));
            assert(out@ + ranked(rest@) =~= ranked(chunks@));
        }
    }
    proof {
        assert(ranked(rest@) =~= Seq::<RetrievedChunk>::empty());
        assert(out@ =~= out@ + ranked(rest@));
    }
    out
}

fn has_text(v: &Vec<RetrievedChunk>, t: &String) -> (r: bool)
    ensures
        r == contains_text(v@, t@),
{
    let mut j: usize = 0;
    while j < v.len()
        invariant
            j <= v.len(),
            forall|k: int| 0 <= k < j ==> v@[k].text@ != t@,
        decreases v.len() - j,
    {
        if v[j].text == *t {
            return true;
        }
        j += 1;
    }
    false
}

/// Keeps each text at its first occurrence only.
pub fn dedup_by_text(chunks: &Vec<RetrievedChunk>) -> (r: Vec<RetrievedChunk>)
    ensures
        r@ == dedup(chunks@),
{
    let mut out: Vec<RetrievedChunk> = Vec::new();
    let mut i: usize = 0;
    while i < chunks.len()
        invariant
            i <= chunks.len(),
            out@ == dedup(chunks@.subrange(0, i as int)),
        decreases chunks.len() - i,
    {
        proof {
            assert(chunks@.subrange(0, i + 1).drop_last() =~= chunks@.subrange(0, i as int));
        }
        let found = has_text(&out, &chunks[i].text);
        if !found {
            out.push(copy_chunk(&chunks[i]));
        }
        i += 1;
    }
    proof {
        assert(chunks@.subrange(0, chunks.len() as int) =~= chunks@);
    }
    out
}

/// How many leading chunks fit in `budget` characters of text together.
pub fn budget_count(chunks: &Vec<RetrievedChunk>, budget: usize) -> (n: usize)
    ensures
        n == fit_count(chunks@, budget as nat),
{
    let mut i: usize = 0;
    let mut used: usize = 0;
    proof {
        assert(chunks@.subrange(0, chunks.len() as int) =~= chunks@);
    }
    while i < chunks.len()
        invariant
            i <= chunks.len(),
            used <= budget,
            fit_count(chunks@, budget as nat) == i + fit_count(
                chunks@.subrange(i as int, chunks.len() as int),
                (budget - used) as nat,
            ),
        decreases chunks.len() - i,
    {
        let ghost rest = chunks@.subrange(i as int, chunks.len() as int);
        proof {
            assert(rest.drop_first() =~= chunks@.subrange(i + 1, chunks.len() as int));
            assert(rest[0] == chunks@[i as int]);
        }
        let l = chunks[i].text.as_str().unicode_len();
        if l > budget - used {
            return i;
        }
        used = used + l;
        i += 1;
    }
    proof {
        assert(chunks@.subrange(i as int, chunks.len() as int).len() == 0);
    }
    i
}

/// Merges the answers of all retrieval sources. A failed source contributes
/// nothing; the merge fails only when every configured source failed.
pub fn merge_retrieval(
    outcomes: &Vec<SourceOutcome>,
    params: &Vec<SourceParams>,
    budget: usize,
) -> (r: Result<Vec<RetrievedChunk>, RetrievalError>)
    requires
        outcomes.len() == params.len(),
    ensures
        r is Err <==> all_failed(outcomes@),
        r is Err ==> r->Err_0 == RetrievalError::AllSourcesFailed,
        r is Ok ==> r->Ok_0@ == merged(outcomes@, params@, budget as nat),
{
    let mut cands: Vec<RetrievedChunk> = Vec::new();
    let mut any_answered = false;
    let mut i: usize = 0;
    while i < outcomes.len()
        invariant
            i <= outcomes.len(),
            outcomes.len() == params.len(),
            cands@ == candidates(outcomes@.subrange(0, i as int), params@),
            any_answered <==> exists|j: int| 0 <= j < i && !(outcomes@[j] is Failed),
        decreases outcomes.len() - i,
    {
        proof {
            assert(outcomes@.subrange(0, i + 1).drop_last() =~= outcomes@.subrange(0, i as int));
        }
        match &outcomes[i] {
            SourceOutcome::Hits(h) => {
                collect_source(h, params[i], i, &mut cands);
                any_answered = true;
            },
            SourceOutcome::Failed => {},
        }
        i += 1;
    }
    proof {
        assert(outcomes@.subrange(0, outcomes.len() as int) =~= outcomes@);
    }
    if outcomes.len() > 0 && !any_answered {
        return Err(RetrievalError::AllSourcesFailed);
    }
    let ranked_chunks = rank_by_score(cands);
    let mut unique = dedup_by_text(&ranked_chunks);
    let n = budget_count(&unique, budget);
    proof {
        lemma_fit_count_bound(unique@, budget as nat);
    }
    unique.truncate(n);
    proof {
        assert(unique@ =~= merged(outcomes@, params@, budget as nat));
    }
    Ok(unique)
}

} // verus!
