//! Splitting raw text into bounded chunks for indexing.

use vstd::prelude::*;

verus! {

pub open spec fn is_space(c: char) -> bool {
    c == ' ' || c == '\n' || c == '\t' || c == '\r'
}

/// Index of the last whitespace among the first `k` characters of `s`, or -1.
pub open spec fn last_space_before(s: Seq<char>, k: int) -> int
    decreases k,
{
    if k <= 0 {
        -1
    } else if is_space(s[k - 1]) {
        k - 1
    } else {
        last_space_before(s, k - 1)
    }
}

proof fn lemma_last_space_before(s: Seq<char>, k: int)
    ensures
        -1 <= last_space_before(s, k) < k || (k <= 0 && last_space_before(s, k) == -1),
    decreases k,
{
    if k > 0 && !is_space(s[k - 1]) {
        lemma_last_space_before(s, k - 1);
    }
}

/// Length of the first chunk of `s`: all of it when it fits in `k` characters;
/// else up to and including the last whitespace among the first `k`; else `k`.
pub open spec fn cut_point(s: Seq<char>, k: nat) -> nat {
    if s.len() <= k {
        s.len()
    } else if last_space_before(s, k as int) >= 0 {
        (last_space_before(s, k as int) + 1) as nat
    } else {
        k
    }
}

proof fn lemma_cut_point(s: Seq<char>, k: nat)
    requires
        k > 0,
        s.len() > 0,
    ensures
        0 < cut_point(s, k) <= k,
        cut_point(s, k) <= s.len(),
{
    lemma_last_space_before(s, k as int);
}

/// The chunks of `s` for a capacity of `k` characters.
pub open spec fn chunks_of(s: Seq<char>, k: nat) -> Seq<Seq<char>>
    decreases s.len(),
    via chunks_of_decreases
{
    if s.len() == 0 || k == 0 {
        Seq::empty()
    } else {
        let c = cut_point(s, k) as int;
        seq![s.subrange(0, c)] + chunks_of(s.subrange(c, s.len() as int), k)
    }
}

#[via_fn]
proof fn chunks_of_decreases(s: Seq<char>, k: nat) {
    if s.len() > 0 && k > 0 {
        lemma_cut_point(s, k);
    }
}

/// The chunks put back together.
pub open spec fn concat_all(s: Seq<Seq<char>>) -> Seq<char>
    decreases s.len(),
{
    if s.len() == 0 {
        Seq::empty()
    } else {
        s[0] + concat_all(s.drop_first())
    }
}

pub open spec fn chunks_view(v: Seq<String>) -> Seq<Seq<char>> {
    v.map_values(|c: String| c@)
}

/// Chunks rebuild the text exactly, and none is empty or longer than `capacity`.
pub open spec fn is_chunking(chunks: Seq<Seq<char>>, text: Seq<char>, capacity: nat) -> bool {
    &&& concat_all(chunks) == text
    &&& forall|i: int| 0 <= i < chunks.len() ==> 0 < (#[trigger] chunks[i]).len() <= capacity
}

/// For any text and positive capacity, the chunks rebuild the text and each
/// holds at most `capacity` characters.
pub proof fn lemma_chunks_rebuild(s: Seq<char>, k: nat)
    requires
        k > 0,
    ensures
        is_chunking(chunks_of(s, k), s, k),
    decreases s.len(),
{
    if s.len() > 0 {
        lemma_cut_point(s, k);
        let c = cut_point(s, k) as int;
        let rest = s.subrange(c, s.len() as int);
        lemma_chunks_rebuild(rest, k);
        let r = chunks_of(s, k);
        assert(r[0] == s.subrange(0, c));
        assert(r.drop_first() =~= chunks_of(rest, k));
        assert(s.subrange(0, c) + rest =~= s);
        assert forall|i: int| 0 <= i < r.len() implies 0 < (#[trigger] r[i]).len() <= k by {
            if i > 0 {
                assert(r[i] == chunks_of(rest, k)[i - 1]);
            }
        }
    } else {
        assert(s =~= Seq::<char>::empty());
    }
}

/// Index just past the last whitespace among `text[from..from + k]`, or 0 when
/// there is none.
fn space_cut(text: &str, from: usize, k: usize) -> (j: usize)
    requires
        from + k <= text@.len() <= usize::MAX,
    ensures
        j as int == last_space_before(text@.subrange(from as int, text@.len() as int), k as int) + 1,
{
    let ghost sub = text@.subrange(from as int, text@.len() as int);
    let mut j: usize = k;
    while j > 0 && !is_space_char(text.get_char(from + j - 1))
        invariant
            j <= k,
            from + k <= text@.len() <= usize::MAX,
            sub == text@.subrange(from as int, text@.len() as int),
            last_space_before(sub, k as int) == last_space_before(sub, j as int),
        decreases j,
    {
        proof {
            assert(sub[j - 1] == text@[from + j - 1]);
        }
        j -= 1;
    }
    proof {
        if j > 0 {
            assert(sub[j - 1] == text@[from + j - 1]);
        }
    }
    j
}

fn is_space_char(c: char) -> (r: bool)
    ensures
        r == is_space(c),
{
    c == ' ' || c == '\n' || c == '\t' || c == '\r'
}

/// Splits `text` into chunks of at most `capacity` characters, breaking after
/// the last whitespace that fits when there is one; empty text gives no chunk.
pub fn chunk_text(text: &str, capacity: usize) -> (r: Vec<String>)
    requires
        capacity > 0,
    ensures
        chunks_view(r@) == chunks_of(text@, capacity as nat),
        is_chunking(chunks_view(r@), text@, capacity as nat),
{
    let n = text.unicode_len();
    let mut out: Vec<String> = Vec::new();
    let mut i: usize = 0;
    proof {
        assert(text@.subrange(0, n as int) =~= text@);
    }
    while i < n
        invariant
            i <= n,
            n == text@.len(),
            capacity > 0,
            chunks_of(text@, capacity as nat) == chunks_view(out@) + chunks_of(
                text@.subrange(i as int, n as int),
                capacity as nat,
            ),
        decreases n - i,
    {
        let ghost rest = text@.subrange(i as int, n as int);
        let cut = if n - i <= capacity {
            n - i
        } else {
            let j = space_cut(text, i, capacity);
            if j > 0 {
                j
            } else {
                capacity
            }
        };
        proof {
            lemma_cut_point(rest, capacity as nat);
            assert(cut == cut_point(rest, capacity as nat));
            assert(rest.subrange(0, cut as int) =~= text@.subrange(i as int, i + cut));
            assert(rest.subrange(cut as int, rest.len() as int) =~= text@.subrange(i + cut, n as int));
        }
        let piece = String::from_str(text.substring_char(i, i + cut));
        let ghost before = out@;
        out.push(piece);
        proof {
            assert(chunks_view(out@) =~= chunks_view(before).push(piece@));
            assert(chunks_view(before) + chunks_of(rest, capacity as nat) =~= chunks_view(out@)
                + chunks_of(text@.subrange(i + cut, n as int), capacity as nat));
        }
        i = i + cut;
    }
    proof {
        assert(chunks_of(text@.subrange(n as int, n as int), capacity as nat) =~= Seq::<
            Seq<char>,
        >::empty());
        assert(chunks_view(out@) + Seq::<Seq<char>>::empty() =~= chunks_view(out@));
        lemma_chunks_rebuild(text@, capacity as nat);
    }
    out
}

} // verus!
