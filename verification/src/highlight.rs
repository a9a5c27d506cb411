//! Hit highlighting and snippet windows for search results.
use vstd::prelude::*;
use crate::text::{string_views, char_views, chars_of, find_from, lower_chars, lowercase, occurs_at, trim, trim_chars};

verus! {

broadcast use vstd::seq_lib::group_to_multiset_ensures;

/// A highlighted range of character positions, `start` inclusive, `end` exclusive.
#[derive(Debug, Clone, Copy, PartialEq, Eq)]
pub struct HighlightSpan {
    pub start: usize,
    pub end: usize,
}

/// Start positions of the non-overlapping occurrences of `n` in `h`, found
/// left to right from `from` (every position for an empty `n`).
pub open spec fn match_starts(h: Seq<char>, n: Seq<char>, from: int) -> Seq<int>
    decreases h.len() + 1 - from,
{
    if n.len() == 0 {
        if 0 <= from <= h.len() {
            seq![from] + match_starts(h, n, from + 1)
        } else {
            Seq::empty()
        }
    } else if from < 0 || from + n.len() > h.len() {
        Seq::empty()
    } else if occurs_at(h, n, from) {
        seq![from] + match_starts(h, n, from + n.len())
    } else {
        match_starts(h, n, from + 1)
    }
}

/// The spans covering each occurrence of `n` in `h`.
pub open spec fn term_spans(h: Seq<char>, n: Seq<char>) -> Seq<(usize, usize)> {
    spans_at(match_starts(h, n, 0), n.len() as int)
}

/// Spans of length `len` at each start position.
pub open spec fn spans_at(starts: Seq<int>, len: int) -> Seq<(usize, usize)> {
    starts.map_values(|p: int| (p as usize, (p + len) as usize))
}

pub proof fn lemma_spans_at_cons(p: int, rest: Seq<int>, len: int)
    ensures
        spans_at(seq![p] + rest, len) == seq![(p as usize, (p + len) as usize)] + spans_at(rest, len),
        spans_at(Seq::<int>::empty(), len) == Seq::<(usize, usize)>::empty(),
{
    assert(spans_at(seq![p] + rest, len) =~= seq![(p as usize, (p + len) as usize)] + spans_at(rest, len));
    assert(spans_at(Seq::<int>::empty(), len) =~= Seq::<(usize, usize)>::empty());
}

/// Spans of every (trimmed, lowercased) term inside the lowercase text `h`,
/// term by term.
pub open spec fn all_term_spans(h: Seq<char>, terms: Seq<Seq<char>>) -> Seq<(usize, usize)>
    decreases terms.len(),
{
    if terms.len() == 0 {
        Seq::empty()
    } else {
        let t = trim(terms.last());
        all_term_spans(h, terms.drop_last()) + if t.len() == 0 {
            Seq::<(usize, usize)>::empty()
        } else {
            term_spans(h, lowercase(t))
        }
    }
}

/// Lexicographic order on spans.
pub open spec fn span_le(a: (usize, usize), b: (usize, usize)) -> bool {
    a.0 < b.0 || (a.0 == b.0 && a.1 <= b.1)
}

/// `s` is ordered by `span_le`.
pub open spec fn spans_sorted(s: Seq<(usize, usize)>) -> bool {
    forall|i: int, j: int| 0 <= i < j < s.len() ==> span_le(s[i], s[j])
}

/// `p` is `s` in sorted order.
pub open spec fn is_sorted_permutation(p: Seq<(usize, usize)>, s: Seq<(usize, usize)>) -> bool {
    spans_sorted(p) && p.to_multiset() == s.to_multiset()
}

/// Sorted spans with every span that starts no later than the previous
/// merged span ends folded into it.
pub open spec fn merge_spans(s: Seq<(usize, usize)>) -> Seq<(usize, usize)>
    decreases s.len(),
{
    if s.len() == 0 {
        Seq::empty()
    } else {
        let m = merge_spans(s.drop_last());
        let x = s.last();
        if m.len() > 0 && x.0 <= m.last().1 {
            m.drop_last().push((m.last().0, if m.last().1 >= x.1 { m.last().1 } else { x.1 }))
        } else {
            m.push(x)
        }
    }
}

/// Merging sorted, well-formed spans gives well-formed spans that are
/// pairwise disjoint and apart: each merged span ends before the next one
/// starts, so no character is highlighted twice and touching hits become one.
pub proof fn law_merged_spans_disjoint(s: Seq<(usize, usize)>)
    requires
        spans_sorted(s),
        forall|i: int| 0 <= i < s.len() ==> (#[trigger] s[i]).0 <= s[i].1,
    ensures
        forall|i: int| 0 <= i < merge_spans(s).len() ==> (#[trigger] merge_spans(s)[i]).0 <= merge_spans(s)[i].1,
        forall|i: int, j: int| 0 <= i < j < merge_spans(s).len() ==> merge_spans(s)[i].1 < merge_spans(s)[j].0,
        s.len() > 0 ==> merge_spans(s).len() > 0 && merge_spans(s).last().0 <= s.last().0,
    decreases s.len(),
{
    if s.len() > 0 {
        let t = s.drop_last();
        assert(spans_sorted(t)) by {
            assert forall|i: int, j: int| 0 <= i < j < t.len() implies span_le(t[i], t[j]) by {
                assert(t[i] == s[i] && t[j] == s[j]);
            }
        }
        assert forall|i: int| 0 <= i < t.len() implies (#[trigger] t[i]).0 <= t[i].1 by {
            assert(t[i] == s[i]);
        }
        law_merged_spans_disjoint(t);
        let m = merge_spans(t);
        let x = s.last();
        assert(s[s.len() - 1] == x);
        if t.len() > 0 {
            assert(t.last() == s[s.len() - 2]);
            assert(span_le(s[s.len() - 2], s[s.len() - 1]));
        }
        if m.len() > 0 && x.0 <= m.last().1 {
            let n = m.drop_last().push((m.last().0, if m.last().1 >= x.1 { m.last().1 } else { x.1 }));
            assert(merge_spans(s) == n);
            assert forall|i: int| 0 <= i < n.len() implies (#[trigger] n[i]).0 <= n[i].1 by {
                if i < m.len() - 1 {
                    assert(n[i] == m[i]);
                }
            }
            assert forall|i: int, j: int| 0 <= i < j < n.len() implies n[i].1 < n[j].0 by {
                assert(n[i] == m[i]);
                if j < m.len() - 1 {
                    assert(n[j] == m[j]);
                } else {
                    assert(m[i].1 < m[m.len() - 1].0);
                }
            }
        } else {
            let n = m.push(x);
            assert(merge_spans(s) == n);
            assert forall|i: int| 0 <= i < n.len() implies (#[trigger] n[i]).0 <= n[i].1 by {
                if i < m.len() {
                    assert(n[i] == m[i]);
                }
            }
            assert forall|i: int, j: int| 0 <= i < j < n.len() implies n[i].1 < n[j].0 by {
                assert(n[i] == m[i]);
                if j < m.len() {
                    assert(n[j] == m[j]);
                } else if i < m.len() - 1 {
                    assert(m[i].1 < m[m.len() - 1].0);
                    assert(m[m.len() - 1].0 <= m[m.len() - 1].1);
                }
            }
        }
    }
}

/// The merged highlight spans of `terms` inside `text`.
pub open spec fn highlight_of(text: Seq<char>, terms: Seq<Seq<char>>, r: Seq<(usize, usize)>) -> bool {
    exists|p: Seq<(usize, usize)>|
        #[trigger] is_sorted_permutation(p, all_term_spans(lowercase(text), terms)) && r
            == merge_spans(p)
}

pub proof fn lemma_match_starts_skip(h: Seq<char>, n: Seq<char>, from: int, k: int)
    requires
        n.len() > 0,
        0 <= from <= k,
        k + n.len() <= h.len(),
        forall|j: int| from <= j < k ==> !occurs_at(h, n, j),
    ensures
        match_starts(h, n, from) == match_starts(h, n, k),
    decreases k - from,
{
    if from < k {
        lemma_match_starts_skip(h, n, from + 1, k);
    }
}

pub proof fn lemma_match_starts_none(h: Seq<char>, n: Seq<char>, from: int)
    requires
        n.len() > 0,
        0 <= from,
        forall|j: int| from <= j ==> !occurs_at(h, n, j),
    ensures
        match_starts(h, n, from) == Seq::<int>::empty(),
    decreases h.len() + 1 - from,
{
    if from + n.len() <= h.len() {
        lemma_match_starts_none(h, n, from + 1);
    }
}

/// Spans of the occurrences of `n` in `h`, appended to `out`.
fn push_term_spans(out: &mut Vec<(usize, usize)>, h: &[char], n: &[char])
    ensures
        final(out)@ == old(out)@ + term_spans(h@, n@),
{
    let ghost start = out@;
    let nl = n.len();
    proof {
        assert(out@ + spans_at(match_starts(h@, n@, 0), n@.len() as int) == start + term_spans(h@, n@));
    }
    if nl == 0 {
        let mut p: usize = 0;
        let hl = h.len();
        loop
            invariant
                p <= hl == h@.len(),
                nl == n@.len() == 0,
                start == old(out)@,
                out@ + spans_at(match_starts(h@, n@, p as int), n@.len() as int) == start + term_spans(h@, n@),
            decreases hl - p,
        {
            let ghost before = out@;
            proof {
                assert(match_starts(h@, n@, p as int) =~= seq![p as int] + match_starts(
                    h@,
                    n@,
                    p + 1,
                ));
                lemma_spans_at_cons(p as int, match_starts(h@, n@, p + 1), n@.len() as int);
                assert(before + spans_at(match_starts(h@, n@, p as int), n@.len() as int) =~= before.push((p, p)) + spans_at(match_starts(h@, n@, p + 1), n@.len() as int));
            }
            out.push((p, p));
            if p == hl {
                proof {
                    assert(match_starts(h@, n@, p + 1) =~= Seq::<int>::empty());
                    lemma_spans_at_cons(0, Seq::<int>::empty(), 0);
                    assert(out@ + spans_at(Seq::<int>::empty(), n@.len() as int) =~= out@);
                }
                return;
            }
            p += 1;
        }
    }
    let mut pos: usize = 0;
    let hl = h.len();
    loop
        invariant
            hl == h@.len(),
            nl == n@.len() > 0,
            start == old(out)@,
            pos <= h@.len(),
            out@ + spans_at(match_starts(h@, n@, pos as int), n@.len() as int) == start + term_spans(h@, n@),
        decreases h@.len() + 1 - pos,
    {
        match find_from(h, n, pos) {
            None => {
                proof {
                    lemma_match_starts_none(h@, n@, pos as int);
                    lemma_spans_at_cons(0, Seq::<int>::empty(), n@.len() as int);
                    assert(out@ + spans_at(Seq::<int>::empty(), n@.len() as int) =~= out@);
                }
                return;
            },
            Some(k) => {
                proof {
                    lemma_match_starts_skip(h@, n@, pos as int, k as int);
                    assert(match_starts(h@, n@, k as int) =~= seq![k as int] + match_starts(
                        h@,
                        n@,
                        k + n@.len(),
                    ));
                    lemma_spans_at_cons(k as int, match_starts(h@, n@, k + n@.len()), n@.len() as int);
                    assert(out@ + spans_at(match_starts(h@, n@, k as int), n@.len() as int) =~= out@.push((k, (k + nl) as usize)) + spans_at(match_starts(h@, n@, k + n@.len()), n@.len() as int));
                }
                out.push((k, k + nl));
                pos = k + nl;
            },
        }
    }
}

/// Whether `a` sorts strictly before `b`.
fn span_lt(a: (usize, usize), b: (usize, usize)) -> (r: bool)
    ensures
        r == !span_le(b, a),
{
    a.0 < b.0 || (a.0 == b.0 && a.1 < b.1)
}

/// `v` sorted by (start, end); equal spans keep their order.
pub fn sort_spans(v: &Vec<(usize, usize)>) -> (r: Vec<(usize, usize)>)
    ensures
        is_sorted_permutation(r@, v@),
{
    let mut out: Vec<(usize, usize)> = Vec::new();
    let mut i: usize = 0;
    while i < v.len()
        invariant
            i <= v@.len(),
            spans_sorted(out@),
            out@.to_multiset() == v@.take(i as int).to_multiset(),
        decreases v@.len() - i,
    {
        let x = v[i];
        let mut j: usize = 0;
        while j < out.len() && !span_lt(x, out[j])
            invariant
                j <= out@.len(),
                forall|k: int| 0 <= k < j ==> span_le(#[trigger] out@[k], x),
            decreases out@.len() - j,
        {
            j += 1;
        }
        let ghost old_out = out@;
        out.insert(j, x);
        proof {
            assert(v@.take(i + 1) =~= v@.take(i as int).push(x));
            assert forall|a: int, b: int| 0 <= a < b < out@.len() implies span_le(
                #[trigger] out@[a],
                #[trigger] out@[b],
            ) by {
                if j < old_out.len() {
                    assert(span_le(x, old_out[j as int]));
                }
                if b < j {
                    assert(out@[a] == old_out[a] && out@[b] == old_out[b]);
                } else if b == j {
                    assert(out@[a] == old_out[a]);
                } else if a == j {
                    assert(out@[b] == old_out[b - 1]);
                    assert(span_le(old_out[j as int], old_out[b - 1]) || b - 1 == j);
                } else if a < j {
                    assert(out@[a] == old_out[a] && out@[b] == old_out[b - 1]);
                } else {
                    assert(out@[a] == old_out[a - 1] && out@[b] == old_out[b - 1]);
                }
            }
        }
        i += 1;
    }
    proof {
        assert(v@.take(v@.len() as int) =~= v@);
    }
    out
}

/// Merges sorted spans as `merge_spans` describes.
pub fn merge_sorted_spans(s: &Vec<(usize, usize)>) -> (r: Vec<(usize, usize)>)
    ensures
        r@ == merge_spans(s@),
{
    let mut out: Vec<(usize, usize)> = Vec::new();
    let mut i: usize = 0;
    while i < s.len()
        invariant
            i <= s@.len(),
            out@ == merge_spans(s@.take(i as int)),
        decreases s@.len() - i,
    {
        let x = s[i];
        proof {
            assert(s@.take(i + 1).drop_last() =~= s@.take(i as int));
        }
        let n = out.len();
        if n > 0 && x.0 <= out[n - 1].1 {
            let last = out[n - 1];
            let end = if last.1 >= x.1 { last.1 } else { x.1 };
            out.set(n - 1, (last.0, end));
            proof {
                assert(out@ =~= merge_spans(s@.take(i as int)).drop_last().push((last.0, end)));
            }
        } else {
            out.push(x);
        }
        i += 1;
    }
    proof {
        assert(s@.take(s@.len() as int) =~= s@);
    }
    out
}

/// Merged highlight spans (character positions in the lowercase text) of
/// every term found in `text`.
pub fn highlight_span_pairs(text: &[char], terms: &Vec<Vec<char>>) -> (r: Vec<(usize, usize)>)
    ensures
        highlight_of(text@, char_views(terms@), r@),
{
    let ghost tv = char_views(terms@);
    let lower = lower_chars(text);
    let mut all: Vec<(usize, usize)> = Vec::new();
    let mut i: usize = 0;
    while i < terms.len()
        invariant
            i <= terms@.len(),
            tv == char_views(terms@),
            lower@ == lowercase(text@),
            all@ == all_term_spans(lower@, tv.take(i as int)),
        decreases terms@.len() - i,
    {
        proof {
            assert(tv.take(i + 1).drop_last() =~= tv.take(i as int));
            assert(tv.take(i + 1).last() == terms@[i as int]@);
        }
        let needle = trim_chars(terms[i].as_slice());
        if needle.len() > 0 {
            let nl = lower_chars(needle.as_slice());
            push_term_spans(&mut all, lower.as_slice(), nl.as_slice());
        } else {
            proof {
                assert(all@ + Seq::<(usize, usize)>::empty() =~= all@);
            }
        }
        i += 1;
    }
    proof {
        assert(tv.take(terms@.len() as int) =~= tv);
    }
    let sorted = sort_spans(&all);
    let merged = merge_sorted_spans(&sorted);
    proof {
        assert(is_sorted_permutation(sorted@, all_term_spans(lowercase(text@), tv)));
    }
    merged
}

/// The (start, end) pairs of `r`.
pub open spec fn span_pairs(r: Seq<HighlightSpan>) -> Seq<(usize, usize)> {
    r.map_values(|h: HighlightSpan| (h.start, h.end))
}

/// The spans as `HighlightSpan` values.
pub fn to_highlight_spans(s: &Vec<(usize, usize)>) -> (r: Vec<HighlightSpan>)
    ensures
        span_pairs(r@) == s@,
{
    let mut out: Vec<HighlightSpan> = Vec::new();
    let mut i: usize = 0;
    while i < s.len()
        invariant
            i <= s@.len(),
            out@.len() == i,
            forall|k: int| 0 <= k < i ==> (#[trigger] out@[k]).start == s@[k].0 && out@[k].end == s@[k].1,
        decreases s@.len() - i,
    {
        out.push(HighlightSpan { start: s[i].0, end: s[i].1 });
        i += 1;
    }
    proof {
        assert(span_pairs(out@) =~= s@);
    }
    out
}

/// Merged highlight spans of the query terms inside `text`: each occurrence
/// of a trimmed term in the lowercase text, sorted, with overlapping or
/// touching spans merged.
pub fn highlight_spans(text: &str, terms: &[String]) -> (r: Vec<HighlightSpan>)
    ensures
        highlight_of(text@, string_views(terms@), span_pairs(r@)),
{
    let cs = chars_of(text);
    let tv = crate::search::char_vecs_of(terms);
    let pairs = highlight_span_pairs(cs.as_slice(), &tv);
    to_highlight_spans(&pairs)
}

} // verus!
