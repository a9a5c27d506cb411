//! Search-result presentation and ranking decisions: term matching, snippet
//! windows, rank-reason labels and the merge of keyword and semantic hits.
use vstd::prelude::*;
use crate::highlight::{
    all_term_spans, highlight_of, highlight_span_pairs, is_sorted_permutation, merge_spans,
    span_pairs, to_highlight_spans, HighlightSpan,
};
use crate::search::char_vecs_of;
use crate::text::{string_views, char_views, 
    append_chars, append_str, chars_of, contains, contains_chars, copy_range, decimal,
    decimal_chars, join, join_chars, lower_chars, lowercase, string_of, trim, trim_chars,
};

verus! {

broadcast use vstd::seq_lib::group_to_multiset_ensures;

// ---------------------------------------------------------------------------
// Term matching
// ---------------------------------------------------------------------------

/// A term as it is compared: trimmed, then lowercased.
pub open spec fn usable_term(t: Seq<char>) -> Seq<char> {
    lowercase(trim(t))
}

/// Every usable term occurs in `lower`, and there is at least one usable
/// (non-empty) term.
pub open spec fn all_in(lower: Seq<char>, terms: Seq<Seq<char>>) -> bool {
    &&& exists|i: int| 0 <= i < terms.len() && #[trigger] usable_term(terms[i]).len() > 0
    &&& forall|i: int|
        0 <= i < terms.len() && #[trigger] usable_term(terms[i]).len() > 0 ==> contains(
            lower,
            usable_term(terms[i]),
        )
}

/// Some usable term occurs in `lower`.
pub open spec fn any_in(lower: Seq<char>, terms: Seq<Seq<char>>) -> bool {
    exists|i: int|
        0 <= i < terms.len() && #[trigger] usable_term(terms[i]).len() > 0 && contains(
            lower,
            usable_term(terms[i]),
        )
}

/// Every usable term occurs in the lowercase text, and some term is usable.
pub open spec fn contains_all(text: Seq<char>, terms: Seq<Seq<char>>) -> bool {
    all_in(lowercase(text), terms)
}

/// Some usable term occurs in the lowercase text.
pub open spec fn contains_any(text: Seq<char>, terms: Seq<Seq<char>>) -> bool {
    any_in(lowercase(text), terms)
}

fn check_terms(lower: &[char], terms: &Vec<Vec<char>>, all: bool) -> (r: bool)
    ensures
        all ==> r == all_in(lower@, char_views(terms@)),
        !all ==> r == any_in(lower@, char_views(terms@)),
{
    let ghost tv = char_views(terms@);
    let mut any_usable = false;
    let mut i: usize = 0;
    while i < terms.len()
        invariant
            i <= terms@.len(),
            tv == char_views(terms@),
            any_usable == exists|k: int| 0 <= k < i && #[trigger] usable_term(tv[k]).len() > 0,
            all ==> forall|k: int| 0 <= k < i && #[trigger] usable_term(tv[k]).len() > 0
                ==> contains(lower@, usable_term(tv[k])),
            !all ==> forall|k: int| 0 <= k < i && #[trigger] usable_term(tv[k]).len() > 0
                ==> !contains(lower@, usable_term(tv[k])),
        decreases terms@.len() - i,
    {
        let t = trim_chars(terms[i].as_slice());
        let lt = lower_chars(t.as_slice());
        proof {
            assert(tv[i as int] == terms@[i as int]@);
            assert(lt@ == usable_term(tv[i as int]));
        }
        if lt.len() > 0 {
            any_usable = true;
            let found = contains_chars(lower, lt.as_slice());
            if all && !found {
                proof {
                    assert(usable_term(tv[i as int]).len() > 0);
                }
                return false;
            }
            if !all && found {
                proof {
                    assert(usable_term(tv[i as int]).len() > 0);
                }
                return true;
            }
        }
        i += 1;
        proof {
            if any_usable {
                if !(exists|k: int| 0 <= k < i - 1 && #[trigger] usable_term(tv[k]).len() > 0) {
                    assert(usable_term(tv[i - 1]).len() > 0);
                }
            }
        }
    }
    if all {
        any_usable
    } else {
        false
    }
}

/// `contains_all_terms`: every non-empty term occurs in `text` (case
/// insensitively), and some term is non-empty.
pub fn contains_all_terms(text: &str, terms: &[String]) -> (r: bool)
    ensures
        r == contains_all(text@, string_views(terms@)),
{
    let lower = lower_chars(chars_of(text).as_slice());
    let tv = char_vecs_of(terms);
    check_terms(lower.as_slice(), &tv, true)
}

/// `contains_any_term`: some non-empty term occurs in `text` (case insensitively).
pub fn contains_any_term(text: &str, terms: &[String]) -> (r: bool)
    ensures
        r == contains_any(text@, string_views(terms@)),
{
    let lower = lower_chars(chars_of(text).as_slice());
    let tv = char_vecs_of(terms);
    check_terms(lower.as_slice(), &tv, false)
}

/// How well a title-like field matches the terms: 2 when it holds all terms,
/// 1 when it holds some, 0 otherwise or when the field is blank.
pub open spec fn match_tier(text: Seq<char>, terms: Seq<Seq<char>>) -> u8 {
    if trim(text).len() == 0 {
        0
    } else if contains_all(text, terms) {
        2
    } else if contains_any(text, terms) {
        1
    } else {
        0
    }
}

/// The tier of `text` for the title and file-name scores.
pub fn term_match_tier(text: &str, terms: &[String]) -> (r: u8)
    ensures
        r == match_tier(text@, string_views(terms@)),
{
    let t = trim_chars(chars_of(text).as_slice());
    if t.len() == 0 {
        0
    } else if contains_all_terms(text, terms) {
        2
    } else if contains_any_term(text, terms) {
        1
    } else {
        0
    }
}

// ---------------------------------------------------------------------------
// Matched field
// ---------------------------------------------------------------------------

/// Some term gives a highlight span in `text`.
pub open spec fn has_hits(text: Seq<char>, terms: Seq<Seq<char>>) -> bool {
    all_term_spans(lowercase(text), terms).len() > 0
}

pub proof fn lemma_merge_nonempty(s: Seq<(usize, usize)>)
    ensures
        merge_spans(s).len() > 0 <==> s.len() > 0,
    decreases s.len(),
{
    if s.len() > 0 {
        lemma_merge_nonempty(s.drop_last());
    }
}

fn hits_in(text: &str, terms: &Vec<Vec<char>>) -> (r: bool)
    ensures
        r == has_hits(text@, char_views(terms@)),
{
    let pairs = highlight_span_pairs(chars_of(text).as_slice(), terms);
    proof {
        let tv = char_views(terms@);
        let all = all_term_spans(lowercase(text@), tv);
        assert(highlight_of(text@, tv, pairs@));
        let p = choose|p: Seq<(usize, usize)>| #[trigger] is_sorted_permutation(p, all) && pairs@ == merge_spans(p);
        lemma_merge_nonempty(p);
        assert(p.to_multiset().len() == p.len());
        assert(all.to_multiset().len() == all.len());
    }
    pairs.len() > 0
}

/// The field a keyword hit is attributed to, and its label: the first of
/// snippet, heading, file name and path that contains a term.
pub open spec fn matched_field(
    snippet: Seq<char>,
    heading: Seq<char>,
    file_name: Seq<char>,
    path: Seq<char>,
    terms: Seq<Seq<char>>,
) -> (Seq<char>, Seq<char>) {
    if has_hits(snippet, terms) {
        ("snippet"@, "正文摘要命中"@)
    } else if has_hits(heading, terms) {
        ("heading"@, "标题命中"@)
    } else if has_hits(file_name, terms) {
        ("filename"@, "文件名命中"@)
    } else if has_hits(path, terms) {
        ("path"@, "路径命中"@)
    } else {
        ("snippet"@, "正文摘要命中"@)
    }
}

/// `matched_field_and_origin`: which field of a hit holds the terms.
pub fn matched_field_and_origin(
    snippet: &str,
    heading: &str,
    file_name: &str,
    path: &str,
    terms: &[String],
) -> (r: (String, String))
    ensures
        (r.0@, r.1@) == matched_field(snippet@, heading@, file_name@, path@, string_views(terms@)),
{
    let tv = char_vecs_of(terms);
    if hits_in(snippet, &tv) {
        ("snippet".to_owned(), "正文摘要命中".to_owned())
    } else if hits_in(heading, &tv) {
        ("heading".to_owned(), "标题命中".to_owned())
    } else if hits_in(file_name, &tv) {
        ("filename".to_owned(), "文件名命中".to_owned())
    } else if hits_in(path, &tv) {
        ("path".to_owned(), "路径命中".to_owned())
    } else {
        ("snippet".to_owned(), "正文摘要命中".to_owned())
    }
}


// ---------------------------------------------------------------------------
// Snippets
// ---------------------------------------------------------------------------

/// `text` cut to `limit` characters, with an ellipsis when something was cut.
pub open spec fn truncated(text: Seq<char>, limit: nat) -> Seq<char> {
    if text.len() <= limit {
        text
    } else {
        text.take(limit as int).push('…')
    }
}

/// Characters `start .. end` of `text`, clipped to its length.
pub open spec fn char_slice(text: Seq<char>, start: int, end: int) -> Seq<char> {
    if end <= start || start >= text.len() {
        Seq::empty()
    } else {
        text.subrange(start, if end <= text.len() { end } else { text.len() as int })
    }
}

fn truncate_chars(text: &[char], limit: usize) -> (r: Vec<char>)
    ensures
        r@ == truncated(text@, limit as nat),
{
    if text.len() <= limit {
        copy_range(text, 0, text.len())
    } else {
        let mut v = copy_range(text, 0, limit);
        v.push('…');
        v
    }
}

/// `truncate_by_chars`: at most `limit` characters, then an ellipsis if cut.
pub fn truncate_by_chars(text: &str, limit: usize) -> (r: String)
    ensures
        r@ == truncated(text@, limit as nat),
{
    let cs = chars_of(text);
    let t = truncate_chars(cs.as_slice(), limit);
    string_of(t.as_slice())
}

fn slice_range(text: &[char], start: usize, end: usize) -> (r: Vec<char>)
    ensures
        r@ == char_slice(text@, start as int, end as int),
{
    if end <= start || start >= text.len() {
        Vec::new()
    } else {
        let e = if end <= text.len() { end } else { text.len() };
        copy_range(text, start, e)
    }
}

/// `slice_chars`: the characters at positions `start .. end`.
pub fn slice_chars(text: &str, start: usize, end: usize) -> (r: String)
    ensures
        r@ == char_slice(text@, start as int, end as int),
{
    let cs = chars_of(text);
    let t = slice_range(cs.as_slice(), start, end);
    string_of(t.as_slice())
}

/// `a - b`, or 0 when `b > a`.
pub open spec fn sat_sub(a: int, b: int) -> int {
    if a >= b {
        a - b
    } else {
        0
    }
}

/// `a + b` capped at `usize::MAX`.
pub open spec fn sat_add(a: int, b: int) -> int {
    if a + b > usize::MAX {
        usize::MAX as int
    } else {
        a + b
    }
}

/// First cut of the snippet window for a text of `total` characters whose
/// hits run from `focus_start` to `focus_end`: two fifths of the budget
/// before the first hit, the rest after the last one. Gives (start, end, budget).
pub open spec fn window_first(focus_start: int, focus_end: int, max_chars: int, total: int) -> (int, int, int) {
    let target = if max_chars <= total { max_chars } else { total };
    let before = (if target > usize::MAX as int / 2 { usize::MAX as int } else { 2 * target }) / 5;
    let after = target - before;
    let start0 = sat_sub(focus_start, before);
    let end0 = if sat_add(focus_end, after) <= total { sat_add(focus_end, after) } else { total };
    (start0, end0, target)
}

/// A window shorter than the budget padded evenly on both sides, then any
/// window longer than the budget cut to it.
pub open spec fn window_pad(start0: int, end0: int, target: int, total: int) -> (int, int) {
    let short = sat_sub(end0, start0) < target;
    let shortfall = target - sat_sub(end0, start0);
    let left_pad = shortfall / 2;
    let right_pad = shortfall - left_pad;
    let start1 = if short { sat_sub(start0, left_pad) } else { start0 };
    let end1 = if short {
        if sat_add(end0, right_pad) <= total { sat_add(end0, right_pad) } else { total }
    } else {
        end0
    };
    let end2 = if sat_sub(end1, start1) > target { start1 + target } else { end1 };
    (start1, end2)
}

/// The snippet window `(start, end)` (see `window_first` and `window_pad`).
pub open spec fn snippet_window(focus_start: int, focus_end: int, max_chars: int, total: int) -> (int, int) {
    let f = window_first(focus_start, focus_end, max_chars, total);
    window_pad(f.0, f.1, f.2, total)
}

/// The spans clipped to the window and shifted to snippet positions.
pub open spec fn shifted_spans(spans: Seq<(usize, usize)>, start: int, end: int, offset: int) -> Seq<(usize, usize)>
    decreases spans.len(),
{
    if spans.len() == 0 {
        Seq::empty()
    } else {
        let rest = shifted_spans(spans.drop_last(), start, end, offset);
        let sp = spans.last();
        let a = if sp.0 >= start { sp.0 as int } else { start };
        let b = if sp.1 <= end { sp.1 as int } else { end };
        if b <= a {
            rest
        } else {
            rest.push(((a - start + offset) as usize, (b - start + offset) as usize))
        }
    }
}

/// What `build_search_snippet` returns for a text whose trimmed form is `t`
/// and whose merged highlight spans are `spans`.
pub open spec fn snippet_of(t: Seq<char>, spans: Seq<(usize, usize)>, max_chars: int)
    -> (Seq<char>, Seq<(usize, usize)>, int, int, int) {
    let total = t.len() as int;
    if total == 0 {
        (Seq::empty(), Seq::empty(), 0, 0, 0)
    } else if spans.len() == 0 {
        (truncated(t, max_chars as nat), Seq::empty(), 0, if total <= max_chars { total } else { max_chars }, total)
    } else if total <= max_chars {
        (t, spans, 0, total, total)
    } else {
        let w = snippet_window(spans[0].0 as int, spans.last().1 as int, max_chars, total);
        let body = char_slice(t, w.0, w.1);
        let lead = w.0 > 0;
        let trail = w.1 < total;
        let text = if lead { seq!['…'] + body } else { body };
        let text2 = if trail { text.push('…') } else { text };
        (text2, shifted_spans(spans, w.0, w.1, if lead { 1 } else { 0 }), w.0, w.1, total)
    }
}

proof fn lemma_window_inside(focus_start: int, focus_end: int, max_chars: int, total: int)
    requires
        0 <= focus_start <= focus_end <= total <= usize::MAX,
        0 <= max_chars < total,
    ensures
        0 <= snippet_window(focus_start, focus_end, max_chars, total).0,
        snippet_window(focus_start, focus_end, max_chars, total).0 <= snippet_window(focus_start, focus_end, max_chars, total).1,
        snippet_window(focus_start, focus_end, max_chars, total).1 <= total,
{
    let f = window_first(focus_start, focus_end, max_chars, total);
    let target = max_chars;
    let doubled = if target > usize::MAX as int / 2 { usize::MAX as int } else { 2 * target };
    assert(doubled / 5 <= target) by (nonlinear_arith)
        requires
            doubled <= 2 * target || (doubled == usize::MAX as int && target > usize::MAX as int / 2),
            0 <= target,
    ;
    assert(0 <= f.0 <= focus_start);
    assert(focus_end <= f.1 <= total);
}

/// The snippet stays inside the text and its highlights inside the
/// snippet: the window satisfies `0 <= start <= end <= total`, and every
/// highlight span of the snippet is non-empty and ends within the snippet's
/// characters (for well-formed hits: non-empty spans inside the text, the
/// first starting no later than the last ends).
pub proof fn law_snippet_highlights_inside(t: Seq<char>, spans: Seq<(usize, usize)>, max_chars: usize)
    requires
        t.len() <= usize::MAX,
        forall|i: int| 0 <= i < spans.len() ==> (#[trigger] spans[i]).0 < spans[i].1 && spans[i].1 <= t.len(),
        spans.len() > 0 ==> spans[0].0 <= spans.last().1,
    ensures
        ({
            let r = snippet_of(t, spans, max_chars as int);
            &&& 0 <= r.2 <= r.3 <= r.4 == t.len()
            &&& forall|i: int| 0 <= i < r.1.len() ==> (#[trigger] r.1[i]).0 < r.1[i].1 && r.1[i].1 <= r.0.len()
        }),
{
    let total = t.len() as int;
    let r = snippet_of(t, spans, max_chars as int);
    if total > 0 && spans.len() > 0 && total > max_chars {
        let fs = spans[0].0 as int;
        let fe = spans.last().1 as int;
        assert(spans.last() == spans[spans.len() - 1]);
        lemma_window_inside(fs, fe, max_chars as int, total);
        let w = snippet_window(fs, fe, max_chars as int, total);
        let lead = w.0 > 0;
        let off: int = if lead { 1 } else { 0 };
        let body = char_slice(t, w.0, w.1);
        assert(body.len() == w.1 - w.0);
        lemma_shifted_inside(spans, w.0, w.1, off);
    }
}

proof fn lemma_shifted_inside(spans: Seq<(usize, usize)>, start: int, end: int, offset: int)
    requires
        0 <= start <= end <= usize::MAX,
        0 <= offset <= 1,
        offset == 1 ==> start >= 1,
    ensures
        forall|i: int| 0 <= i < shifted_spans(spans, start, end, offset).len() ==> offset <= (#[trigger] shifted_spans(spans, start, end, offset)[i]).0
            && shifted_spans(spans, start, end, offset)[i].0 < shifted_spans(spans, start, end, offset)[i].1
            && shifted_spans(spans, start, end, offset)[i].1 <= end - start + offset,
    decreases spans.len(),
{
    if spans.len() > 0 {
        lemma_shifted_inside(spans.drop_last(), start, end, offset);
        let rest = shifted_spans(spans.drop_last(), start, end, offset);
        let sp = spans.last();
        let a = if sp.0 >= start { sp.0 as int } else { start };
        let b = if sp.1 <= end { sp.1 as int } else { end };
        if b > a {
            let x = a - start + offset;
            let y = b - start + offset;
            assert(0 <= x < y <= usize::MAX);
            assert(x as usize as int == x);
            assert(y as usize as int == y);
            let n = rest.push((x as usize, y as usize));
            assert(shifted_spans(spans, start, end, offset) == n);
            assert forall|i: int| 0 <= i < n.len() implies offset <= (#[trigger] n[i]).0 && n[i].0 < n[i].1
                && n[i].1 <= end - start + offset by {
                if i < rest.len() {
                    assert(n[i] == rest[i]);
                }
            }
        }
    }
}

fn window_start(focus_start: usize, focus_end: usize, max_chars: usize, total: usize) -> (r: (usize, usize, usize))
    ensures
        (r.0 as int, r.1 as int, r.2 as int) == window_first(focus_start as int, focus_end as int, max_chars as int, total as int),
        r.2 <= total,
{
    let target = if max_chars <= total { max_chars } else { total };
    let doubled = if target > usize::MAX / 2 { usize::MAX } else { 2 * target };
    let before = doubled / 5;
    assert(before <= target) by (nonlinear_arith)
        requires
            before == doubled / 5,
            doubled <= 2 * target || doubled == usize::MAX && target > usize::MAX / 2,
    ;
    let after = target - before;
    let start0 = focus_start.saturating_sub(before);
    let fe = focus_end.saturating_add(after);
    let end0 = if fe <= total { fe } else { total };
    (start0, end0, target)
}

fn window_padded(start0: usize, end0: usize, target: usize, total: usize) -> (r: (usize, usize))
    requires
        target <= total,
    ensures
        (r.0 as int, r.1 as int) == window_pad(start0 as int, end0 as int, target as int, total as int),
{
    let mut start = start0;
    let mut end = end0;
    if end0.saturating_sub(start0) < target {
        let shortfall = target - end0.saturating_sub(start0);
        let left_pad = shortfall / 2;
        let right_pad = shortfall - left_pad;
        start = start0.saturating_sub(left_pad);
        let e2 = end0.saturating_add(right_pad);
        end = if e2 <= total { e2 } else { total };
    }
    if end.saturating_sub(start) > target {
        end = start + target;
    }
    (start, end)
}

fn window_bounds(focus_start: usize, focus_end: usize, max_chars: usize, total: usize) -> (r: (usize, usize))
    ensures
        (r.0 as int, r.1 as int) == snippet_window(focus_start as int, focus_end as int, max_chars as int, total as int),
{
    let (s0, e0, t) = window_start(focus_start, focus_end, max_chars, total);
    window_padded(s0, e0, t, total)
}

fn shift_spans(spans: &Vec<(usize, usize)>, start: usize, end: usize, offset: usize) -> (r: Vec<(usize, usize)>)
    requires
        offset <= 1,
        offset == 1 ==> start >= 1,
    ensures
        r@ == shifted_spans(spans@, start as int, end as int, offset as int),
{
    let mut adjusted: Vec<(usize, usize)> = Vec::new();
    let mut i: usize = 0;
    while i < spans.len()
        invariant
            i <= spans@.len(),
            offset <= 1,
            offset == 1 ==> start >= 1,
            adjusted@ == shifted_spans(spans@.take(i as int), start as int, end as int, offset as int),
        decreases spans@.len() - i,
    {
        let sp = spans[i];
        proof {
            assert(spans@.take(i + 1).drop_last() =~= spans@.take(i as int));
        }
        let a = if sp.0 >= start { sp.0 } else { start };
        let b = if sp.1 <= end { sp.1 } else { end };
        if b > a {
            adjusted.push((a - start + offset, b - start + offset));
        }
        i += 1;
    }
    proof {
        assert(spans@.take(spans@.len() as int) =~= spans@);
    }
    adjusted
}

/// The snippet window text, its highlight spans, the window bounds and the
/// length of the trimmed source text (see `snippet_of`).
pub fn build_search_snippet(text: &str, terms: &[String], max_chars: usize) -> (r: (
    String,
    Vec<HighlightSpan>,
    usize,
    usize,
    usize,
))
    ensures
        exists|spans: Seq<(usize, usize)>|
            #[trigger] highlight_of(trim(text@), string_views(terms@), spans) && (
            r.0@,
            span_pairs(r.1@),
            r.2 as int,
            r.3 as int,
            r.4 as int,
        ) == snippet_of(trim(text@), spans, max_chars as int),
{
    let cs = chars_of(text);
    let t = trim_chars(cs.as_slice());
    let tv = char_vecs_of(terms);
    let spans = highlight_span_pairs(t.as_slice(), &tv);
    let total = t.len();
    if total == 0 {
        proof {
            assert(span_pairs(Seq::<HighlightSpan>::empty()) =~= Seq::<(usize, usize)>::empty());
        }
        return (String::new(), Vec::new(), 0, 0, 0);
    }
    if spans.len() == 0 {
        let snippet = truncate_chars(t.as_slice(), max_chars);
        let end = if total <= max_chars { total } else { max_chars };
        proof {
            assert(span_pairs(Seq::<HighlightSpan>::empty()) =~= Seq::<(usize, usize)>::empty());
        }
        return (string_of(snippet.as_slice()), Vec::new(), 0, end, total);
    }
    if total <= max_chars {
        return (string_of(t.as_slice()), to_highlight_spans(&spans), 0, total, total);
    }
    let focus_start = spans[0].0;
    let focus_end = spans[spans.len() - 1].1;
    let (start, end) = window_bounds(focus_start, focus_end, max_chars, total);
    let lead = start > 0;
    let trail = end < total;
    let body = slice_range(t.as_slice(), start, end);
    let mut out: Vec<char> = Vec::new();
    if lead {
        out.push('…');
    }
    append_chars(&mut out, body.as_slice());
    if trail {
        out.push('…');
    }
    proof {
        assert(out@ =~= snippet_of(t@, spans@, max_chars as int).0);
    }
    let offset: usize = if lead { 1 } else { 0 };
    let adjusted = shift_spans(&spans, start, end, offset);
    (string_of(out.as_slice()), to_highlight_spans(&adjusted), start, end, total)
}


// ---------------------------------------------------------------------------
// Rank reasons
// ---------------------------------------------------------------------------

/// Entries of `parts` in order, without blank entries and repeats.
pub open spec fn dedupe(parts: Seq<Seq<char>>) -> Seq<Seq<char>>
    decreases parts.len(),
{
    if parts.len() == 0 {
        Seq::empty()
    } else {
        let d = dedupe(parts.drop_last());
        let x = parts.last();
        if trim(x).len() == 0 || d.contains(x) {
            d
        } else {
            d.push(x)
        }
    }
}

pub proof fn lemma_dedupe_clean(parts: Seq<Seq<char>>)
    ensures
        forall|i: int, j: int| 0 <= i < j < dedupe(parts).len() ==> dedupe(parts)[i] != dedupe(parts)[j],
        forall|i: int| 0 <= i < dedupe(parts).len() ==> trim(#[trigger] dedupe(parts)[i]).len() > 0,
        forall|i: int| 0 <= i < dedupe(parts).len() ==> parts.contains(#[trigger] dedupe(parts)[i]),
    decreases parts.len(),
{
    if parts.len() > 0 {
        lemma_dedupe_clean(parts.drop_last());
        let d = dedupe(parts.drop_last());
        assert forall|i: int| 0 <= i < dedupe(parts).len() implies parts.contains(#[trigger] dedupe(parts)[i]) by {
            if i < d.len() {
                let k = choose|k: int| 0 <= k < parts.drop_last().len() && parts.drop_last()[k] == d[i];
                assert(parts[k] == d[i]);
            } else {
                assert(parts[parts.len() - 1] == dedupe(parts)[i]);
            }
        }
    }
}

/// `dedupe_reason_parts`: drops blank parts and repeats, keeping first occurrences.
pub fn dedupe_reason_parts(parts: Vec<String>) -> (r: Vec<String>)
    ensures
        string_views(r@) == dedupe(string_views(parts@)),
{
    let ghost pv = string_views(parts@);
    let mut out: Vec<String> = Vec::new();
    let mut i: usize = 0;
    while i < parts.len()
        invariant
            i <= parts@.len(),
            pv == string_views(parts@),
            string_views(out@) == dedupe(pv.take(i as int)),
        decreases parts@.len() - i,
    {
        proof {
            assert(pv.take(i + 1).drop_last() =~= pv.take(i as int));
            assert(pv.take(i + 1).last() == parts@[i as int]@);
        }
        let part = &parts[i];
        let t = trim_chars(chars_of(part.as_str()).as_slice());
        if t.len() > 0 {
            let mut seen = false;
            let mut k: usize = 0;
            while k < out.len()
                invariant
                    k <= out@.len(),
                    seen == exists|j: int| 0 <= j < k && out@[j]@ == part@,
                decreases out@.len() - k,
            {
                if out[k] == *part {
                    seen = true;
                }
                k += 1;
            }
            proof {
                let d = string_views(out@);
                if seen {
                    let j = choose|j: int| 0 <= j < out@.len() && out@[j]@ == part@;
                    assert(d[j] == part@);
                } else {
                    assert forall|j: int| 0 <= j < d.len() implies d[j] != part@ by {
                        assert(d[j] == out@[j]@);
                    }
                }
            }
            if !seen {
                out.push(part.clone());
                proof {
                    assert(string_views(out@) =~= dedupe(pv.take(i as int)).push(part@));
                }
            }
        }
        i += 1;
    }
    proof {
        assert(pv.take(parts@.len() as int) =~= pv);
    }
    out
}

/// The label for a file name, heading or path that holds every term.
pub open spec fn completeness_part(file_name: Seq<char>, heading: Seq<char>, path: Seq<char>, terms: Seq<Seq<char>>) -> Seq<Seq<char>> {
    if contains_all(file_name, terms) {
        seq!["文件名完整命中"@]
    } else if contains_all(heading, terms) {
        seq!["标题完整命中"@]
    } else if contains_all(path, terms) {
        seq!["路径完整命中"@]
    } else {
        Seq::empty()
    }
}

/// The label for how semantic search contributed.
pub open spec fn semantic_part(semantic_enabled: bool, keyword_hit: bool, semantic_hit: bool) -> Seq<Seq<char>> {
    if semantic_enabled && keyword_hit && semantic_hit {
        seq!["全文+语义共同命中"@]
    } else if semantic_enabled && semantic_hit {
        seq!["语义召回"@]
    } else {
        Seq::empty()
    }
}

/// The label for recent opens.
pub open spec fn recent_part(recent_open_count: nat) -> Seq<Seq<char>> {
    if recent_open_count >= 3 {
        seq!["最近打开 "@ + decimal(recent_open_count) + " 次"@]
    } else if recent_open_count > 0 {
        seq!["最近打开"@]
    } else {
        Seq::empty()
    }
}

/// `label` when `on`.
pub open spec fn flag_part(on: bool, label: Seq<char>) -> Seq<Seq<char>> {
    if on {
        seq![label]
    } else {
        Seq::empty()
    }
}

/// The reason labels of a hit before de-duplication.
pub open spec fn reason_parts(
    match_origin: Seq<char>,
    file_name: Seq<char>,
    heading: Seq<char>,
    path: Seq<char>,
    terms: Seq<Seq<char>>,
    semantic_enabled: bool,
    keyword_hit: bool,
    semantic_hit: bool,
    is_favorite: bool,
    recent_open_count: nat,
    history_expanded: bool,
    recently_updated: bool,
) -> Seq<Seq<char>> {
    seq![match_origin] + completeness_part(file_name, heading, path, terms) + semantic_part(
        semantic_enabled,
        keyword_hit,
        semantic_hit,
    ) + flag_part(is_favorite, "已收藏优先"@) + recent_part(recent_open_count) + flag_part(
        history_expanded,
        "历史扩展"@,
    ) + flag_part(recently_updated, "最近更新"@)
}

fn append_strings(out: &mut Vec<String>, chunk: Vec<String>)
    ensures
        string_views(final(out)@) == string_views(old(out)@) + string_views(chunk@),
{
    let ghost start = string_views(out@);
    let mut k: usize = 0;
    while k < chunk.len()
        invariant
            k <= chunk@.len(),
            string_views(out@) == start + string_views(chunk@).take(k as int),
        decreases chunk@.len() - k,
    {
        let ghost before = out@;
        out.push(chunk[k].clone());
        proof {
            assert(string_views(out@) =~= string_views(before).push(chunk@[k as int]@));
            assert(string_views(chunk@).take(k + 1) =~= string_views(chunk@).take(k as int).push(chunk@[k as int]@));
        }
        k += 1;
    }
    proof {
        assert(string_views(chunk@).take(chunk@.len() as int) =~= string_views(chunk@));
    }
}

fn one_label(on: bool, label: &str) -> (r: Vec<String>)
    ensures
        string_views(r@) == flag_part(on, label@),
{
    let mut out: Vec<String> = Vec::new();
    if on {
        out.push(label.to_owned());
    }
    proof {
        assert(string_views(out@) =~= flag_part(on, label@));
    }
    out
}

fn completeness_labels(file_name: &str, heading: &str, path: &str, terms: &[String]) -> (r: Vec<String>)
    ensures
        string_views(r@) == completeness_part(file_name@, heading@, path@, string_views(terms@)),
{
    if contains_all_terms(file_name, terms) {
        one_label(true, "文件名完整命中")
    } else if contains_all_terms(heading, terms) {
        one_label(true, "标题完整命中")
    } else if contains_all_terms(path, terms) {
        one_label(true, "路径完整命中")
    } else {
        one_label(false, "")
    }
}

fn semantic_labels(semantic_enabled: bool, keyword_hit: bool, semantic_hit: bool) -> (r: Vec<String>)
    ensures
        string_views(r@) == semantic_part(semantic_enabled, keyword_hit, semantic_hit),
{
    if semantic_enabled && keyword_hit && semantic_hit {
        one_label(true, "全文+语义共同命中")
    } else if semantic_enabled && semantic_hit {
        one_label(true, "语义召回")
    } else {
        one_label(false, "")
    }
}

fn recent_labels(recent_open_count: usize) -> (r: Vec<String>)
    ensures
        string_views(r@) == recent_part(recent_open_count as nat),
{
    if recent_open_count >= 3 {
        let mut label: Vec<char> = Vec::new();
        append_str(&mut label, "最近打开 ");
        append_chars(&mut label, decimal_chars(recent_open_count as u64).as_slice());
        append_str(&mut label, " 次");
        let ls = string_of(label.as_slice());
        one_label(true, ls.as_str())
    } else if recent_open_count > 0 {
        one_label(true, "最近打开")
    } else {
        one_label(false, "")
    }
}

fn reason_part_list(
    match_origin: &str,
    file_name: &str,
    heading: &str,
    path: &str,
    terms: &[String],
    semantic_enabled: bool,
    keyword_hit: bool,
    semantic_hit: bool,
    is_favorite: bool,
    recent_open_count: usize,
    history_expanded: bool,
    recently_updated: bool,
) -> (r: Vec<String>)
    ensures
        string_views(r@) == reason_parts(match_origin@, file_name@, heading@, path@,
            string_views(terms@), semantic_enabled, keyword_hit, semantic_hit, is_favorite,
            recent_open_count as nat, history_expanded, recently_updated),
{
    let mut parts: Vec<String> = one_label(true, match_origin);
    append_strings(&mut parts, completeness_labels(file_name, heading, path, terms));
    append_strings(&mut parts, semantic_labels(semantic_enabled, keyword_hit, semantic_hit));
    append_strings(&mut parts, one_label(is_favorite, "已收藏优先"));
    append_strings(&mut parts, recent_labels(recent_open_count));
    append_strings(&mut parts, one_label(history_expanded, "历史扩展"));
    append_strings(&mut parts, one_label(recently_updated, "最近更新"));
    parts
}

/// The labels explaining why a hit ranks where it does (the `boosts` of
/// `search_rank_reason`) and their summary joined with " · ".
/// `recently_updated` says whether the document changed within the last 30 days.
pub fn rank_reason_labels(
    match_origin: &str,
    file_name: &str,
    heading: &str,
    path: &str,
    terms: &[String],
    semantic_enabled: bool,
    keyword_hit: bool,
    semantic_hit: bool,
    is_favorite: bool,
    recent_open_count: usize,
    history_expanded: bool,
    recently_updated: bool,
) -> (r: (Vec<String>, String))
    ensures
        string_views(r.0@) == dedupe(reason_parts(match_origin@, file_name@, heading@, path@,
            string_views(terms@), semantic_enabled, keyword_hit, semantic_hit, is_favorite,
            recent_open_count as nat, history_expanded, recently_updated)),
        r.1@ == join(string_views(r.0@), " · "@),
{
    let parts = reason_part_list(match_origin, file_name, heading, path, terms, semantic_enabled,
        keyword_hit, semantic_hit, is_favorite, recent_open_count, history_expanded, recently_updated);
    let boosts = dedupe_reason_parts(parts);
    let bv = char_vecs_of(boosts.as_slice());
    let sep = chars_of(" · ");
    let summary = join_chars(&bv, sep.as_slice());
    (boosts, string_of(summary.as_slice()))
}

/// Decimal digits of an optional number, or nothing.
pub open spec fn opt_decimal(v: Option<u32>) -> Seq<char> {
    match v {
        Some(n) => decimal(n as nat),
        None => Seq::empty(),
    }
}

/// The favorite key of a search result.
pub open spec fn result_target(path: Seq<char>, heading: Seq<char>, paragraph: Option<u32>, page: Option<u32>) -> Seq<char> {
    "result|"@ + path + "|"@ + trim(heading) + "|"@ + opt_decimal(paragraph) + "|"@ + opt_decimal(page)
}

fn append_opt_decimal(out: &mut Vec<char>, v: Option<u32>)
    ensures
        final(out)@ == old(out)@ + opt_decimal(v),
{
    match v {
        Some(n) => {
            let d = decimal_chars(n as u64);
            append_chars(out, d.as_slice());
        },
        None => {
            proof {
                assert(old(out)@ + Seq::<char>::empty() =~= old(out)@);
            }
        },
    }
}

/// `favorite_result_target`: "result|path|heading|paragraph|page".
pub fn favorite_result_target(path: &str, heading: &str, paragraph: Option<u32>, page: Option<u32>) -> (r: String)
    ensures
        r@ == result_target(path@, heading@, paragraph, page),
{
    let mut out: Vec<char> = Vec::new();
    append_str(&mut out, "result|");
    append_str(&mut out, path);
    append_str(&mut out, "|");
    append_chars(&mut out, trim_chars(chars_of(heading).as_slice()).as_slice());
    append_str(&mut out, "|");
    append_opt_decimal(&mut out, paragraph);
    append_str(&mut out, "|");
    append_opt_decimal(&mut out, page);
    proof {
        assert(out@ =~= result_target(path@, heading@, paragraph, page));
    }
    string_of(out.as_slice())
}

// ---------------------------------------------------------------------------
// Candidate list and ranks
// ---------------------------------------------------------------------------

/// The semantic ids that are not keyword ids, in order.
pub open spec fn semantic_only(semantic: Seq<Seq<char>>, keyword: Seq<Seq<char>>) -> Seq<Seq<char>>
    decreases semantic.len(),
{
    if semantic.len() == 0 {
        Seq::empty()
    } else {
        let rest = semantic_only(semantic.drop_last(), keyword);
        if keyword.contains(semantic.last()) {
            rest
        } else {
            rest.push(semantic.last())
        }
    }
}

fn contains_string(v: &[String], x: &String) -> (r: bool)
    ensures
        r == string_views(v@).contains(x@),
{
    let mut i: usize = 0;
    while i < v.len()
        invariant
            i <= v@.len(),
            forall|k: int| 0 <= k < i ==> v@[k]@ != x@,
        decreases v@.len() - i,
    {
        if v[i] == *x {
            proof {
                assert(string_views(v@)[i as int] == x@);
            }
            return true;
        }
        i += 1;
    }
    proof {
        if string_views(v@).contains(x@) {
            let k = choose|k: int| 0 <= k < string_views(v@).len() && string_views(v@)[k] == x@;
            assert(v@[k]@ == x@);
        }
    }
    false
}

proof fn lemma_semantic_only_contains(semantic: Seq<Seq<char>>, keyword: Seq<Seq<char>>, x: Seq<char>)
    ensures
        semantic_only(semantic, keyword).contains(x) <==> (semantic.contains(x) && !keyword.contains(x)),
    decreases semantic.len(),
{
    if semantic.len() > 0 {
        let rest = semantic.drop_last();
        lemma_semantic_only_contains(rest, keyword, x);
        crate::text::lemma_contains_push(rest, semantic.last(), x);
        assert(rest.push(semantic.last()) =~= semantic);
        if !keyword.contains(semantic.last()) {
            crate::text::lemma_contains_push(semantic_only(rest, keyword), semantic.last(), x);
        }
    }
}

proof fn lemma_semantic_only_distinct(semantic: Seq<Seq<char>>, keyword: Seq<Seq<char>>)
    requires
        forall|i: int, j: int| 0 <= i < j < semantic.len() ==> semantic[i] != semantic[j],
    ensures
        forall|i: int, j: int| 0 <= i < j < semantic_only(semantic, keyword).len()
            ==> semantic_only(semantic, keyword)[i] != semantic_only(semantic, keyword)[j],
    decreases semantic.len(),
{
    if semantic.len() > 0 {
        let rest = semantic.drop_last();
        lemma_semantic_only_distinct(rest, keyword);
        let s = semantic_only(rest, keyword);
        if !keyword.contains(semantic.last()) {
            lemma_semantic_only_contains(rest, keyword, semantic.last());
            assert(!rest.contains(semantic.last())) by {
                if rest.contains(semantic.last()) {
                    let k = choose|k: int| 0 <= k < rest.len() && rest[k] == semantic.last();
                    assert(semantic[k] == semantic[semantic.len() - 1]);
                }
            }
            assert forall|i: int, j: int| 0 <= i < j < s.push(semantic.last()).len()
                implies s.push(semantic.last())[i] != s.push(semantic.last())[j] by {
                if j == s.len() {
                    assert(s.contains(s[i]));
                }
            }
        }
    }
}

/// The candidate set of a hybrid search is the union of the keyword hits and
/// the semantic hits, merged by chunk id: an id is a candidate exactly when
/// either search found it, and when neither list repeats an id, no candidate
/// appears twice.
pub proof fn law_candidates_are_union(keyword: Seq<Seq<char>>, semantic: Seq<Seq<char>>, x: Seq<char>)
    ensures
        (keyword + semantic_only(semantic, keyword)).contains(x) <==> (keyword.contains(x) || semantic.contains(x)),
        (forall|i: int, j: int| 0 <= i < j < keyword.len() ==> keyword[i] != keyword[j])
            && (forall|i: int, j: int| 0 <= i < j < semantic.len() ==> semantic[i] != semantic[j])
            ==> forall|i: int, j: int| 0 <= i < j < (keyword + semantic_only(semantic, keyword)).len()
                ==> (keyword + semantic_only(semantic, keyword))[i] != (keyword + semantic_only(semantic, keyword))[j],
{
    let s = semantic_only(semantic, keyword);
    let m = keyword + s;
    lemma_semantic_only_contains(semantic, keyword, x);
    if m.contains(x) {
        let k = choose|k: int| 0 <= k < m.len() && m[k] == x;
        if k < keyword.len() {
            assert(keyword[k] == x);
        } else {
            assert(s[k - keyword.len()] == x);
        }
    }
    if keyword.contains(x) {
        let k = choose|k: int| 0 <= k < keyword.len() && keyword[k] == x;
        assert(m[k] == x);
    } else if s.contains(x) {
        let k = choose|k: int| 0 <= k < s.len() && s[k] == x;
        assert(m[keyword.len() + k] == x);
    }
    if (forall|i: int, j: int| 0 <= i < j < keyword.len() ==> keyword[i] != keyword[j])
        && (forall|i: int, j: int| 0 <= i < j < semantic.len() ==> semantic[i] != semantic[j]) {
        lemma_semantic_only_distinct(semantic, keyword);
        assert forall|i: int, j: int| 0 <= i < j < m.len() implies m[i] != m[j] by {
            if i < keyword.len() && j >= keyword.len() {
                lemma_semantic_only_contains(semantic, keyword, m[j]);
                assert(s[j - keyword.len()] == m[j]);
                assert(s.contains(m[j]));
                assert(keyword.contains(keyword[i]));
            } else if i >= keyword.len() {
                assert(m[i] == s[i - keyword.len()]);
                assert(m[j] == s[j - keyword.len()]);
            }
        }
    }
}

/// The chunk ids to load for a search: the keyword hits in order, then the
/// semantic hits that are not keyword hits.
pub fn merge_candidate_chunk_ids(keyword_ids: &[String], semantic_ids: &[String]) -> (r: Vec<String>)
    ensures
        string_views(r@) == string_views(keyword_ids@) + semantic_only(string_views(semantic_ids@), string_views(keyword_ids@)),
{
    let ghost kv = string_views(keyword_ids@);
    let ghost sv = string_views(semantic_ids@);
    let mut out: Vec<String> = Vec::new();
    let mut i: usize = 0;
    while i < keyword_ids.len()
        invariant
            i <= keyword_ids@.len(),
            kv == string_views(keyword_ids@),
            string_views(out@) == kv.take(i as int),
        decreases keyword_ids@.len() - i,
    {
        let ghost before = out@;
        out.push(keyword_ids[i].clone());
        proof {
            assert(string_views(out@) =~= string_views(before).push(kv[i as int]));
            assert(kv.take(i + 1) =~= kv.take(i as int).push(kv[i as int]));
        }
        i += 1;
    }
    proof {
        assert(kv.take(keyword_ids@.len() as int) =~= kv);
    }
    let mut j: usize = 0;
    while j < semantic_ids.len()
        invariant
            j <= semantic_ids@.len(),
            kv == string_views(keyword_ids@),
            sv == string_views(semantic_ids@),
            string_views(out@) == kv + semantic_only(sv.take(j as int), kv),
        decreases semantic_ids@.len() - j,
    {
        proof {
            assert(sv.take(j + 1).drop_last() =~= sv.take(j as int));
            assert(sv.take(j + 1).last() == semantic_ids@[j as int]@);
        }
        if !contains_string(keyword_ids, &semantic_ids[j]) {
            let ghost before = out@;
            out.push(semantic_ids[j].clone());
            proof {
                assert(string_views(out@) =~= string_views(before).push(sv[j as int]));
                assert(string_views(out@) =~= kv + semantic_only(sv.take(j + 1), kv));
            }
        }
        j += 1;
    }
    proof {
        assert(sv.take(semantic_ids@.len() as int) =~= sv);
    }
    out
}

/// 1 + the last position of `id` in `raw`, if it occurs there.
pub open spec fn raw_rank(raw: Seq<Seq<char>>, id: Seq<char>) -> Option<int>
    decreases raw.len(),
{
    if raw.len() == 0 {
        None
    } else if raw.last() == id {
        Some(raw.len() as int)
    } else {
        raw_rank(raw.drop_last(), id)
    }
}

/// (original rank, final rank, change) of the hit at final position `i`.
pub open spec fn rank_entry(raw: Seq<Seq<char>>, final_ids: Seq<Seq<char>>, i: int) -> (int, int, int) {
    let f = i + 1;
    let o = match raw_rank(raw, final_ids[i]) {
        Some(k) => k,
        None => f,
    };
    (o, f, o - f)
}

fn raw_rank_exec(raw: &[String], id: &String) -> (r: Option<usize>)
    ensures
        match raw_rank(string_views(raw@), id@) {
            Some(k) => r == Some(k as usize) && 1 <= k <= raw@.len(),
            None => r is None,
        },
{
    let mut i = raw.len();
    proof {
        assert(string_views(raw@).take(raw@.len() as int) =~= string_views(raw@));
    }
    while i > 0
        invariant
            i <= raw@.len(),
            raw_rank(string_views(raw@), id@) == raw_rank(string_views(raw@).take(i as int), id@),
        decreases i,
    {
        let ghost t = string_views(raw@).take(i as int);
        proof {
            assert(t.drop_last() =~= string_views(raw@).take(i - 1));
            assert(t.last() == raw@[i - 1]@);
        }
        if raw[i - 1] == *id {
            proof {
                lemma_raw_rank_bound(string_views(raw@).take(i as int), id@);
            }
            return Some(i);
        }
        i -= 1;
    }
    None
}

proof fn lemma_raw_rank_bound(raw: Seq<Seq<char>>, id: Seq<char>)
    ensures
        match raw_rank(raw, id) {
            Some(k) => 1 <= k <= raw.len(),
            None => true,
        },
    decreases raw.len(),
{
    if raw.len() > 0 {
        lemma_raw_rank_bound(raw.drop_last(), id);
    }
}

/// For each id in final order: its rank by raw score (its last position in
/// `raw_order_ids`, or its final rank when absent), its final rank and the
/// difference.
pub fn assign_ranks(final_ids: &[String], raw_order_ids: &[String]) -> (r: Vec<(usize, usize, isize)>)
    requires
        final_ids@.len() < isize::MAX,
        raw_order_ids@.len() < isize::MAX,
    ensures
        r@.len() == final_ids@.len(),
        forall|i: int| 0 <= i < r@.len() ==> (#[trigger] r@[i].0 as int, r@[i].1 as int, r@[i].2 as int)
            == rank_entry(string_views(raw_order_ids@), string_views(final_ids@), i),
{
    let mut out: Vec<(usize, usize, isize)> = Vec::new();
    let mut i: usize = 0;
    while i < final_ids.len()
        invariant
            i <= final_ids@.len() < isize::MAX,
            raw_order_ids@.len() < isize::MAX,
            out@.len() == i,
            forall|k: int| 0 <= k < i ==> (#[trigger] out@[k].0 as int, out@[k].1 as int, out@[k].2 as int)
                == rank_entry(string_views(raw_order_ids@), string_views(final_ids@), k),
        decreases final_ids@.len() - i,
    {
        let f = i + 1;
        let o = match raw_rank_exec(raw_order_ids, &final_ids[i]) {
            Some(k) => k,
            None => f,
        };
        proof {
            assert(string_views(final_ids@)[i as int] == final_ids@[i as int]@);
        }
        out.push((o, f, o as isize - f as isize));
        i += 1;
    }
    out
}

/// Why semantic search did not contribute, as reported to the user.
pub open spec fn fallback_reason(error: Seq<char>, semantic_enabled: bool, model_available: bool) -> Seq<char> {
    if error.len() > 0 {
        error
    } else if !semantic_enabled {
        "语义检索已关闭"@
    } else if !model_available {
        "语义模型不可用"@
    } else {
        Seq::empty()
    }
}

/// The semantic fallback reason: the search error if there was one, else
/// why semantic search was not available.
pub fn semantic_fallback_reason(error: &str, semantic_enabled: bool, model_available: bool) -> (r: String)
    ensures
        r@ == fallback_reason(error@, semantic_enabled, model_available),
{
    if !error.is_empty() {
        error.to_owned()
    } else if !semantic_enabled {
        "语义检索已关闭".to_owned()
    } else if !model_available {
        "语义模型不可用".to_owned()
    } else {
        String::new()
    }
}

/// "hybrid" when semantic search is on, else "fulltext".
pub fn search_mode(semantic_enabled: bool) -> (r: String)
    ensures
        r@ == if semantic_enabled { "hybrid"@ } else { "fulltext"@ },
{
    if semantic_enabled {
        "hybrid".to_owned()
    } else {
        "fulltext".to_owned()
    }
}

/// How many semantic hits are fetched for a search of `limit` results:
/// three per result (at least one result), saturating.
pub open spec fn semantic_limit_of(limit: nat) -> nat {
    let l = if limit < 1 { 1 } else { limit };
    if l * 3 > usize::MAX { usize::MAX as nat } else { l * 3 }
}

/// The number of semantic hits fetched (see `semantic_limit_of`).
pub fn semantic_recall_limit(limit: usize) -> (r: usize)
    ensures
        r == semantic_limit_of(limit as nat),
{
    let l = if limit < 1 { 1 } else { limit };
    let m = if l > usize::MAX / 3 { usize::MAX } else { l * 3 };
    if m < l { l } else { m }
}

/// The field and origin shown for a hit: a keyword hit names the field
/// holding the terms; a semantic-only hit is a semantic match.
pub fn result_field_and_origin(
    keyword_hit: bool,
    semantic_hit: bool,
    snippet: &str,
    heading: &str,
    file_name: &str,
    path: &str,
    terms: &[String],
) -> (r: (String, String))
    ensures
        !keyword_hit && semantic_hit ==> r.0@ == "semantic"@ && r.1@ == "语义命中"@,
        keyword_hit || !semantic_hit ==> (r.0@, r.1@) == matched_field(snippet@, heading@, file_name@, path@, string_views(terms@)),
{
    if !keyword_hit && semantic_hit {
        ("semantic".to_owned(), "语义命中".to_owned())
    } else {
        matched_field_and_origin(snippet, heading, file_name, path, terms)
    }
}

/// The document changed within the last thirty days (its age in days,
/// from the modification time to `now`, is below 30).
pub fn recently_updated(modified_at: i64, now: i64) -> (r: bool)
    ensures
        r == (modified_at > 0 && now > modified_at && now - modified_at < 2_592_000),
{
    modified_at > 0 && now > modified_at && now - modified_at < 2_592_000
}

} // verus!
