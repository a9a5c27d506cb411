//! Terms suggested by the search history: the words of earlier searches,
//! weighted by how often those searches were made, that the current query
//! does not already hold.
use vstd::prelude::*;
use crate::dirs::{lemma_lex_total, lemma_lex_trans, lex_less, lex_lt};
use crate::qa_context::short_term;
use crate::text::{char_views, chars_of, is_ws, is_ws_char, list_contains, lowercase, lowercase_str, str_eq, string_of, string_views, trim, trim_chars};

verus! {

broadcast use vstd::seq_lib::group_to_multiset_ensures;

// ---------------------------------------------------------------------------
// Words
// ---------------------------------------------------------------------------

/// The words found so far in `s` and the word being read.
pub open spec fn ws_fold(s: Seq<char>) -> (Seq<Seq<char>>, Seq<char>)
    decreases s.len(),
{
    if s.len() == 0 {
        (Seq::empty(), Seq::empty())
    } else {
        let (words, cur) = ws_fold(s.drop_last());
        let c = s.last();
        if is_ws(c) {
            if cur.len() > 0 { (words.push(cur), Seq::empty()) } else { (words, cur) }
        } else {
            (words, cur.push(c))
        }
    }
}

/// The words of `s`: its runs of non-whitespace characters
/// (`str::split_whitespace`).
pub open spec fn ws_words(s: Seq<char>) -> Seq<Seq<char>> {
    let (words, cur) = ws_fold(s);
    if cur.len() > 0 { words.push(cur) } else { words }
}

/// The words of `s` (see `ws_words`).
pub fn split_words(s: &str) -> (r: Vec<Vec<char>>)
    ensures
        char_views(r@) == ws_words(s@),
{
    let cs = chars_of(s);
    let mut words: Vec<Vec<char>> = Vec::new();
    let mut cur: Vec<char> = Vec::new();
    let mut i: usize = 0;
    while i < cs.len()
        invariant
            i <= cs@.len(),
            cs@ == s@,
            (char_views(words@), cur@) == ws_fold(s@.take(i as int)),
        decreases cs@.len() - i,
    {
        proof {
            assert(s@.take(i + 1).drop_last() =~= s@.take(i as int));
            assert(s@.take(i + 1).last() == cs@[i as int]);
        }
        let c = cs[i];
        if is_ws_char(c) {
            if cur.len() > 0 {
                let ghost before = char_views(words@);
                let done = cur;
                words.push(done);
                cur = Vec::new();
                assert(char_views(words@) =~= before.push(done@));
            }
        } else {
            cur.push(c);
        }
        i += 1;
    }
    proof {
        assert(s@.take(cs@.len() as int) =~= s@);
    }
    if cur.len() > 0 {
        let ghost before = char_views(words@);
        let last = cur;
        words.push(last);
        assert(char_views(words@) =~= before.push(last@));
    }
    words
}

// ---------------------------------------------------------------------------
// Counting
// ---------------------------------------------------------------------------

/// The position of the term `t` among the counts, from `k` on.
pub open spec fn term_index(counts: Seq<(Seq<char>, nat)>, t: Seq<char>, k: int) -> Option<int>
    decreases counts.len() - k,
{
    if k < 0 || k >= counts.len() {
        None
    } else if counts[k].0 == t {
        Some(k)
    } else {
        term_index(counts, t, k + 1)
    }
}

/// The counts with `w` more for the term `t`.
pub open spec fn add_count(counts: Seq<(Seq<char>, nat)>, t: Seq<char>, w: nat) -> Seq<(Seq<char>, nat)> {
    match term_index(counts, t, 0) {
        Some(i) => counts.update(i, (t, counts[i].1 + w)),
        None => counts.push((t, w)),
    }
}

/// A word that is not counted: empty, already in the query, or shorter than
/// two bytes.
pub open spec fn skipped_term(t: Seq<char>, current: Seq<Seq<char>>) -> bool {
    t.len() == 0 || current.contains(t) || short_term(t)
}

/// The counts after the words of one search, each counted with weight `w`
/// once lowercased.
pub open spec fn count_words(
    counts: Seq<(Seq<char>, nat)>,
    words: Seq<Seq<char>>,
    current: Seq<Seq<char>>,
    w: nat,
) -> Seq<(Seq<char>, nat)>
    decreases words.len(),
{
    if words.len() == 0 {
        counts
    } else {
        let c = count_words(counts, words.drop_last(), current, w);
        let t = lowercase(trim(words.last()));
        if skipped_term(t, current) { c } else { add_count(c, t, w) }
    }
}

/// The weight of a search: its hit count, at least 1.
pub open spec fn history_weight(hit_count: nat) -> nat {
    if hit_count < 1 { 1 } else { hit_count }
}

/// The terms of the current query as compared: trimmed and lowercased.
pub open spec fn current_keys(current: Seq<Seq<char>>) -> Seq<Seq<char>> {
    current.map_values(|t: Seq<char>| lowercase(trim(t)))
}

/// The weighted counts of the words of the searches (normalized query and
/// hit count), in the order the words first appear.
pub open spec fn history_counts(history: Seq<(Seq<char>, nat)>, current: Seq<Seq<char>>) -> Seq<(Seq<char>, nat)>
    decreases history.len(),
{
    if history.len() == 0 {
        Seq::empty()
    } else {
        count_words(
            history_counts(history.drop_last(), current),
            ws_words(history.last().0),
            current,
            history_weight(history.last().1),
        )
    }
}

/// The total weight the counts can reach: every word of every search at its
/// search's weight.
pub open spec fn weight_total(history: Seq<(Seq<char>, nat)>) -> nat
    decreases history.len(),
{
    if history.len() == 0 {
        0
    } else {
        weight_total(history.drop_last()) + history_weight(history.last().1) * ws_words(history.last().0).len()
    }
}

/// The plain view of counts.
pub open spec fn counts_view(v: Seq<(String, usize)>) -> Seq<(Seq<char>, nat)> {
    v.map_values(|c: (String, usize)| (c.0@, c.1 as nat))
}

/// The plain view of the searches: normalized query and hit count.
pub open spec fn history_view(v: Seq<(String, usize)>) -> Seq<(Seq<char>, nat)> {
    v.map_values(|h: (String, usize)| (h.0@, h.1 as nat))
}

/// No term occurs twice.
pub open spec fn distinct_terms(c: Seq<(Seq<char>, nat)>) -> bool {
    forall|i: int, j: int| 0 <= i < j < c.len() ==> c[i].0 != c[j].0
}

proof fn lemma_term_index(counts: Seq<(Seq<char>, nat)>, t: Seq<char>, k: int)
    requires
        0 <= k <= counts.len(),
    ensures
        match term_index(counts, t, k) {
            Some(i) => k <= i < counts.len() && counts[i].0 == t,
            None => forall|j: int| k <= j < counts.len() ==> counts[j].0 != t,
        },
    decreases counts.len() - k,
{
    if k < counts.len() && counts[k].0 != t {
        lemma_term_index(counts, t, k + 1);
    }
}

proof fn lemma_weight_total_prefix(h: Seq<(Seq<char>, nat)>, i: int)
    requires
        0 <= i <= h.len(),
    ensures
        weight_total(h.take(i)) <= weight_total(h),
    decreases h.len() - i,
{
    if i < h.len() {
        lemma_weight_total_prefix(h, i + 1);
        assert(h.take(i + 1).drop_last() =~= h.take(i));
    } else {
        assert(h.take(i) =~= h);
    }
}

fn add_count_exec(counts: &mut Vec<(String, usize)>, t: String, w: usize, Ghost(bound): Ghost<nat>)
    requires
        distinct_terms(counts_view(old(counts)@)),
        forall|k: int| 0 <= k < old(counts)@.len() ==> (#[trigger] old(counts)@[k]).1 <= bound,
        bound + w <= usize::MAX,
    ensures
        counts_view(final(counts)@) == add_count(counts_view(old(counts)@), t@, w as nat),
        distinct_terms(counts_view(final(counts)@)),
        forall|k: int| 0 <= k < final(counts)@.len() ==> (#[trigger] final(counts)@[k]).1 <= bound + w,
{
    let ghost cv = counts_view(counts@);
    proof {
        lemma_term_index(cv, t@, 0);
    }
    let mut j: usize = 0;
    while j < counts.len() && !str_eq(counts[j].0.as_str(), t.as_str())
        invariant
            j <= counts@.len(),
            cv == counts_view(counts@),
            term_index(cv, t@, 0) == term_index(cv, t@, j as int),
        decreases counts@.len() - j,
    {
        j += 1;
    }
    let ghost before = counts@;
    if j < counts.len() {
        let n = counts[j].1 + w;
        let name = counts[j].0.clone();
        counts.set(j, (name, n));
        assert(counts_view(counts@) =~= cv.update(j as int, (t@, (cv[j as int].1 + w) as nat)));
        assert forall|k: int| 0 <= k < counts@.len() implies (#[trigger] counts@[k]).1 <= bound + w by {
            if k != j {
                assert(counts@[k] == before[k]);
            }
        }
        assert forall|a: int, b: int| 0 <= a < b < counts_view(counts@).len()
            implies counts_view(counts@)[a].0 != counts_view(counts@)[b].0 by {
            assert(counts_view(counts@)[a].0 == cv[a].0);
            assert(counts_view(counts@)[b].0 == cv[b].0);
        }
    } else {
        counts.push((t, w));
        assert(counts_view(counts@) =~= cv.push((t@, w as nat)));
        assert forall|k: int| 0 <= k < counts@.len() implies (#[trigger] counts@[k]).1 <= bound + w by {
            if k < before.len() {
                assert(counts@[k] == before[k]);
            }
        }
    }
}

fn normalized_word(word: &Vec<char>) -> (r: String)
    ensures
        r@ == lowercase(trim(word@)),
{
    let t = trim_chars(word.as_slice());
    let s = string_of(t.as_slice());
    lowercase_str(s.as_str())
}

fn is_short(t: &str) -> (r: bool)
    ensures
        r == short_term(t@),
{
    let cs = chars_of(t);
    cs.len() == 0 || (cs.len() == 1 && (cs[0] as u32) < 0x80)
}

fn count_words_exec(
    counts: &mut Vec<(String, usize)>,
    words: &Vec<Vec<char>>,
    current: &Vec<String>,
    w: usize,
    Ghost(bound): Ghost<nat>,
)
    requires
        distinct_terms(counts_view(old(counts)@)),
        forall|k: int| 0 <= k < old(counts)@.len() ==> (#[trigger] old(counts)@[k]).1 <= bound,
        bound + w * words@.len() <= usize::MAX,
    ensures
        counts_view(final(counts)@) == count_words(counts_view(old(counts)@), char_views(words@), string_views(current@), w as nat),
        distinct_terms(counts_view(final(counts)@)),
        forall|k: int| 0 <= k < final(counts)@.len() ==> (#[trigger] final(counts)@[k]).1 <= bound + w * words@.len(),
{
    let ghost start = counts_view(counts@);
    let ghost wv = char_views(words@);
    let ghost cur = string_views(current@);
    let mut j: usize = 0;
    while j < words.len()
        invariant
            j <= words@.len(),
            start == counts_view(old(counts)@),
            wv == char_views(words@),
            cur == string_views(current@),
            bound + w * words@.len() <= usize::MAX,
            counts_view(counts@) == count_words(start, wv.take(j as int), cur, w as nat),
            distinct_terms(counts_view(counts@)),
            forall|k: int| 0 <= k < counts@.len() ==> (#[trigger] counts@[k]).1 <= bound + w * j,
        decreases words@.len() - j,
    {
        proof {
            assert(wv.take(j + 1).drop_last() =~= wv.take(j as int));
            assert(wv.take(j + 1).last() == words@[j as int]@);
            assert(w * j + w == w * (j + 1)) by (nonlinear_arith);
            assert(w * (j + 1) <= w * words@.len()) by (nonlinear_arith)
                requires
                    j + 1 <= words@.len(),
            ;
        }
        let t = normalized_word(&words[j]);
        let skip = t.as_str().is_empty() || list_contains(current, t.as_str()) || is_short(t.as_str());
        if !skip {
            add_count_exec(counts, t, w, Ghost((bound + w * j) as nat));
        }
        j += 1;
    }
    proof {
        assert(wv.take(words@.len() as int) =~= wv);
    }
}

// ---------------------------------------------------------------------------
// Choosing the terms
// ---------------------------------------------------------------------------

/// The counts of at least two, in order.
pub open spec fn frequent(c: Seq<(Seq<char>, nat)>) -> Seq<(Seq<char>, nat)>
    decreases c.len(),
{
    if c.len() == 0 {
        Seq::empty()
    } else if c.last().1 >= 2 {
        frequent(c.drop_last()).push(c.last())
    } else {
        frequent(c.drop_last())
    }
}

/// A term comes before another: a higher count, then string order.
pub open spec fn term_before(a: (Seq<char>, nat), b: (Seq<char>, nat)) -> bool {
    a.1 > b.1 || (a.1 == b.1 && lex_lt(a.0, b.0))
}

/// The counts are in `term_before` order.
pub open spec fn terms_sorted(p: Seq<(Seq<char>, nat)>) -> bool {
    forall|a: int, b: int| 0 <= a < b < p.len() ==> term_before(p[a], p[b])
}

/// The (at most) four first terms.
pub open spec fn top_terms(p: Seq<(Seq<char>, nat)>) -> Seq<Seq<char>> {
    p.take(if p.len() < 4 { p.len() as int } else { 4 }).map_values(|c: (Seq<char>, nat)| c.0)
}

/// The terms suggested by the search history for a query: the words of the
/// searches (lowercased; not in the query, at least two bytes long) whose
/// weighted count is at least two, the most frequent first (ties in string
/// order), at most four.
pub open spec fn suggests(
    r: Seq<Seq<char>>,
    history: Seq<(Seq<char>, nat)>,
    current: Seq<Seq<char>>,
) -> bool {
    exists|p: Seq<(Seq<char>, nat)>|
        #![trigger top_terms(p)]
        terms_sorted(p) && p.to_multiset() == frequent(history_counts(history, current_keys(current))).to_multiset()
            && r == top_terms(p)
}

proof fn lemma_term_before_trans(a: (Seq<char>, nat), b: (Seq<char>, nat), c: (Seq<char>, nat))
    requires
        term_before(a, b),
        term_before(b, c),
    ensures
        term_before(a, c),
{
    if a.1 == b.1 && b.1 == c.1 {
        lemma_lex_trans(a.0, b.0, c.0);
    }
}

proof fn lemma_term_before_total(a: (Seq<char>, nat), b: (Seq<char>, nat))
    requires
        a.0 != b.0,
        !term_before(a, b),
    ensures
        term_before(b, a),
{
    lemma_lex_total(a.0, b.0);
}

fn before_exec(a: &(String, usize), b: &(String, usize)) -> (r: bool)
    ensures
        r == term_before((a.0@, a.1 as nat), (b.0@, b.1 as nat)),
{
    a.1 > b.1 || (a.1 == b.1 && lex_less(chars_of(a.0.as_str()).as_slice(), chars_of(b.0.as_str()).as_slice()))
}

fn copy_entry(e: &(String, usize)) -> (r: (String, usize))
    ensures
        r.0@ == e.0@ && r.1 == e.1,
{
    (e.0.clone(), e.1)
}

/// The terms the search
/// history suggests for a query of `current_terms`, from the recent searches
/// (normalized query and hit count) — see `suggests`.
pub fn derive_history_terms(history: &Vec<(String, usize)>, current_terms: &Vec<String>) -> (r: Vec<String>)
    requires
        weight_total(history_view(history@)) <= usize::MAX,
    ensures
        suggests(string_views(r@), history_view(history@), string_views(current_terms@)),
{
    let ghost hv = history_view(history@);
    // The query's terms as compared.
    let mut keys: Vec<String> = Vec::new();
    let mut q: usize = 0;
    while q < current_terms.len()
        invariant
            q <= current_terms@.len(),
            keys@.len() == q,
            forall|k: int| 0 <= k < q ==> (#[trigger] keys@[k])@ == lowercase(trim(current_terms@[k]@)),
        decreases current_terms@.len() - q,
    {
        let t = trim_chars(chars_of(current_terms[q].as_str()).as_slice());
        keys.push(lowercase_str(string_of(t.as_slice()).as_str()));
        q += 1;
    }
    let ghost ck = current_keys(string_views(current_terms@));
    assert(string_views(keys@) =~= ck);
    // The weighted counts.
    let mut counts: Vec<(String, usize)> = Vec::new();
    let mut i: usize = 0;
    while i < history.len()
        invariant
            i <= history@.len(),
            hv == history_view(history@),
            weight_total(hv) <= usize::MAX,
            string_views(keys@) == ck,
            counts_view(counts@) == history_counts(hv.take(i as int), ck),
            distinct_terms(counts_view(counts@)),
            forall|k: int| 0 <= k < counts@.len() ==> (#[trigger] counts@[k]).1 <= weight_total(hv.take(i as int)),
        decreases history@.len() - i,
    {
        let words = split_words(history[i].0.as_str());
        let w: usize = if history[i].1 < 1 { 1 } else { history[i].1 };
        proof {
            assert(hv.take(i + 1).drop_last() =~= hv.take(i as int));
            assert(hv.take(i + 1).last() == hv[i as int]);
            lemma_weight_total_prefix(hv, i + 1);
        }
        count_words_exec(&mut counts, &words, &keys, w, Ghost(weight_total(hv.take(i as int))));
        i += 1;
    }
    assert(hv.take(history@.len() as int) =~= hv);
    let ghost cv = counts_view(counts@);
    // The frequent ones.
    let mut f: Vec<(String, usize)> = Vec::new();
    let mut k: usize = 0;
    while k < counts.len()
        invariant
            k <= counts@.len(),
            cv == counts_view(counts@),
            distinct_terms(cv),
            counts_view(f@) == frequent(cv.take(k as int)),
            distinct_terms(counts_view(f@)),
            forall|a: int| 0 <= a < f@.len() ==> exists|b: int| 0 <= b < k && (#[trigger] f@[a]).0@ == cv[b].0,
        decreases counts@.len() - k,
    {
        proof {
            assert(cv.take(k + 1).drop_last() =~= cv.take(k as int));
            assert(cv.take(k + 1).last() == cv[k as int]);
        }
        if counts[k].1 >= 2 {
            let ghost before = f@;
            f.push(copy_entry(&counts[k]));
            assert(counts_view(f@) =~= counts_view(before).push(cv[k as int]));
            assert forall|a: int, b: int| 0 <= a < b < counts_view(f@).len()
                implies counts_view(f@)[a].0 != counts_view(f@)[b].0 by {
                if b == f@.len() - 1 {
                    let b2 = choose|b2: int| 0 <= b2 < k && (#[trigger] before[a]).0@ == cv[b2].0;
                    assert(f@[a] == before[a]);
                }
            }
            assert forall|a: int| 0 <= a < f@.len() implies exists|b: int| 0 <= b < k + 1 && (#[trigger] f@[a]).0@ == cv[b].0 by {
                if a < before.len() {
                    assert(f@[a] == before[a]);
                    let b2 = choose|b2: int| 0 <= b2 < k && (#[trigger] before[a]).0@ == cv[b2].0;
                } else {
                    assert(f@[a].0@ == cv[k as int].0);
                }
            }
        }
        k += 1;
    }
    assert(cv.take(counts@.len() as int) =~= cv);
    let ghost fv = counts_view(f@);
    // Sorted, most frequent first.
    let mut out: Vec<(String, usize)> = Vec::new();
    let mut m: usize = 0;
    while m < f.len()
        invariant
            m <= f@.len(),
            fv == counts_view(f@),
            distinct_terms(fv),
            counts_view(out@).to_multiset() == fv.take(m as int).to_multiset(),
            out@.len() == m,
            terms_sorted(counts_view(out@)),
        decreases f@.len() - m,
    {
        let ghost ov = counts_view(out@);
        let x = copy_entry(&f[m]);
        let ghost xv = (x.0@, x.1 as nat);
        assert(xv == fv[m as int]);
        let mut j: usize = 0;
        while j < out.len() && !before_exec(&x, &out[j])
            invariant
                j <= out@.len(),
                ov == counts_view(out@),
                xv == (x.0@, x.1 as nat),
                forall|a: int| 0 <= a < j ==> !term_before(xv, #[trigger] ov[a]),
            decreases out@.len() - j,
        {
            j += 1;
        }
        proof {
            assert forall|a: int| 0 <= a < ov.len() implies (#[trigger] ov[a]).0 != xv.0 by {
                assert(ov.to_multiset().count(ov[a]) > 0);
                assert(fv.take(m as int).to_multiset().count(ov[a]) > 0);
                assert(fv.take(m as int).contains(ov[a]));
                let b = choose|b: int| 0 <= b < m && fv.take(m as int)[b] == ov[a];
                assert(fv[b] == ov[a]);
            }
        }
        out.insert(j, x);
        proof {
            let nv = counts_view(out@);
            assert(nv =~= ov.insert(j as int, xv));
            assert(fv.take(m + 1) =~= fv.take(m as int).push(xv));
            assert forall|a: int, b: int| 0 <= a < b < nv.len() implies term_before(nv[a], nv[b]) by {
                if b < j {
                    assert(nv[a] == ov[a] && nv[b] == ov[b]);
                } else if b == j {
                    assert(nv[a] == ov[a]);
                    lemma_term_before_total(xv, ov[a]);
                } else if a == j {
                    assert(nv[b] == ov[b - 1]);
                    if b - 1 > j {
                        lemma_term_before_trans(xv, ov[j as int], ov[b - 1]);
                    }
                } else if a < j {
                    assert(nv[a] == ov[a] && nv[b] == ov[b - 1]);
                } else {
                    assert(nv[a] == ov[a - 1] && nv[b] == ov[b - 1]);
                }
            }
        }
        m += 1;
    }
    assert(fv.take(f@.len() as int) =~= fv);
    // The first four.
    let n: usize = if out.len() < 4 { out.len() } else { 4 };
    let mut r: Vec<String> = Vec::new();
    let mut t: usize = 0;
    while t < n
        invariant
            t <= n <= out@.len(),
            n == if out@.len() < 4 { out@.len() } else { 4 },
            r@.len() == t,
            forall|a: int| 0 <= a < t ==> (#[trigger] r@[a])@ == out@[a].0@,
        decreases n - t,
    {
        r.push(out[t].0.clone());
        t += 1;
    }
    proof {
        let p = counts_view(out@);
        assert(string_views(r@) =~= top_terms(p));
    }
    r
}

proof fn lemma_add_count_terms(c: Seq<(Seq<char>, nat)>, t: Seq<char>, w: nat, keys: Seq<Seq<char>>)
    requires
        forall|k: int| 0 <= k < c.len() ==> !keys.contains(#[trigger] c[k].0),
        !keys.contains(t),
    ensures
        forall|k: int| 0 <= k < add_count(c, t, w).len() ==> !keys.contains(#[trigger] add_count(c, t, w)[k].0),
{
    lemma_term_index(c, t, 0);
    let n = add_count(c, t, w);
    assert forall|k: int| 0 <= k < n.len() implies !keys.contains(#[trigger] n[k].0) by {
        match term_index(c, t, 0) {
            Some(i) => {
                if k != i {
                    assert(n[k] == c[k]);
                }
            },
            None => {
                if k < c.len() {
                    assert(n[k] == c[k]);
                }
            },
        }
    }
}

proof fn lemma_count_words_terms(c: Seq<(Seq<char>, nat)>, words: Seq<Seq<char>>, keys: Seq<Seq<char>>, w: nat)
    requires
        forall|k: int| 0 <= k < c.len() ==> !keys.contains(#[trigger] c[k].0),
    ensures
        forall|k: int| 0 <= k < count_words(c, words, keys, w).len() ==> !keys.contains(
            #[trigger] count_words(c, words, keys, w)[k].0,
        ),
    decreases words.len(),
{
    if words.len() > 0 {
        lemma_count_words_terms(c, words.drop_last(), keys, w);
        let prev = count_words(c, words.drop_last(), keys, w);
        let t = lowercase(trim(words.last()));
        if !skipped_term(t, keys) {
            lemma_add_count_terms(prev, t, w, keys);
        }
    }
}

proof fn lemma_history_terms(h: Seq<(Seq<char>, nat)>, keys: Seq<Seq<char>>)
    ensures
        forall|k: int| 0 <= k < history_counts(h, keys).len() ==> !keys.contains(#[trigger] history_counts(h, keys)[k].0),
    decreases h.len(),
{
    if h.len() > 0 {
        lemma_history_terms(h.drop_last(), keys);
        lemma_count_words_terms(history_counts(h.drop_last(), keys), ws_words(h.last().0), keys, history_weight(h.last().1));
    }
}

proof fn lemma_frequent_from(c: Seq<(Seq<char>, nat)>, x: (Seq<char>, nat))
    requires
        frequent(c).contains(x),
    ensures
        c.contains(x) && x.1 >= 2,
    decreases c.len(),
{
    if c.len() > 0 {
        let prev = frequent(c.drop_last());
        if c.last().1 >= 2 && x == c.last() {
            assert(c[c.len() - 1] == x);
        } else {
            if c.last().1 >= 2 {
                crate::text::lemma_contains_push(prev, c.last(), x);
            }
            lemma_frequent_from(c.drop_last(), x);
            let k = choose|k: int| 0 <= k < c.drop_last().len() && c.drop_last()[k] == x;
            assert(c[k] == x);
        }
    }
}

/// The term `t` has a weighted count of at least two.
pub open spec fn counted_twice(c: Seq<(Seq<char>, nat)>, t: Seq<char>) -> bool {
    exists|k: int| 0 <= k < c.len() && c[k].0 == t && c[k].1 >= 2
}

/// A suggested term is never a term of the query, and comes from at least
/// two weighted uses in the history; at most four terms are suggested.
pub proof fn law_suggestions_are_new_terms(r: Seq<Seq<char>>, history: Seq<(Seq<char>, nat)>, current: Seq<Seq<char>>)
    requires
        suggests(r, history, current),
    ensures
        r.len() <= 4,
        forall|i: int| 0 <= i < r.len() ==> !current_keys(current).contains(#[trigger] r[i]),
        forall|i: int| 0 <= i < r.len() ==> counted_twice(history_counts(history, current_keys(current)), #[trigger] r[i]),
{
    let p = choose|p: Seq<(Seq<char>, nat)>|
        #![trigger top_terms(p)]
        terms_sorted(p) && p.to_multiset() == frequent(history_counts(history, current_keys(current))).to_multiset()
            && r == top_terms(p);
    let keys = current_keys(current);
    let c = history_counts(history, keys);
    lemma_history_terms(history, keys);
    assert forall|i: int| 0 <= i < r.len() implies !keys.contains(#[trigger] r[i]) && counted_twice(c, r[i]) by {
        assert(r[i] == p[i].0);
        assert(p.to_multiset().count(p[i]) > 0);
        assert(frequent(c).to_multiset().count(p[i]) > 0);
        lemma_frequent_from(c, p[i]);
        let k = choose|k: int| 0 <= k < c.len() && c[k] == p[i];
        assert(c[k].0 == r[i]);
    }
}

} // verus!
