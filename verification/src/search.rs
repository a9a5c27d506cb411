//! Query tokenization: ASCII words are lowercased whole, runs of Han
//! characters are split into overlapping bigrams.
use vstd::prelude::*;
use crate::text::{string_views, char_views, chars_of, join, join_chars, string_of};

verus! {

/// ASCII letter or digit.
pub open spec fn is_ascii_alnum(c: char) -> bool {
    ('0' <= c && c <= '9') || ('a' <= c && c <= 'z') || ('A' <= c && c <= 'Z')
}

/// A CJK unified ideograph (basic block, extensions A to E, compatibility block).
pub open spec fn is_han(c: char) -> bool {
    ||| ('\u{4E00}' <= c && c <= '\u{9FFF}')
    ||| ('\u{3400}' <= c && c <= '\u{4DBF}')
    ||| ('\u{20000}' <= c && c <= '\u{2A6DF}')
    ||| ('\u{2A700}' <= c && c <= '\u{2B73F}')
    ||| ('\u{2B740}' <= c && c <= '\u{2B81F}')
    ||| ('\u{2B820}' <= c && c <= '\u{2CEAF}')
    ||| ('\u{F900}' <= c && c <= '\u{FAFF}')
}

/// 1 for ASCII letters and digits, 2 for Han characters, 0 for separators.
pub open spec fn char_class(c: char) -> int {
    if is_ascii_alnum(c) {
        1
    } else if is_han(c) {
        2
    } else {
        0
    }
}

/// ASCII uppercase letters mapped to lowercase, everything else unchanged.
pub open spec fn ascii_lower(c: char) -> char {
    if 'A' <= c && c <= 'Z' {
        ((c as u32) + 32) as char
    } else {
        c
    }
}

/// Length of the longest prefix of `s` whose characters all have class `k`.
pub open spec fn run_len(s: Seq<char>, k: int) -> nat
    decreases s.len(),
{
    if s.len() > 0 && char_class(s[0]) == k {
        1 + run_len(s.drop_first(), k)
    } else {
        0
    }
}

/// Tokens of one maximal run: an ASCII run gives its lowercase form; a Han
/// run of one character gives itself, a longer one every adjacent pair.
pub open spec fn run_tokens(k: int, run: Seq<char>) -> Seq<Seq<char>> {
    if k == 1 {
        seq![run.map_values(|c: char| ascii_lower(c))]
    } else if run.len() == 1 {
        seq![run]
    } else {
        Seq::new((run.len() - 1) as nat, |i: int| run.subrange(i, i + 2))
    }
}

pub proof fn lemma_run_len_bound(s: Seq<char>, k: int)
    ensures
        run_len(s, k) <= s.len(),
        forall|i: int| 0 <= i < run_len(s, k) ==> char_class(#[trigger] s[i]) == k,
    decreases s.len(),
{
    if s.len() > 0 && char_class(s[0]) == k {
        lemma_run_len_bound(s.drop_first(), k);
        assert forall|i: int| 0 <= i < run_len(s, k) implies char_class(#[trigger] s[i]) == k by {
            if i > 0 {
                assert(s[i] == s.drop_first()[i - 1]);
            }
        }
    }
}

/// The search tokens of `s`, run by run, in order.
pub open spec fn search_tokens(s: Seq<char>) -> Seq<Seq<char>>
    decreases s.len(),
{
    if s.len() == 0 {
        Seq::empty()
    } else if char_class(s[0]) == 0 {
        search_tokens(s.drop_first())
    } else {
        let k = char_class(s[0]);
        let n = run_len(s, k);
        proof {
            lemma_run_len_bound(s, k);
        }
        run_tokens(k, s.take(n as int)) + search_tokens(s.skip(n as int))
    }
}

pub proof fn lemma_run_len_concat(cur: Seq<char>, rest: Seq<char>, k: int)
    requires
        forall|i: int| 0 <= i < cur.len() ==> char_class(#[trigger] cur[i]) == k,
        rest.len() == 0 || char_class(rest[0]) != k,
    ensures
        run_len(cur + rest, k) == cur.len(),
    decreases cur.len(),
{
    if cur.len() > 0 {
        assert((cur + rest).drop_first() =~= cur.drop_first() + rest);
        assert forall|i: int| 0 <= i < cur.drop_first().len() implies char_class(
            #[trigger] cur.drop_first()[i],
        ) == k by {
            assert(cur.drop_first()[i] == cur[i + 1]);
        }
        lemma_run_len_concat(cur.drop_first(), rest, k);
    } else {
        assert(cur + rest =~= rest);
    }
}

pub proof fn lemma_tokens_split(cur: Seq<char>, rest: Seq<char>, k: int)
    requires
        cur.len() > 0,
        k != 0,
        forall|i: int| 0 <= i < cur.len() ==> char_class(#[trigger] cur[i]) == k,
        rest.len() == 0 || char_class(rest[0]) != k,
    ensures
        search_tokens(cur + rest) == run_tokens(k, cur) + search_tokens(rest),
{
    let s = cur + rest;
    assert(s[0] == cur[0]);
    lemma_run_len_concat(cur, rest, k);
    assert(s.take(cur.len() as int) =~= cur);
    assert(s.skip(cur.len() as int) =~= rest);
}

pub proof fn lemma_tokens_skip_sep(s: Seq<char>, i: int)
    requires
        0 <= i < s.len(),
        char_class(s[i]) == 0,
    ensures
        search_tokens(s.skip(i)) == search_tokens(s.skip(i + 1)),
{
    assert(s.skip(i).drop_first() =~= s.skip(i + 1));
}

/// A token as `search_tokens` gives it: not empty and all of one class; an ASCII
/// token is lowercase, a Han token at most two characters long.
pub open spec fn canonical_token(t: Seq<char>) -> bool {
    &&& t.len() > 0
    &&& char_class(t[0]) != 0
    &&& forall|i: int| 0 <= i < t.len() ==> char_class(#[trigger] t[i]) == char_class(t[0])
    &&& char_class(t[0]) == 1 ==> forall|i: int| 0 <= i < t.len() ==> ascii_lower(#[trigger] t[i]) == t[i]
    &&& char_class(t[0]) == 2 ==> t.len() <= 2
}

proof fn lemma_run_len_stop(s: Seq<char>, k: int)
    ensures
        run_len(s, k) < s.len() ==> char_class(s[run_len(s, k) as int]) != k,
    decreases s.len(),
{
    if s.len() > 0 && char_class(s[0]) == k {
        lemma_run_len_stop(s.drop_first(), k);
        if run_len(s, k) < s.len() {
            assert(s[run_len(s, k) as int] == s.drop_first()[run_len(s.drop_first(), k) as int]);
        }
    }
}

proof fn lemma_ascii_lower_fixed(c: char)
    requires
        is_ascii_alnum(c),
    ensures
        char_class(ascii_lower(c)) == 1,
        ascii_lower(ascii_lower(c)) == ascii_lower(c),
{
    if 'A' <= c && c <= 'Z' {
        let d = ((c as u32) + 32) as char;
        assert('a' <= d && d <= 'z');
    }
}

proof fn lemma_run_tokens_canonical(k: int, run: Seq<char>)
    requires
        run.len() > 0,
        k == 1 || k == 2,
        forall|i: int| 0 <= i < run.len() ==> char_class(#[trigger] run[i]) == k,
    ensures
        forall|j: int| 0 <= j < run_tokens(k, run).len() ==> canonical_token(#[trigger] run_tokens(k, run)[j]),
{
    if k == 1 {
        let t = run.map_values(|c: char| ascii_lower(c));
        assert forall|i: int| 0 <= i < t.len() implies char_class(#[trigger] t[i]) == 1 && ascii_lower(t[i]) == t[i] by {
            assert(char_class(run[i]) == 1);
            lemma_ascii_lower_fixed(run[i]);
        }
        assert(run_tokens(k, run)[0] == t);
    } else if run.len() > 1 {
        assert forall|j: int| 0 <= j < run_tokens(k, run).len() implies canonical_token(#[trigger] run_tokens(k, run)[j]) by {
            let t = run.subrange(j, j + 2);
            assert(run_tokens(k, run)[j] == t);
            assert(t[0] == run[j] && t[1] == run[j + 1]);
            assert(char_class(run[j]) == 2 && char_class(run[j + 1]) == 2);
        }
    } else {
        assert(run_tokens(k, run)[0] == run);
        assert(char_class(run[0]) == 2);
    }
}

/// Every token of `search_tokens(s)` is canonical.
pub proof fn lemma_tokens_canonical(s: Seq<char>)
    ensures
        forall|j: int| 0 <= j < search_tokens(s).len() ==> canonical_token(#[trigger] search_tokens(s)[j]),
    decreases s.len(),
{
    if s.len() > 0 {
        if char_class(s[0]) == 0 {
            lemma_tokens_canonical(s.drop_first());
            assert(search_tokens(s) == search_tokens(s.drop_first()));
        } else {
            let k = char_class(s[0]);
            let n = run_len(s, k);
            lemma_run_len_bound(s, k);
            let run = s.take(n as int);
            assert(n > 0);
            assert forall|i: int| 0 <= i < run.len() implies char_class(#[trigger] run[i]) == k by {
                assert(run[i] == s[i]);
            }
            lemma_run_tokens_canonical(k, run);
            lemma_tokens_canonical(s.skip(n as int));
            let a = run_tokens(k, run);
            let b = search_tokens(s.skip(n as int));
            assert(search_tokens(s) == a + b);
            assert forall|j: int| 0 <= j < (a + b).len() implies canonical_token(#[trigger] (a + b)[j]) by {
                if j < a.len() {
                    assert((a + b)[j] == a[j]);
                } else {
                    assert((a + b)[j] == b[j - a.len()]);
                }
            }
            assert forall|j: int| 0 <= j < search_tokens(s).len() implies canonical_token(#[trigger] search_tokens(s)[j]) by {
                assert(search_tokens(s)[j] == (a + b)[j]);
            }
        }
    }
}

proof fn lemma_token_alone(t: Seq<char>)
    requires
        canonical_token(t),
    ensures
        search_tokens(t) == seq![t],
{
    let k = char_class(t[0]);
    let e = Seq::<char>::empty();
    lemma_tokens_split(t, e, k);
    assert(t + e =~= t);
    if k == 1 {
        assert(t.map_values(|c: char| ascii_lower(c)) =~= t);
    } else if t.len() > 1 {
        assert(t.subrange(0, 2) =~= t);
        assert(run_tokens(k, t) =~= seq![t]);
    }
    assert(run_tokens(k, t) + search_tokens(e) =~= seq![t]);
}

proof fn lemma_tokens_around_separator(a: Seq<char>, x: char, b: Seq<char>)
    requires
        char_class(x) == 0,
    ensures
        search_tokens(a + seq![x] + b) == search_tokens(a) + search_tokens(b),
    decreases a.len(),
{
    let s = a + seq![x] + b;
    if a.len() == 0 {
        assert(s.drop_first() =~= b);
        assert(search_tokens(a) + search_tokens(b) =~= search_tokens(b));
    } else if char_class(a[0]) == 0 {
        assert(s[0] == a[0]);
        assert(s.drop_first() =~= a.drop_first() + seq![x] + b);
        lemma_tokens_around_separator(a.drop_first(), x, b);
    } else {
        let k = char_class(a[0]);
        let n = run_len(a, k);
        lemma_run_len_bound(a, k);
        lemma_run_len_stop(a, k);
        let cur = a.take(n as int);
        let rest = a.skip(n as int);
        assert forall|i: int| 0 <= i < cur.len() implies char_class(#[trigger] cur[i]) == k by {
            assert(cur[i] == a[i]);
        }
        assert(a =~= cur + rest);
        if rest.len() > 0 {
            assert(rest[0] == a[n as int]);
        }
        lemma_tokens_split(cur, rest, k);
        let tail = rest + seq![x] + b;
        assert(s =~= cur + tail);
        assert(tail[0] == if rest.len() > 0 { rest[0] } else { x });
        lemma_tokens_split(cur, tail, k);
        lemma_tokens_around_separator(rest, x, b);
        assert(search_tokens(s) =~= run_tokens(k, cur) + (search_tokens(rest) + search_tokens(b)));
    }
}

/// Tokenizing canonical tokens joined with spaces gives them back.
pub proof fn lemma_tokens_of_joined(ts: Seq<Seq<char>>)
    requires
        forall|j: int| 0 <= j < ts.len() ==> canonical_token(#[trigger] ts[j]),
    ensures
        search_tokens(join(ts, seq![' '])) == ts,
    decreases ts.len(),
{
    if ts.len() == 1 {
        lemma_token_alone(ts[0]);
        assert(seq![ts[0]] =~= ts);
    } else if ts.len() > 1 {
        let init = ts.drop_last();
        assert forall|j: int| 0 <= j < init.len() implies canonical_token(#[trigger] init[j]) by {
            assert(init[j] == ts[j]);
        }
        lemma_tokens_of_joined(init);
        lemma_tokens_around_separator(join(init, seq![' ']), ' ', ts.last());
        assert(join(init, seq![' ']) + seq![' '] + ts.last() == join(ts, seq![' ']));
        lemma_token_alone(ts.last());
        assert(init + seq![ts.last()] =~= ts);
    }
}

/// Normalizing text twice is normalizing it once: the search terms of normalized
/// text are its own terms, so `normalize_search_text` and `normalize_query` give on
/// normalized text what they gave on the text it came from.
pub proof fn law_normalizing_twice_changes_nothing(s: Seq<char>)
    ensures
        search_tokens(join(search_tokens(s), seq![' '])) == search_tokens(s),
        join(search_tokens(join(search_tokens(s), seq![' '])), seq![' ']) == join(search_tokens(s), seq![' ']),
{
    lemma_tokens_canonical(s);
    lemma_tokens_of_joined(search_tokens(s));
}

/// The ASCII lowercase form of `c` (see `ascii_lower`).
pub(crate) fn to_ascii_lower(c: char) -> (r: char)
    ensures
        r == ascii_lower(c),
{
    if 'A' <= c && c <= 'Z' {
        let b = (c as u8) + 32;
        let r = b as char;
        assert(r == ((c as u32) + 32) as char);
        r
    } else {
        c
    }
}

/// Whether `c` is an ASCII letter or digit.
pub fn is_ascii_alnum_char(c: char) -> (r: bool)
    ensures
        r == is_ascii_alnum(c),
{
    ('0' <= c && c <= '9') || ('a' <= c && c <= 'z') || ('A' <= c && c <= 'Z')
}

/// Whether `c` is a Han character.
pub fn is_han_character(c: char) -> (r: bool)
    ensures
        r == is_han(c),
{
    ('\u{4E00}' <= c && c <= '\u{9FFF}') || ('\u{3400}' <= c && c <= '\u{4DBF}') || ('\u{20000}'
        <= c && c <= '\u{2A6DF}') || ('\u{2A700}' <= c && c <= '\u{2B73F}') || ('\u{2B740}' <= c
        && c <= '\u{2B81F}') || ('\u{2B820}' <= c && c <= '\u{2CEAF}') || ('\u{F900}' <= c && c
        <= '\u{FAFF}')
}

fn class_of(c: char) -> (r: u8)
    ensures
        r as int == char_class(c),
{
    if is_ascii_alnum_char(c) {
        1
    } else if is_han_character(c) {
        2
    } else {
        0
    }
}

fn flush_run(out: &mut Vec<Vec<char>>, k: u8, run: &Vec<char>)
    requires
        k == 1 || k == 2,
        run@.len() > 0,
    ensures
        final(out)@.map_values(|t: Vec<char>| t@) == old(out)@.map_values(|t: Vec<char>| t@)
            + run_tokens(k as int, run@),
{
    let ghost before = char_views(out@);
    if k == 1 {
        let mut low: Vec<char> = Vec::new();
        let mut i: usize = 0;
        while i < run.len()
            invariant
                i <= run@.len(),
                low@ == run@.take(i as int).map_values(|c: char| ascii_lower(c)),
            decreases run@.len() - i,
        {
            low.push(to_ascii_lower(run[i]));
            i += 1;
            proof {
                assert(run@.take(i as int).map_values(|c: char| ascii_lower(c)) =~= run@.take(
                    i - 1,
                ).map_values(|c: char| ascii_lower(c)).push(ascii_lower(run@[i - 1])));
            }
        }
        proof {
            assert(run@.take(run@.len() as int) =~= run@);
        }
        out.push(low);
        proof {
            assert(char_views(out@) =~= before + run_tokens(k as int, run@));
        }
    } else if run.len() == 1 {
        out.push(run.clone());
        proof {
            assert(char_views(out@) =~= before + run_tokens(k as int, run@));
        }
    } else {
        let ghost base = out@;
        let mut i: usize = 0;
        while i < run.len() - 1
            invariant
                run@.len() > 1,
                i < run@.len(),
                out@.len() == base.len() + i,
                forall|j: int| 0 <= j < base.len() ==> #[trigger] out@[j] == base[j],
                forall|j: int|
                    0 <= j < i ==> (#[trigger] out@[base.len() + j])@ == run@.subrange(j, j + 2),
            decreases run@.len() - i,
        {
            let mut pair: Vec<char> = Vec::new();
            pair.push(run[i]);
            pair.push(run[i + 1]);
            proof {
                assert(pair@ =~= run@.subrange(i as int, i + 2));
            }
            out.push(pair);
            i += 1;
        }
        proof {
            let rt = run_tokens(k as int, run@);
            assert(rt.len() == run@.len() - 1);
            assert(char_views(base) == before);
            let mv = char_views(out@);
            assert forall|j: int| 0 <= j < out@.len() implies #[trigger] mv[j] == (before + rt)[j] by {
                if j < base.len() {
                    assert(out@[j] == base[j]);
                } else {
                    let jj = j - base.len();
                    assert((out@[base.len() + jj])@ == run@.subrange(jj, jj + 2));
                }
            }
            assert(mv =~= before + rt);
        }
    }
}

/// Tokens of `input` as character vectors.
pub fn tokenize_chars(input: &[char]) -> (r: Vec<Vec<char>>)
    ensures
        char_views(r@) == search_tokens(input@),
{
    let mut out: Vec<Vec<char>> = Vec::new();
    let mut cur: Vec<char> = Vec::new();
    let mut cur_k: u8 = 0;
    let mut i: usize = 0;
    proof {
        assert(cur@ + input@.skip(0) =~= input@);
    }
    while i < input.len()
        invariant
            i <= input@.len(),
            cur_k <= 2,
            (cur_k == 0) == (cur@.len() == 0),
            forall|j: int| 0 <= j < cur@.len() ==> char_class(#[trigger] cur@[j]) == cur_k as int,
            char_views(out@) + search_tokens(cur@ + input@.skip(i as int))
                == search_tokens(input@),
        decreases input@.len() - i,
    {
        let c = input[i];
        let k = class_of(c);
        proof {
            assert(input@.skip(i as int)[0] == c);
        }
        if k == 0 {
            if cur_k != 0 {
                proof {
                    lemma_tokens_split(cur@, input@.skip(i as int), cur_k as int);
                }
                let ghost o = char_views(out@);
                flush_run(&mut out, cur_k, &cur);
                proof {
                    assert(o + (run_tokens(cur_k as int, cur@) + search_tokens(input@.skip(i as int)))
                        =~= char_views(out@) + search_tokens(input@.skip(i as int)));
                }
                cur = Vec::new();
                cur_k = 0;
            }
            proof {
                assert(cur@ + input@.skip(i as int) =~= input@.skip(i as int));
                lemma_tokens_skip_sep(input@, i as int);
                assert(cur@ + input@.skip(i + 1) =~= input@.skip(i + 1));
            }
        } else if k == cur_k {
            proof {
                assert(cur@ + input@.skip(i as int) =~= cur@.push(c) + input@.skip(i + 1));
            }
            cur.push(c);
        } else {
            if cur_k != 0 {
                proof {
                    lemma_tokens_split(cur@, input@.skip(i as int), cur_k as int);
                }
                let ghost o = char_views(out@);
                flush_run(&mut out, cur_k, &cur);
                proof {
                    assert(o + (run_tokens(cur_k as int, cur@) + search_tokens(input@.skip(i as int)))
                        =~= char_views(out@) + search_tokens(input@.skip(i as int)));
                }
            }
            proof {
                assert(Seq::<char>::empty() + input@.skip(i as int) =~= input@.skip(i as int));
            }
            cur = Vec::new();
            cur.push(c);
            cur_k = k;
            proof {
                assert(cur@ + input@.skip(i + 1) =~= input@.skip(i as int));
            }
        }
        i += 1;
    }
    proof {
        assert(input@.skip(i as int) =~= Seq::<char>::empty());
    }
    if cur_k != 0 {
        proof {
            lemma_tokens_split(cur@, Seq::<char>::empty(), cur_k as int);
            assert(cur@ + Seq::<char>::empty() =~= cur@);
        }
        let ghost o = char_views(out@);
        flush_run(&mut out, cur_k, &cur);
        proof {
            assert(search_tokens(Seq::<char>::empty()) =~= Seq::<Seq<char>>::empty());
            assert(o + (run_tokens(cur_k as int, cur@) + Seq::<Seq<char>>::empty())
                =~= char_views(out@));
        }
    } else {
        proof {
            assert(cur@ + input@.skip(i as int) =~= Seq::<char>::empty());
            assert(char_views(out@) + Seq::<Seq<char>>::empty() =~= char_views(out@));
        }
    }
    out
}

/// Strings made of the character vectors in `parts`.
pub fn strings_of(parts: &Vec<Vec<char>>) -> (r: Vec<String>)
    ensures
        string_views(r@) == char_views(parts@),
{
    let mut out: Vec<String> = Vec::new();
    let mut i: usize = 0;
    while i < parts.len()
        invariant
            i <= parts@.len(),
            out@.len() == i,
            forall|j: int| 0 <= j < i ==> (#[trigger] out@[j])@ == parts@[j]@,
        decreases parts@.len() - i,
    {
        out.push(string_of(parts[i].as_slice()));
        i += 1;
    }
    proof {
        assert(string_views(out@) =~= char_views(parts@));
    }
    out
}

/// Character vectors of the strings in `parts`.
pub fn char_vecs_of(parts: &[String]) -> (r: Vec<Vec<char>>)
    ensures
        char_views(r@) == string_views(parts@),
{
    let mut out: Vec<Vec<char>> = Vec::new();
    let mut i: usize = 0;
    while i < parts.len()
        invariant
            i <= parts@.len(),
            out@.len() == i,
            forall|j: int| 0 <= j < i ==> (#[trigger] out@[j])@ == parts@[j]@,
        decreases parts@.len() - i,
    {
        out.push(chars_of(parts[i].as_str()));
        i += 1;
    }
    proof {
        assert(char_views(out@) =~= string_views(parts@));
    }
    out
}

/// The search terms of a query: lowercase ASCII words and Han bigrams, in order.
pub fn normalize_query(query: &str) -> (r: Vec<String>)
    ensures
        string_views(r@) == search_tokens(query@),
{
    tokenize_search_text(query)
}

/// Splits `input` into runs of ASCII letters and digits (lowercased) and runs of Han
/// characters (a lone character, or each pair of neighbours); everything else separates.
fn tokenize_search_text(input: &str) -> (r: Vec<String>)
    ensures
        string_views(r@) == search_tokens(input@),
{
    let cs = chars_of(input);
    let toks = tokenize_chars(cs.as_slice());
    strings_of(&toks)
}

/// The search terms of `input` joined with single spaces.
pub fn normalize_search_text(input: &str) -> (r: String)
    ensures
        r@ == join(search_tokens(input@), seq![' ']),
{
    let cs = chars_of(input);
    let toks = tokenize_chars(cs.as_slice());
    let mut sep: Vec<char> = Vec::new();
    sep.push(' ');
    proof {
        assert(sep@ =~= seq![' ']);
    }
    let joined = join_chars(&toks, sep.as_slice());
    string_of(joined.as_slice())
}


/// ASCII letters and digits make words: a text made only of ASCII letters and
/// digits is one search term, the whole text with its ASCII capitals made
/// lowercase. Digits are word characters like letters.
pub proof fn law_ascii_words_are_whole_terms(s: Seq<char>)
    requires
        s.len() > 0,
        forall|i: int| 0 <= i < s.len() ==> {
            let c = #[trigger] s[i];
            ('0' <= c && c <= '9') || ('a' <= c && c <= 'z') || ('A' <= c && c <= 'Z')
        },
    ensures
        search_tokens(s) == seq![Seq::new(s.len(), |i: int| if 'A' <= s[i] && s[i] <= 'Z' { ((s[i] as u32) + 32) as char } else { s[i] })],
        forall|c: char| '0' <= c && c <= '9' ==> #[trigger] char_class(c) == char_class('a') && char_class(c) != 0,
{
    assert forall|i: int| 0 <= i < s.len() implies char_class(#[trigger] s[i]) == 1 by {}
    lemma_tokens_split(s, Seq::<char>::empty(), 1);
    assert(s + Seq::<char>::empty() =~= s);
    assert(s.map_values(|c: char| ascii_lower(c)) =~= Seq::new(s.len(), |i: int| if 'A' <= s[i] && s[i] <= 'Z' { ((s[i] as u32) + 32) as char } else { s[i] }));
    assert(run_tokens(1, s) + search_tokens(Seq::<char>::empty()) =~= seq![s.map_values(|c: char| ascii_lower(c))]);
}


/// Runs of Chinese characters are cut into overlapping pairs: a text made only
/// of CJK unified ideographs gives itself when it is one character long, and
/// otherwise every pair of neighbouring characters, in order.
pub proof fn law_han_runs_make_bigrams(s: Seq<char>)
    requires
        s.len() > 0,
        forall|i: int| 0 <= i < s.len() ==> '\u{4E00}' <= #[trigger] s[i] && s[i] <= '\u{9FFF}',
    ensures
        s.len() == 1 ==> search_tokens(s) == seq![s],
        s.len() >= 2 ==> search_tokens(s).len() == s.len() - 1
            && forall|i: int| 0 <= i < s.len() - 1 ==> #[trigger] search_tokens(s)[i] == seq![s[i], s[i + 1]],
{
    assert forall|i: int| 0 <= i < s.len() implies char_class(#[trigger] s[i]) == 2 by {}
    lemma_tokens_split(s, Seq::<char>::empty(), 2);
    assert(s + Seq::<char>::empty() =~= s);
    assert(search_tokens(s) =~= run_tokens(2, s));
    if s.len() == 1 {
        assert(run_tokens(2, s) =~= seq![s]);
    } else {
        assert forall|i: int| 0 <= i < s.len() - 1 implies #[trigger] search_tokens(s)[i] == seq![s[i], s[i + 1]] by {
            assert(s.subrange(i, i + 2) =~= seq![s[i], s[i + 1]]);
        }
    }
}

/// A space separates terms: the terms of two texts joined by a space are the
/// terms of the first followed by the terms of the second.
pub proof fn law_space_separates_terms(a: Seq<char>, b: Seq<char>)
    ensures
        search_tokens(a + seq![' '] + b) == search_tokens(a) + search_tokens(b),
{
    lemma_tokens_around_separator(a, ' ', b);
}

} // verus!
