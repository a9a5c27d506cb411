//! Character-level text primitives shared by the search, scanning and
//! question-answering logic. Strings are handled as sequences of `char`s.
use vstd::prelude::*;

verus! {

broadcast use vstd::string::group_string_axioms;

// ---------------------------------------------------------------------------
// Specifications
// ---------------------------------------------------------------------------

/// Unicode `White_Space` characters (what `char::is_whitespace` accepts).
pub open spec fn is_ws(c: char) -> bool {
    ||| c == '\t'
    ||| c == '\n'
    ||| c == '\u{0B}'
    ||| c == '\u{0C}'
    ||| c == '\r'
    ||| c == ' '
    ||| c == '\u{85}'
    ||| c == '\u{A0}'
    ||| c == '\u{1680}'
    ||| ('\u{2000}' <= c && c <= '\u{200A}')
    ||| c == '\u{2028}'
    ||| c == '\u{2029}'
    ||| c == '\u{202F}'
    ||| c == '\u{205F}'
    ||| c == '\u{3000}'
}

/// `s` without its leading whitespace.
pub open spec fn trim_start(s: Seq<char>) -> Seq<char>
    decreases s.len(),
{
    if s.len() > 0 && is_ws(s[0]) {
        trim_start(s.drop_first())
    } else {
        s
    }
}

/// `s` without its trailing whitespace.
pub open spec fn trim_end(s: Seq<char>) -> Seq<char>
    decreases s.len(),
{
    if s.len() > 0 && is_ws(s.last()) {
        trim_end(s.drop_last())
    } else {
        s
    }
}

/// `s` without leading and trailing whitespace (`str::trim`).
pub open spec fn trim(s: Seq<char>) -> Seq<char> {
    trim_end(trim_start(s))
}

/// `s` without every trailing occurrence of `c` (`str::trim_end_matches` with a char).
pub open spec fn trim_end_char(s: Seq<char>, c: char) -> Seq<char>
    decreases s.len(),
{
    if s.len() > 0 && s.last() == c {
        trim_end_char(s.drop_last(), c)
    } else {
        s
    }
}

/// `p` is a prefix of `s`.
pub open spec fn starts_with(s: Seq<char>, p: Seq<char>) -> bool {
    p.len() <= s.len() && s.subrange(0, p.len() as int) == p
}

/// `p` is a suffix of `s`.
pub open spec fn ends_with(s: Seq<char>, p: Seq<char>) -> bool {
    p.len() <= s.len() && s.subrange(s.len() - p.len(), s.len() as int) == p
}

/// `n` occurs in `h` at position `i`.
pub open spec fn occurs_at(h: Seq<char>, n: Seq<char>, i: int) -> bool {
    0 <= i && i + n.len() <= h.len() && h.subrange(i, i + n.len()) == n
}

/// `n` occurs somewhere in `h` (`str::contains`).
pub open spec fn contains(h: Seq<char>, n: Seq<char>) -> bool {
    exists|i: int| occurs_at(h, n, i)
}

/// Every non-overlapping occurrence of `from` (taken left to right) replaced
/// by `to` (`str::replace`, for a non-empty pattern).
pub open spec fn replace_all(s: Seq<char>, from: Seq<char>, to: Seq<char>) -> Seq<char>
    decreases s.len(),
{
    if from.len() == 0 || s.len() == 0 {
        s
    } else if starts_with(s, from) {
        to + replace_all(s.skip(from.len() as int), from, to)
    } else {
        seq![s[0]] + replace_all(s.drop_first(), from, to)
    }
}

/// Every maximal run of whitespace in `s` replaced by a single space.
pub open spec fn squash_ws(s: Seq<char>) -> Seq<char>
    decreases s.len(),
{
    if s.len() == 0 {
        s
    } else if is_ws(s.last()) {
        if s.len() > 1 && is_ws(s[s.len() - 2]) {
            squash_ws(s.drop_last())
        } else {
            squash_ws(s.drop_last()).push(' ')
        }
    } else {
        squash_ws(s.drop_last()).push(s.last())
    }
}

/// Whitespace runs collapsed to one space, then trimmed; this is also what
/// `split_whitespace().join(" ")` gives.
pub open spec fn collapse_ws(s: Seq<char>) -> Seq<char> {
    trim(squash_ws(s))
}

/// The first `n` characters of `s` (all of them where `s` is shorter).
pub open spec fn take_chars(s: Seq<char>, n: nat) -> Seq<char> {
    if s.len() <= n {
        s
    } else {
        s.take(n as int)
    }
}

/// `parts` joined with `sep` between consecutive parts.
pub open spec fn join(parts: Seq<Seq<char>>, sep: Seq<char>) -> Seq<char>
    decreases parts.len(),
{
    if parts.len() == 0 {
        Seq::empty()
    } else if parts.len() == 1 {
        parts[0]
    } else {
        join(parts.drop_last(), sep) + sep + parts.last()
    }
}

/// Decimal digits of `n`, without leading zeros.
pub open spec fn decimal(n: nat) -> Seq<char>
    decreases n,
{
    if n < 10 {
        seq![digit_char(n)]
    } else {
        decimal(n / 10).push(digit_char(n % 10))
    }
}

/// The ASCII digit for `d < 10`.
pub open spec fn digit_char(d: nat) -> char {
    if d == 0 { '0' }
    else if d == 1 { '1' }
    else if d == 2 { '2' }
    else if d == 3 { '3' }
    else if d == 4 { '4' }
    else if d == 5 { '5' }
    else if d == 6 { '6' }
    else if d == 7 { '7' }
    else if d == 8 { '8' }
    else { '9' }
}

/// The character sequences of a list of strings.
pub open spec fn string_views(v: Seq<String>) -> Seq<Seq<char>> {
    v.map_values(|t: String| t@)
}

/// The character sequences of a list of character vectors.
pub open spec fn char_views(v: Seq<Vec<char>>) -> Seq<Seq<char>> {
    v.map_values(|t: Vec<char>| t@)
}

/// The lowercase form of `s` that `str::to_lowercase` produces (Unicode rules).
pub uninterp spec fn lowercase(s: Seq<char>) -> Seq<char>;

// ---------------------------------------------------------------------------
// Lemmas
// ---------------------------------------------------------------------------

pub proof fn lemma_trim_start_skip(s: Seq<char>, i: int)
    requires
        0 <= i <= s.len(),
        forall|k: int| 0 <= k < i ==> is_ws(#[trigger] s[k]),
    ensures
        trim_start(s) == trim_start(s.skip(i)),
    decreases i,
{
    if i > 0 {
        assert(s.skip(1) =~= s.drop_first());
        lemma_trim_start_skip(s.drop_first(), i - 1);
        assert(s.drop_first().skip(i - 1) =~= s.skip(i));
    } else {
        assert(s.skip(0) =~= s);
    }
}

pub proof fn lemma_trim_end_take(s: Seq<char>, j: int)
    requires
        0 <= j <= s.len(),
        forall|k: int| j <= k < s.len() ==> is_ws(#[trigger] s[k]),
    ensures
        trim_end(s) == trim_end(s.take(j)),
    decreases s.len() - j,
{
    if j < s.len() {
        lemma_trim_end_take(s.drop_last(), j);
        assert(s.drop_last().take(j) =~= s.take(j));
    } else {
        assert(s.take(j) =~= s);
    }
}

pub proof fn lemma_trim_end_char_take(s: Seq<char>, c: char, j: int)
    requires
        0 <= j <= s.len(),
        forall|k: int| j <= k < s.len() ==> #[trigger] s[k] == c,
    ensures
        trim_end_char(s, c) == trim_end_char(s.take(j), c),
    decreases s.len() - j,
{
    if j < s.len() {
        lemma_trim_end_char_take(s.drop_last(), c, j);
        assert(s.drop_last().take(j) =~= s.take(j));
    } else {
        assert(s.take(j) =~= s);
    }
}

pub proof fn lemma_trim_start_shape(s: Seq<char>)
    ensures
        trim_start(s).len() <= s.len(),
        trim_start(s) =~= s.skip(s.len() - trim_start(s).len()),
        trim_start(s).len() > 0 ==> !is_ws(trim_start(s)[0]),
    decreases s.len(),
{
    if s.len() > 0 && is_ws(s[0]) {
        lemma_trim_start_shape(s.drop_first());
    }
}

pub proof fn lemma_trim_end_shape(s: Seq<char>)
    ensures
        trim_end(s).len() <= s.len(),
        trim_end(s) =~= s.take(trim_end(s).len() as int),
        trim_end(s).len() > 0 ==> !is_ws(trim_end(s).last()),
    decreases s.len(),
{
    if s.len() > 0 && is_ws(s.last()) {
        lemma_trim_end_shape(s.drop_last());
    }
}

/// Where `trim(s)` starts inside `s`.
pub open spec fn trim_offset(s: Seq<char>) -> int {
    s.len() - trim_start(s).len()
}

pub proof fn lemma_trim_shape(s: Seq<char>)
    ensures
        trim(s).len() <= s.len(),
        trim(s).len() > 0 ==> !is_ws(trim(s)[0]) && !is_ws(trim(s).last()),
        0 <= trim_offset(s),
        trim_offset(s) + trim(s).len() <= s.len(),
        trim(s) =~= s.subrange(trim_offset(s), trim_offset(s) + trim(s).len()),
{
    lemma_trim_start_shape(s);
    lemma_trim_end_shape(trim_start(s));
    let a = s.len() - trim_start(s).len();
    assert(trim(s) =~= s.subrange(a, a + trim(s).len()));
}

pub proof fn lemma_replace_step(s: Seq<char>, from: Seq<char>, to: Seq<char>, i: int)
    requires
        from.len() > 0,
        0 <= i < s.len(),
    ensures
        starts_with(s.skip(i), from) ==> replace_all(s.skip(i), from, to) == to + replace_all(
            s.skip(i + from.len()),
            from,
            to,
        ),
        !starts_with(s.skip(i), from) ==> replace_all(s.skip(i), from, to) == seq![s[i]]
            + replace_all(s.skip(i + 1), from, to),
{
    let t = s.skip(i);
    if starts_with(t, from) {
        assert(t.skip(from.len() as int) =~= s.skip(i + from.len()));
    } else {
        assert(t.drop_first() =~= s.skip(i + 1));
    }
}

pub proof fn lemma_contains_push<A>(s: Seq<A>, x: A, y: A)
    ensures
        s.push(x).contains(y) == (s.contains(y) || x == y),
{
    if s.push(x).contains(y) {
        let k = choose|k: int| 0 <= k < s.push(x).len() && s.push(x)[k] == y;
        if k < s.len() {
            assert(s[k] == y);
        }
    }
    if s.contains(y) {
        let k = choose|k: int| 0 <= k < s.len() && s[k] == y;
        assert(s.push(x)[k] == y);
    }
    if x == y {
        assert(s.push(x)[s.len() as int] == y);
    }
}

pub proof fn lemma_join_push(parts: Seq<Seq<char>>, sep: Seq<char>, x: Seq<char>)
    ensures
        join(parts.push(x), sep) == if parts.len() == 0 { x } else { join(parts, sep) + sep + x },
{
    assert(parts.push(x).drop_last() =~= parts);
}

// ---------------------------------------------------------------------------
// Executable functions
// ---------------------------------------------------------------------------

/// The characters of `s`, in order.
pub fn chars_of(s: &str) -> (r: Vec<char>)
    ensures
        r@ == s@,
{
    let mut out: Vec<char> = Vec::new();
    for c in iter: s.chars()
        invariant
            iter.seq() == s@,
            out@ == iter.seq().take(iter.index() as int),
    {
        out.push(c);
    }
    out
}

/// `String::push`: appends one character.
#[verifier::external_body]
fn push_char(s: &mut String, c: char)
    ensures
        final(s)@ == old(s)@.push(c),
{
    s.push(c);
}

/// The string made of the characters of `cs`.
pub fn string_of(cs: &[char]) -> (r: String)
    ensures
        r@ == cs@,
{
    let mut out = String::new();
    let mut i: usize = 0;
    while i < cs.len()
        invariant
            i <= cs@.len(),
            out@ == cs@.take(i as int),
        decreases cs@.len() - i,
    {
        push_char(&mut out, cs[i]);
        i += 1;
        proof {
            assert(cs@.take(i as int) =~= cs@.take(i - 1).push(cs@[i - 1]));
        }
    }
    proof {
        assert(cs@.take(cs@.len() as int) =~= cs@);
    }
    out
}

/// `str::to_lowercase`: the Unicode lowercase form of `s`.
#[verifier::external_body]
pub(crate) fn lowercase_str(s: &str) -> (r: String)
    ensures
        r@ == lowercase(s@),
{
    s.to_lowercase()
}

/// Lowercase form of a character sequence.
pub fn lower_chars(s: &[char]) -> (r: Vec<char>)
    ensures
        r@ == lowercase(s@),
{
    let st = string_of(s);
    let low = lowercase_str(st.as_str());
    chars_of(low.as_str())
}

/// Whether `c` is whitespace (`char::is_whitespace`).
pub fn is_ws_char(c: char) -> (r: bool)
    ensures
        r == is_ws(c),
{
    c == '\t' || c == '\n' || c == '\u{0B}' || c == '\u{0C}' || c == '\r' || c == ' ' || c
        == '\u{85}' || c == '\u{A0}' || c == '\u{1680}' || ('\u{2000}' <= c && c <= '\u{200A}')
        || c == '\u{2028}' || c == '\u{2029}' || c == '\u{202F}' || c == '\u{205F}' || c
        == '\u{3000}'
}

/// A copy of `s[from..to]`.
pub fn copy_range(s: &[char], from: usize, to: usize) -> (r: Vec<char>)
    requires
        from <= to <= s@.len(),
    ensures
        r@ == s@.subrange(from as int, to as int),
{
    let mut out: Vec<char> = Vec::new();
    let mut i = from;
    while i < to
        invariant
            from <= i <= to <= s@.len(),
            out@ == s@.subrange(from as int, i as int),
        decreases to - i,
    {
        out.push(s[i]);
        i += 1;
        proof {
            assert(s@.subrange(from as int, i as int) =~= s@.subrange(from as int, i - 1).push(s@[i - 1]));
        }
    }
    out
}

/// `s` with whitespace removed from both ends.
pub fn trim_chars(s: &[char]) -> (r: Vec<char>)
    ensures
        r@ == trim(s@),
{
    let n = s.len();
    let mut i: usize = 0;
    while i < n && is_ws_char(s[i])
        invariant
            i <= n == s@.len(),
            forall|k: int| 0 <= k < i ==> is_ws(#[trigger] s@[k]),
        decreases n - i,
    {
        i += 1;
    }
    let mut j: usize = n;
    while j > i && is_ws_char(s[j - 1])
        invariant
            i <= j <= n == s@.len(),
            forall|k: int| j <= k < n ==> is_ws(#[trigger] s@[k]),
        decreases j,
    {
        j -= 1;
    }
    proof {
        lemma_trim_start_skip(s@, i as int);
        let t = s@.skip(i as int);
        assert(trim_start(t) == t);
        let jj = (j - i) as int;
        assert forall|k: int| jj <= k < t.len() implies is_ws(#[trigger] t[k]) by {
            assert(t[k] == s@[k + i]);
        }
        lemma_trim_end_take(t, jj);
        let u = t.take(jj);
        assert(u =~= s@.subrange(i as int, j as int));
        if u.len() > 0 {
            assert(u.last() == s@[j - 1]);
        }
        assert(trim_end(u) == u);
    }
    copy_range(s, i, j)
}

/// `s` with its leading whitespace removed.
pub fn trim_start_chars(s: &[char]) -> (r: Vec<char>)
    ensures
        r@ == trim_start(s@),
{
    let n = s.len();
    let mut i: usize = 0;
    while i < n && is_ws_char(s[i])
        invariant
            i <= n == s@.len(),
            forall|k: int| 0 <= k < i ==> is_ws(#[trigger] s@[k]),
        decreases n - i,
    {
        i += 1;
    }
    proof {
        lemma_trim_start_skip(s@, i as int);
        let t = s@.skip(i as int);
        assert(trim_start(t) == t);
        assert(t =~= s@.subrange(i as int, n as int));
    }
    copy_range(s, i, n)
}

/// `str::trim` on a string.
pub fn trim_str(s: &str) -> (r: String)
    ensures
        r@ == trim(s@),
{
    let cs = chars_of(s);
    let t = trim_chars(cs.as_slice());
    string_of(t.as_slice())
}

/// `s` without every trailing `c`.
pub fn trim_end_char_chars(s: &[char], c: char) -> (r: Vec<char>)
    ensures
        r@ == trim_end_char(s@, c),
{
    let mut j: usize = s.len();
    while j > 0 && s[j - 1] == c
        invariant
            j <= s@.len(),
            forall|k: int| j <= k < s@.len() ==> #[trigger] s@[k] == c,
        decreases j,
    {
        j -= 1;
    }
    proof {
        lemma_trim_end_char_take(s@, c, j as int);
        let u = s@.take(j as int);
        if u.len() > 0 {
            assert(u.last() == s@[j - 1]);
        }
    }
    copy_range(s, 0, j)
}

/// Whether `p` is a prefix of `s`.
pub fn has_prefix(s: &[char], p: &[char]) -> (r: bool)
    ensures
        r == starts_with(s@, p@),
{
    if p.len() > s.len() {
        return false;
    }
    let mut i: usize = 0;
    while i < p.len()
        invariant
            i <= p@.len() <= s@.len(),
            forall|k: int| 0 <= k < i ==> s@[k] == p@[k],
        decreases p@.len() - i,
    {
        if s[i] != p[i] {
            proof {
                assert(s@.subrange(0, p@.len() as int)[i as int] != p@[i as int]);
            }
            return false;
        }
        i += 1;
    }
    proof {
        assert(s@.subrange(0, p@.len() as int) =~= p@);
    }
    true
}

/// Whether `n` occurs in `h` at position `at`.
pub fn occurs_at_exec(h: &[char], n: &[char], at: usize) -> (r: bool)
    ensures
        r == occurs_at(h@, n@, at as int),
{
    let hl = h.len();
    if at > hl || n.len() > hl - at {
        return false;
    }
    let mut i: usize = 0;
    while i < n.len()
        invariant
            hl == h@.len(),
            at + n@.len() <= h@.len(),
            i <= n@.len(),
            forall|k: int| 0 <= k < i ==> h@[at + k] == n@[k],
        decreases n@.len() - i,
    {
        assert(at + i < h@.len());
        if h[at + i] != n[i] {
            proof {
                assert(h@.subrange(at as int, at + n@.len())[i as int] != n@[i as int]);
            }
            return false;
        }
        i += 1;
    }
    proof {
        assert(h@.subrange(at as int, at + n@.len()) =~= n@);
    }
    true
}

/// Whether `a` and `b` hold the same characters.
pub fn chars_eq(a: &[char], b: &[char]) -> (r: bool)
    ensures
        r == (a@ == b@),
{
    let r = a.len() == b.len() && has_prefix(a, b);
    proof {
        assert(a@.subrange(0, a@.len() as int) =~= a@);
    }
    r
}

/// Whether two strings hold the same characters.
pub fn str_eq(a: &str, b: &str) -> (r: bool)
    ensures
        r == (a@ == b@),
{
    chars_eq(chars_of(a).as_slice(), chars_of(b).as_slice())
}

/// `a` followed by `b`.
pub fn concat_str(a: &str, b: &str) -> (r: String)
    ensures
        r@ == a@ + b@,
{
    let mut out = chars_of(a);
    append_str(&mut out, b);
    string_of(out.as_slice())
}

/// Whether the list holds the string `x`.
pub fn list_contains(v: &Vec<String>, x: &str) -> (r: bool)
    ensures
        r == string_views(v@).contains(x@),
{
    let key = x.to_owned();
    let mut i: usize = 0;
    while i < v.len()
        invariant
            i <= v@.len(),
            key@ == x@,
            forall|k: int| 0 <= k < i ==> v@[k]@ != x@,
        decreases v@.len() - i,
    {
        if v[i] == key {
            proof {
                assert(string_views(v@)[i as int] == x@);
            }
            return true;
        }
        i += 1;
    }
    proof {
        if string_views(v@).contains(x@) {
            let k = choose|k: int| 0 <= k < string_views(v@).len() && string_views(v@)[k] == x@;
            assert(v@[k]@ == x@);
        }
    }
    false
}

/// Whether `p` is a suffix of `s`.
pub fn has_suffix(s: &[char], p: &[char]) -> (r: bool)
    ensures
        r == ends_with(s@, p@),
{
    if p.len() > s.len() {
        return false;
    }
    occurs_at_exec(s, p, s.len() - p.len())
}

/// The first position at or after `from` where `n` occurs in `h`.
pub fn find_from(h: &[char], n: &[char], from: usize) -> (r: Option<usize>)
    ensures
        match r {
            Some(i) => from <= i && occurs_at(h@, n@, i as int) && forall|k: int|
                from <= k < i ==> !occurs_at(h@, n@, k),
            None => forall|k: int| from <= k ==> !occurs_at(h@, n@, k),
        },
{
    if n.len() > h.len() || from > h.len() - n.len() {
        return None;
    }
    let last = h.len() - n.len();
    let mut i = from;
    loop
        invariant
            from <= i <= last,
            last == h@.len() - n@.len(),
            forall|k: int| from <= k < i ==> !occurs_at(h@, n@, k),
        decreases last - i,
    {
        if occurs_at_exec(h, n, i) {
            return Some(i);
        }
        if i >= last {
            return None;
        }
        i += 1;
    }
}

/// Whether `n` occurs in `h` (`str::contains`).
pub fn contains_chars(h: &[char], n: &[char]) -> (r: bool)
    ensures
        r == contains(h@, n@),
{
    match find_from(h, n, 0) {
        Some(_) => true,
        None => false,
    }
}

/// Every non-overlapping occurrence of `from` replaced by `to` (`str::replace`).
pub fn replace_chars(s: &[char], from: &[char], to: &[char]) -> (r: Vec<char>)
    requires
        from@.len() > 0,
    ensures
        r@ == replace_all(s@, from@, to@),
{
    let mut out: Vec<char> = Vec::new();
    let mut i: usize = 0;
    proof {
        assert(s@.skip(0) =~= s@);
        assert(out@ + replace_all(s@, from@, to@) =~= replace_all(s@, from@, to@));
    }
    while i < s.len()
        invariant
            from@.len() > 0,
            i <= s@.len(),
            out@ + replace_all(s@.skip(i as int), from@, to@) == replace_all(s@, from@, to@),
        decreases s@.len() - i,
    {
        proof {
            lemma_replace_step(s@, from@, to@, i as int);
        }
        let ghost before = out@;
        if occurs_at_exec(s, from, i) {
            proof {
                assert(s@.skip(i as int).subrange(0, from@.len() as int) =~= s@.subrange(i as int, i + from@.len()));
            }
            let mut k: usize = 0;
            while k < to.len()
                invariant
                    k <= to@.len(),
                    out@ == before + to@.take(k as int),
                decreases to@.len() - k,
            {
                out.push(to[k]);
                k += 1;
                proof {
                    assert(to@.take(k as int) =~= to@.take(k - 1).push(to@[k - 1]));
                }
            }
            proof {
                assert(to@.take(to@.len() as int) =~= to@);
                assert(before + (to@ + replace_all(s@.skip(i + from@.len()), from@, to@)) =~= out@ + replace_all(s@.skip(i + from@.len()), from@, to@));
            }
            i = i + from.len();
        } else {
            proof {
                assert(!starts_with(s@.skip(i as int), from@)) by {
                    if starts_with(s@.skip(i as int), from@) {
                        assert(s@.skip(i as int).subrange(0, from@.len() as int) =~= s@.subrange(i as int, i + from@.len()));
                    }
                }
            }
            out.push(s[i]);
            proof {
                assert(before + (seq![s@[i as int]] + replace_all(s@.skip(i + 1), from@, to@)) =~= out@ + replace_all(s@.skip(i + 1), from@, to@));
            }
            i = i + 1;
        }
    }
    proof {
        assert(s@.skip(i as int).len() == 0);
        assert(out@ + replace_all(s@.skip(i as int), from@, to@) =~= out@);
    }
    out
}

/// Whitespace runs collapsed to single spaces, then trimmed.
pub fn collapse_ws_chars(s: &[char]) -> (r: Vec<char>)
    ensures
        r@ == collapse_ws(s@),
{
    let mut out: Vec<char> = Vec::new();
    let mut last_was_space = false;
    let mut i: usize = 0;
    while i < s.len()
        invariant
            i <= s@.len(),
            out@ == squash_ws(s@.take(i as int)),
            last_was_space == (i > 0 && is_ws(s@[i - 1])),
        decreases s@.len() - i,
    {
        let c = s[i];
        proof {
            let t = s@.take(i + 1);
            assert(t.drop_last() =~= s@.take(i as int));
            assert(t.last() == c);
            if i > 0 {
                assert(t[t.len() - 2] == s@[i - 1]);
            }
        }
        if is_ws_char(c) {
            if !last_was_space {
                out.push(' ');
            }
            last_was_space = true;
        } else {
            out.push(c);
            last_was_space = false;
        }
        i += 1;
    }
    proof {
        assert(s@.take(s@.len() as int) =~= s@);
    }
    trim_chars(out.as_slice())
}

/// The first `n` characters of `s`.
pub fn take_prefix(s: &[char], n: usize) -> (r: Vec<char>)
    ensures
        r@ == take_chars(s@, n as nat),
{
    if s.len() <= n {
        proof {
            assert(s@.subrange(0, s@.len() as int) =~= s@);
        }
        copy_range(s, 0, s.len())
    } else {
        copy_range(s, 0, n)
    }
}

/// Appends all of `t` to `out`.
pub fn append_chars(out: &mut Vec<char>, t: &[char])
    ensures
        final(out)@ == old(out)@ + t@,
{
    let ghost start = out@;
    let mut k: usize = 0;
    while k < t.len()
        invariant
            k <= t@.len(),
            out@ == start + t@.take(k as int),
        decreases t@.len() - k,
    {
        out.push(t[k]);
        k += 1;
        proof {
            assert(t@.take(k as int) =~= t@.take(k - 1).push(t@[k - 1]));
        }
    }
    proof {
        assert(t@.take(t@.len() as int) =~= t@);
    }
}

/// Appends the characters of `t` to `out`.
pub fn append_str(out: &mut Vec<char>, t: &str)
    ensures
        final(out)@ == old(out)@ + t@,
{
    let cs = chars_of(t);
    append_chars(out, cs.as_slice());
}

/// The parts joined with `sep`.
pub fn join_chars(parts: &Vec<Vec<char>>, sep: &[char]) -> (r: Vec<char>)
    ensures
        r@ == join(parts@.map_values(|p: Vec<char>| p@), sep@),
{
    let ghost views = parts@.map_values(|p: Vec<char>| p@);
    let mut out: Vec<char> = Vec::new();
    let mut i: usize = 0;
    while i < parts.len()
        invariant
            i <= parts@.len(),
            views == parts@.map_values(|p: Vec<char>| p@),
            out@ == join(views.take(i as int), sep@),
        decreases parts@.len() - i,
    {
        proof {
            lemma_join_push(views.take(i as int), sep@, views[i as int]);
            assert(views.take(i as int).push(views[i as int]) =~= views.take(i + 1));
        }
        if i > 0 {
            append_chars(&mut out, sep);
        }
        append_chars(&mut out, parts[i].as_slice());
        i += 1;
    }
    proof {
        assert(views.take(parts@.len() as int) =~= views);
    }
    out
}

/// The decimal digits of `n`.
pub fn decimal_chars(n: u64) -> (r: Vec<char>)
    ensures
        r@ == decimal(n as nat),
    decreases n,
{
    let d = n % 10;
    let c = if d == 0 { '0' } else if d == 1 { '1' } else if d == 2 { '2' } else if d == 3 { '3' }
        else if d == 4 { '4' } else if d == 5 { '5' } else if d == 6 { '6' } else if d == 7 { '7' }
        else if d == 8 { '8' } else { '9' };
    if n < 10 {
        let mut v: Vec<char> = Vec::new();
        v.push(c);
        proof {
            assert(v@ =~= seq![digit_char(n as nat)]);
        }
        v
    } else {
        let mut v = decimal_chars(n / 10);
        v.push(c);
        v
    }
}


/// The first position at or after `from` where `n` occurs in `h`.
pub open spec fn first_occ(h: Seq<char>, n: Seq<char>, from: int) -> Option<int>
    decreases h.len() + 1 - from,
{
    if from < 0 || from + n.len() > h.len() {
        None
    } else if occurs_at(h, n, from) {
        Some(from)
    } else {
        first_occ(h, n, from + 1)
    }
}

proof fn lemma_first_occ_found(h: Seq<char>, n: Seq<char>, from: int, k: int)
    requires
        0 <= from <= k,
        occurs_at(h, n, k),
        forall|j: int| from <= j < k ==> !occurs_at(h, n, j),
    ensures
        first_occ(h, n, from) == Some(k),
    decreases k - from,
{
    if from < k {
        lemma_first_occ_found(h, n, from + 1, k);
    }
}

proof fn lemma_first_occ_none(h: Seq<char>, n: Seq<char>, from: int)
    requires
        0 <= from,
        forall|j: int| from <= j ==> !occurs_at(h, n, j),
    ensures
        first_occ(h, n, from) is None,
    decreases h.len() + 1 - from,
{
    if from + n.len() <= h.len() {
        lemma_first_occ_none(h, n, from + 1);
    }
}

pub proof fn lemma_first_occ_bounds(h: Seq<char>, n: Seq<char>, from: int)
    ensures
        match first_occ(h, n, from) {
            Some(k) => from <= k && k + n.len() <= h.len() && occurs_at(h, n, k),
            None => true,
        },
    decreases h.len() + 1 - from,
{
    if from >= 0 && from + n.len() <= h.len() && !occurs_at(h, n, from) {
        lemma_first_occ_bounds(h, n, from + 1);
    }
}

/// The first position at or after `from` where `n` occurs in `h` (`str::find`).
pub fn find_first(h: &[char], n: &[char], from: usize) -> (r: Option<usize>)
    ensures
        match first_occ(h@, n@, from as int) {
            Some(k) => r == Some(k as usize) && from <= k && k + n@.len() <= h@.len() && occurs_at(h@, n@, k),
            None => r is None,
        },
{
    let r = find_from(h, n, from);
    proof {
        lemma_first_occ_bounds(h@, n@, from as int);
        match r {
            Some(k) => lemma_first_occ_found(h@, n@, from as int, k as int),
            None => lemma_first_occ_none(h@, n@, from as int),
        }
    }
    r
}


// ---------------------------------------------------------------------------
// Numbers
// ---------------------------------------------------------------------------

/// Every character is an ASCII digit.
pub open spec fn all_digits(s: Seq<char>) -> bool {
    forall|i: int| 0 <= i < s.len() ==> '0' <= #[trigger] s[i] <= '9'
}

/// The value of a string of ASCII digits.
pub open spec fn digits_value(s: Seq<char>) -> nat
    decreases s.len(),
{
    if s.len() == 0 {
        0
    } else {
        digits_value(s.drop_last()) * 10 + ((s.last() as int) - ('0' as int)) as nat
    }
}

/// What `str::parse::<u64>` accepts: an optional `+`, then one or more ASCII
/// digits whose value fits in 64 bits.
pub open spec fn parsed_u64(s: Seq<char>) -> Option<u64> {
    let body = if s.len() > 0 && s[0] == '+' { s.drop_first() } else { s };
    if body.len() == 0 || !all_digits(body) || digits_value(body) > u64::MAX {
        None
    } else {
        Some(digits_value(body) as u64)
    }
}

/// `str::parse::<u64>` (see `parsed_u64`).
pub fn parse_u64(s: &str) -> (r: Option<u64>)
    ensures
        r == parsed_u64(s@),
{
    let cs = chars_of(s);
    let start: usize = if cs.len() > 0 && cs[0] == '+' { 1 } else { 0 };
    let ghost body = if s@.len() > 0 && s@[0] == '+' { s@.drop_first() } else { s@ };
    assert(body =~= cs@.subrange(start as int, cs@.len() as int));
    if start >= cs.len() {
        return None;
    }
    let mut value: u64 = 0;
    let mut overflow = false;
    let mut i: usize = start;
    while i < cs.len()
        invariant
            start <= i <= cs@.len(),
            cs@ == s@,
            body == cs@.subrange(start as int, cs@.len() as int),
            body == (if s@.len() > 0 && s@[0] == '+' { s@.drop_first() } else { s@ }),
            all_digits(body.take(i - start)),
            !overflow ==> value as nat == digits_value(body.take(i - start)),
            overflow ==> digits_value(body.take(i - start)) > u64::MAX,
        decreases cs@.len() - i,
    {
        let c = cs[i];
        if c < '0' || c > '9' {
            proof {
                assert(body[i - start] == c);
                assert(!all_digits(body));
            }
            return None;
        }
        let d: u64 = ((c as u32) - ('0' as u32)) as u64;
        proof {
            assert(body.take(i + 1 - start).drop_last() =~= body.take(i - start));
            assert(body.take(i + 1 - start).last() == c);
            assert(all_digits(body.take(i + 1 - start)));
        }
        if !overflow {
            if value > (u64::MAX - d) / 10 {
                overflow = true;
                assert(value * 10 + d > u64::MAX) by (nonlinear_arith)
                    requires
                        value > (u64::MAX - d) / 10,
                        d <= 9,
                ;
            } else {
                assert(value * 10 + d <= u64::MAX) by (nonlinear_arith)
                    requires
                        value <= (u64::MAX - d) / 10,
                        d <= 9,
                ;
                value = value * 10 + d;
            }
        } else {
            assert(digits_value(body.take(i + 1 - start)) >= digits_value(body.take(i - start)) * 10) by (nonlinear_arith)
                requires
                    digits_value(body.take(i + 1 - start)) == digits_value(body.take(i - start)) * 10 + d,
            ;
            assert(digits_value(body.take(i - start)) * 10 >= digits_value(body.take(i - start))) by (nonlinear_arith);
        }
        i += 1;
    }
    proof {
        assert(body.take(i - start) =~= body);
    }
    if overflow {
        None
    } else {
        Some(value)
    }
}

} // verus!
