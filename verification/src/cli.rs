//! The command lines of the benchmark and stress tools: their options, the
//! queries they run and the documents they generate.
use vstd::prelude::*;
use crate::sidecar::opt_view;
use crate::text::{
    all_digits, append_chars, append_str, chars_of, concat_str, decimal, decimal_chars, digits_value, list_contains,
    parsed_u64, str_eq, string_of, string_views, trim, trim_chars, trim_str,
};

verus! {

/// What `str::parse::<i64>` accepts: an optional sign, then one or more
/// ASCII digits whose value fits in 64 signed bits.
pub open spec fn parsed_i64(s: Seq<char>) -> Option<i64> {
    let neg = s.len() > 0 && s[0] == '-';
    let body = if s.len() > 0 && (s[0] == '+' || s[0] == '-') { s.drop_first() } else { s };
    if body.len() == 0 || !all_digits(body) {
        None
    } else if neg {
        if digits_value(body) > 9_223_372_036_854_775_808 { None } else { Some((0 - digits_value(body)) as i64) }
    } else {
        if digits_value(body) > 9_223_372_036_854_775_807 { None } else { Some(digits_value(body) as i64) }
    }
}

/// The text of the error `str::parse::<usize>` gives for `s`.
pub uninterp spec fn usize_parse_error(s: Seq<char>) -> Seq<char>;

/// The text of the error `str::parse::<i64>` gives for `s`.
pub uninterp spec fn i64_parse_error(s: Seq<char>) -> Seq<char>;

/// `str::parse::<usize>`: the value of an optional `+` and ASCII digits
/// when it fits; otherwise the error's text (named, not stated).
#[verifier::external_body]
fn std_parse_usize(raw: &str) -> (r: Result<usize, String>)
    ensures
        match r {
            Ok(v) => parsed_u64(raw@) == Some(v as u64),
            Err(e) => e@ == usize_parse_error(raw@) && (parsed_u64(raw@) matches Some(v) ==> v > usize::MAX),
        },
{
    raw.parse::<usize>().map_err(|error| error.to_string())
}

/// `str::parse::<i64>`: the value of an optional sign and ASCII digits when
/// it fits; otherwise the error's text (named, not stated).
#[verifier::external_body]
fn std_parse_i64(raw: &str) -> (r: Result<i64, String>)
    ensures
        match r {
            Ok(v) => parsed_i64(raw@) == Some(v),
            Err(e) => e@ == i64_parse_error(raw@) && parsed_i64(raw@) is None,
        },
{
    raw.parse::<i64>().map_err(|error| error.to_string())
}

/// `next_arg`: the argument at `index`, or the complaint that the flag has
/// no value.
pub fn next_arg(args: &Vec<String>, index: usize, flag: &str) -> (r: Result<String, String>)
    ensures
        index < args@.len() ==> (r matches Ok(v) && v@ == args@[index as int]@),
        index >= args@.len() ==> (r matches Err(e) && e@ == "missing value for "@ + flag@),
{
    if index < args.len() {
        Ok(args[index].clone())
    } else {
        Err(concat_str("missing value for ", flag))
    }
}

/// `parse_usize`: the number, or the complaint naming the flag.
pub fn parse_usize(raw: &str, flag: &str) -> (r: Result<usize, String>)
    ensures
        match r {
            Ok(v) => parsed_u64(raw@) == Some(v as u64),
            Err(e) => e@ == "invalid "@ + flag@ + ": "@ + usize_parse_error(raw@)
                && (parsed_u64(raw@) matches Some(v) ==> v > usize::MAX),
        },
{
    match std_parse_usize(raw) {
        Ok(v) => Ok(v),
        Err(e) => {
            let mut out = chars_of("invalid ");
            append_str(&mut out, flag);
            append_str(&mut out, ": ");
            append_str(&mut out, e.as_str());
            Err(string_of(out.as_slice()))
        },
    }
}

/// The queries trimmed, without empty ones and without repeats, in order.
pub open spec fn distinct_queries(qs: Seq<Seq<char>>) -> Seq<Seq<char>>
    decreases qs.len(),
{
    if qs.len() == 0 {
        Seq::empty()
    } else {
        let prev = distinct_queries(qs.drop_last());
        let t = trim(qs.last());
        if t.len() == 0 || prev.contains(t) { prev } else { prev.push(t) }
    }
}

/// `normalize_queries` (see `distinct_queries`).
pub fn normalize_queries(queries: Vec<String>) -> (r: Vec<String>)
    ensures
        string_views(r@) == distinct_queries(string_views(queries@)),
{
    let ghost qv = string_views(queries@);
    let mut out: Vec<String> = Vec::new();
    let mut i: usize = 0;
    while i < queries.len()
        invariant
            i <= queries@.len(),
            qv == string_views(queries@),
            string_views(out@) == distinct_queries(qv.take(i as int)),
        decreases queries@.len() - i,
    {
        proof {
            assert(qv.take(i + 1).drop_last() =~= qv.take(i as int));
            assert(qv.take(i + 1).last() == queries@[i as int]@);
        }
        let t = trim_str(queries[i].as_str());
        if !t.as_str().is_empty() && !list_contains(&out, t.as_str()) {
            let ghost before = string_views(out@);
            out.push(t);
            assert(string_views(out@) =~= before.push(trim(queries@[i as int]@)));
        }
        i += 1;
    }
    assert(qv.take(i as int) =~= qv);
    out
}

/// The pieces of `s` between commas (`str::split(',')`).
pub open spec fn comma_pieces(s: Seq<char>) -> Seq<Seq<char>>
    decreases s.len(),
{
    if s.len() == 0 {
        seq![Seq::<char>::empty()]
    } else {
        let parts = comma_pieces(s.drop_last());
        if s.last() == ',' {
            parts.push(Seq::empty())
        } else {
            parts.drop_last().push(parts.last().push(s.last()))
        }
    }
}

proof fn lemma_comma_pieces_nonempty(s: Seq<char>)
    ensures
        comma_pieces(s).len() >= 1,
    decreases s.len(),
{
    if s.len() > 0 {
        lemma_comma_pieces_nonempty(s.drop_last());
    }
}

/// The sizes of a list like "1000, 5000": blank pieces are skipped, the
/// first piece that is not a number is the error.
pub open spec fn sizes_of(pieces: Seq<Seq<char>>) -> Result<Seq<usize>, Seq<char>>
    decreases pieces.len(),
{
    if pieces.len() == 0 {
        Ok(Seq::empty())
    } else {
        match sizes_of(pieces.drop_last()) {
            Err(e) => Err(e),
            Ok(prev) => {
                let t = trim(pieces.last());
                if t.len() == 0 {
                    Ok(prev)
                } else {
                    match parsed_u64(t) {
                        Some(v) => if v <= usize::MAX {
                            Ok(prev.push(v as usize))
                        } else {
                            Err("invalid size "@ + t + ": "@ + usize_parse_error(t))
                        },
                        None => Err("invalid size "@ + t + ": "@ + usize_parse_error(t)),
                    }
                }
            },
        }
    }
}

fn comma_split(s: &[char]) -> (r: Vec<Vec<char>>)
    ensures
        r@.map_values(|p: Vec<char>| p@) == comma_pieces(s@),
{
    let mut parts: Vec<Vec<char>> = Vec::new();
    let mut cur: Vec<char> = Vec::new();
    let mut i: usize = 0;
    while i < s.len()
        invariant
            i <= s@.len(),
            parts@.map_values(|p: Vec<char>| p@).push(cur@) == comma_pieces(s@.take(i as int)),
        decreases s@.len() - i,
    {
        proof {
            assert(s@.take(i + 1).drop_last() =~= s@.take(i as int));
            assert(s@.take(i + 1).last() == s@[i as int]);
        }
        let ghost before = parts@.map_values(|p: Vec<char>| p@);
        if s[i] == ',' {
            let done = cur;
            parts.push(done);
            cur = Vec::new();
            assert(parts@.map_values(|p: Vec<char>| p@) =~= before.push(done@));
            assert(parts@.map_values(|p: Vec<char>| p@).push(cur@) =~= comma_pieces(s@.take(i + 1)));
        } else {
            let ghost c0 = cur@;
            cur.push(s[i]);
            assert(parts@.map_values(|p: Vec<char>| p@).push(cur@) =~= before.push(c0).drop_last().push(c0.push(s@[i as int])));
        }
        i += 1;
    }
    assert(s@.take(i as int) =~= s@);
    let ghost before = parts@.map_values(|p: Vec<char>| p@);
    let last = cur;
    parts.push(last);
    assert(parts@.map_values(|p: Vec<char>| p@) =~= before.push(last@));
    parts
}

/// `parse_sizes` (see `sizes_of`).
pub fn parse_sizes(raw: &str) -> (r: Result<Vec<usize>, String>)
    ensures
        match r {
            Ok(v) => sizes_of(comma_pieces(raw@)) == Ok::<Seq<usize>, Seq<char>>(v@),
            Err(e) => sizes_of(comma_pieces(raw@)) == Err::<Seq<usize>, Seq<char>>(e@),
        },
{
    let pieces = comma_split(chars_of(raw).as_slice());
    let ghost pv = pieces@.map_values(|p: Vec<char>| p@);
    let mut sizes: Vec<usize> = Vec::new();
    let mut i: usize = 0;
    while i < pieces.len()
        invariant
            i <= pieces@.len(),
            pv == pieces@.map_values(|p: Vec<char>| p@),
            pv == comma_pieces(raw@),
            sizes_of(pv.take(i as int)) == Ok::<Seq<usize>, Seq<char>>(sizes@),
        decreases pieces@.len() - i,
    {
        proof {
            assert(pv.take(i + 1).drop_last() =~= pv.take(i as int));
            assert(pv.take(i + 1).last() == pieces@[i as int]@);
        }
        let t = trim_chars(pieces[i].as_slice());
        if t.len() > 0 {
            let ts = string_of(t.as_slice());
            match std_parse_usize(ts.as_str()) {
                Ok(v) => {
                    sizes.push(v);
                },
                Err(e) => {
                    let mut out = chars_of("invalid size ");
                    append_chars(&mut out, t.as_slice());
                    append_str(&mut out, ": ");
                    append_str(&mut out, e.as_str());
                    proof {
                        lemma_sizes_err_sticky(pv, i as int + 1);
                        assert(pv.take(pv.len() as int) =~= pv);
                    }
                    return Err(string_of(out.as_slice()));
                },
            }
        }
        i += 1;
    }
    assert(pv.take(i as int) =~= pv);
    Ok(sizes)
}

proof fn lemma_sizes_err_sticky(pieces: Seq<Seq<char>>, i: int)
    requires
        0 <= i <= pieces.len(),
        sizes_of(pieces.take(i)) is Err,
    ensures
        sizes_of(pieces) == sizes_of(pieces.take(i)),
    decreases pieces.len() - i,
{
    if i < pieces.len() {
        assert(pieces.take(i + 1).drop_last() =~= pieces.take(i));
        lemma_sizes_err_sticky(pieces, i + 1);
    } else {
        assert(pieces.take(i) =~= pieces);
    }
}

/// The topic of a generated document.
pub open spec fn topic_of(file_index: nat) -> Seq<char> {
    let k = file_index % 5;
    if k == 0 { "索引"@ } else if k == 1 { "搜索"@ } else if k == 2 { "WBS"@ } else if k == 3 { "测试"@ } else { "集成"@ }
}

/// The word at a position of a generated paragraph.
pub open spec fn word_of(k: nat, topic: Seq<char>) -> Seq<char> {
    let m = k % 7;
    if m == 0 { "文档"@ } else if m == 1 { "目录"@ } else if m == 2 { "切片"@ } else if m == 3 { "搜索"@ }
    else if m == 4 { "索引"@ } else if m == 5 { topic } else { "性能"@ }
}

/// The words of a generated paragraph, a line break after every eighteenth.
pub open spec fn paragraph_words(file_index: nat, paragraph: nat, words: nat, topic: Seq<char>) -> Seq<char>
    decreases words,
{
    if words == 0 {
        Seq::empty()
    } else {
        let w = (words - 1) as nat;
        paragraph_words(file_index, paragraph, w, topic) + word_of(w + file_index + paragraph, topic)
            + if w % 18 == 17 { seq!['\n'] } else { seq![' '] }
    }
}

/// The paragraphs of a generated document.
pub open spec fn paragraphs_text(file_index: nat, count: nat, words: nat, topic: Seq<char>) -> Seq<char>
    decreases count,
{
    if count == 0 {
        Seq::empty()
    } else {
        let p = (count - 1) as nat;
        paragraphs_text(file_index, p, words, topic) + "## 段落 "@ + decimal(p) + "\n"@
            + paragraph_words(file_index, p, words, topic) + "\n\n"@
    }
}

/// A generated document of the stress corpus: a header line, then four
/// paragraphs of `file_words` words.
pub open spec fn stress_document(size: nat, file_index: nat, file_words: nat) -> Seq<char> {
    let topic = topic_of(file_index);
    "SeekMind stress corpus size="@ + decimal(size) + " file_index="@ + decimal(file_index) + " topic="@ + topic
        + "\n\n"@ + paragraphs_text(file_index, 4, file_words, topic)
}

fn topic_str(file_index: usize) -> (r: &'static str)
    ensures
        r@ == topic_of(file_index as nat),
{
    let k = file_index % 5;
    if k == 0 { "索引" } else if k == 1 { "搜索" } else if k == 2 { "WBS" } else if k == 3 { "测试" } else { "集成" }
}

/// `build_document_content` (see `stress_document`).
pub fn build_document_content(size: usize, file_index: usize, file_words: usize) -> (r: String)
    requires
        file_index + file_words + 4 <= usize::MAX,
    ensures
        r@ == stress_document(size as nat, file_index as nat, file_words as nat),
{
    let topic = topic_str(file_index);
    let mut body = chars_of("SeekMind stress corpus size=");
    append_chars(&mut body, decimal_chars(size as u64).as_slice());
    append_str(&mut body, " file_index=");
    append_chars(&mut body, decimal_chars(file_index as u64).as_slice());
    append_str(&mut body, " topic=");
    append_str(&mut body, topic);
    append_str(&mut body, "\n\n");
    let ghost head = body@;
    let mut p: usize = 0;
    while p < 4
        invariant
            p <= 4,
            file_index + file_words + 4 <= usize::MAX,
            topic@ == topic_of(file_index as nat),
            body@ == head + paragraphs_text(file_index as nat, p as nat, file_words as nat, topic@),
        decreases 4 - p,
    {
        append_str(&mut body, "## 段落 ");
        append_chars(&mut body, decimal_chars(p as u64).as_slice());
        append_str(&mut body, "\n");
        let ghost para_start = body@;
        let mut w: usize = 0;
        while w < file_words
            invariant
                w <= file_words,
                p < 4,
                file_index + file_words + 4 <= usize::MAX,
                topic@ == topic_of(file_index as nat),
                body@ == para_start + paragraph_words(file_index as nat, p as nat, w as nat, topic@),
            decreases file_words - w,
        {
            let m = (w + file_index + p) % 7;
            let token = if m == 0 { "文档" } else if m == 1 { "目录" } else if m == 2 { "切片" } else if m == 3 {
                "搜索"
            } else if m == 4 {
                "索引"
            } else if m == 5 {
                topic
            } else {
                "性能"
            };
            append_str(&mut body, token);
            if w % 18 == 17 {
                body.push('\n');
            } else {
                body.push(' ');
            }
            w += 1;
            assert(body@ =~= para_start + paragraph_words(file_index as nat, p as nat, w as nat, topic@));
        }
        append_str(&mut body, "\n\n");
        p += 1;
        assert(body@ =~= head + paragraphs_text(file_index as nat, p as nat, file_words as nat, topic@));
    }
    string_of(body.as_slice())
}

/// The options of the benchmark tool.
#[derive(Debug, Clone)]
pub struct BenchmarkOptions {
    pub output_path: Option<String>,
    pub limit: usize,
    pub repeat: usize,
    pub history_limit: i64,
    pub queries_file: Option<String>,
    pub queries: Vec<String>,
}

/// What a command line asks for: the help text, or a run with options.
#[derive(Debug, Clone)]
pub enum Command<T> {
    Help,
    Run(T),
}

/// The queries the benchmark runs when none are given.
pub fn default_queries() -> (r: Vec<String>)
    ensures
        string_views(r@) == seq!["设计"@, "系统"@, "WBS"@, "测试"@, "集成"@],
{
    let mut v: Vec<String> = Vec::new();
    v.push("设计".to_owned());
    v.push("系统".to_owned());
    v.push("WBS".to_owned());
    v.push("测试".to_owned());
    v.push("集成".to_owned());
    assert(string_views(v@) =~= seq!["设计"@, "系统"@, "WBS"@, "测试"@, "集成"@]);
    v
}

/// What a command line asks for, as plain values: the help text, a refusal
/// with its message, or a run with the options read.
pub enum ArgsOutcome<T> {
    Help,
    Fail(Seq<char>),
    Run(T),
}

/// The value of a numeric option, or the text of the parse error.
pub open spec fn usize_arg(raw: Seq<char>) -> Result<usize, Seq<char>> {
    match parsed_u64(raw) {
        Some(v) => if v <= usize::MAX { Ok(v as usize) } else { Err(usize_parse_error(raw)) },
        None => Err(usize_parse_error(raw)),
    }
}

/// The value of a signed option, or the text of the parse error.
pub open spec fn i64_arg(raw: Seq<char>) -> Result<i64, Seq<char>> {
    match parsed_i64(raw) {
        Some(v) => Ok(v),
        None => Err(i64_parse_error(raw)),
    }
}

/// The complaint about a flag given without a value.
pub open spec fn missing_value(flag: Seq<char>) -> Seq<char> {
    "missing value for "@ + flag
}

/// The complaint about a flag whose value is not a number.
pub open spec fn invalid_value(flag: Seq<char>, e: Seq<char>) -> Seq<char> {
    "invalid "@ + flag + ": "@ + e
}

/// The benchmark options as plain values.
pub struct BenchArgs {
    pub output: Option<Seq<char>>,
    pub limit: usize,
    pub repeat: usize,
    pub history_limit: i64,
    pub queries_file: Option<Seq<char>>,
    pub queries: Seq<Seq<char>>,
}

/// The benchmark options before any argument.
pub open spec fn bench_defaults() -> BenchArgs {
    BenchArgs { output: None, limit: 20, repeat: 3, history_limit: 8, queries_file: None, queries: Seq::empty() }
}

/// The plain view of benchmark options.
pub open spec fn bench_view(o: BenchmarkOptions) -> BenchArgs {
    BenchArgs {
        output: opt_view(o.output_path),
        limit: o.limit,
        repeat: o.repeat,
        history_limit: o.history_limit,
        queries_file: opt_view(o.queries_file),
        queries: string_views(o.queries@),
    }
}

/// Reading the benchmark arguments from position `i` with the options `st`
/// read so far: each flag takes the next argument as its value; `--repeat`
/// and `--history-limit` are raised to at least 1; `--query` may repeat.
pub open spec fn bench_args_from(args: Seq<Seq<char>>, i: int, st: BenchArgs) -> ArgsOutcome<BenchArgs>
    decreases args.len() - i,
{
    if i < 0 || i >= args.len() {
        ArgsOutcome::Run(st)
    } else {
        let a = args[i];
        let more = i + 1 < args.len();
        if a == "--output"@ {
            if !more { ArgsOutcome::Fail(missing_value("--output"@)) }
            else { bench_args_from(args, i + 2, BenchArgs { output: Some(args[i + 1]), ..st }) }
        } else if a == "--limit"@ {
            if !more { ArgsOutcome::Fail(missing_value("--limit"@)) }
            else {
                match usize_arg(args[i + 1]) {
                    Ok(n) => bench_args_from(args, i + 2, BenchArgs { limit: n, ..st }),
                    Err(e) => ArgsOutcome::Fail(invalid_value("--limit"@, e)),
                }
            }
        } else if a == "--repeat"@ {
            if !more { ArgsOutcome::Fail(missing_value("--repeat"@)) }
            else {
                match usize_arg(args[i + 1]) {
                    Ok(n) => bench_args_from(args, i + 2, BenchArgs { repeat: if n < 1 { 1 } else { n }, ..st }),
                    Err(e) => ArgsOutcome::Fail(invalid_value("--repeat"@, e)),
                }
            }
        } else if a == "--history-limit"@ {
            if !more { ArgsOutcome::Fail(missing_value("--history-limit"@)) }
            else {
                match i64_arg(args[i + 1]) {
                    Ok(n) => bench_args_from(args, i + 2, BenchArgs { history_limit: if n < 1 { 1 } else { n }, ..st }),
                    Err(e) => ArgsOutcome::Fail("invalid --history-limit: "@ + e),
                }
            }
        } else if a == "--queries-file"@ {
            if !more { ArgsOutcome::Fail(missing_value("--queries-file"@)) }
            else { bench_args_from(args, i + 2, BenchArgs { queries_file: Some(args[i + 1]), ..st }) }
        } else if a == "--query"@ {
            if !more { ArgsOutcome::Fail(missing_value("--query"@)) }
            else { bench_args_from(args, i + 2, BenchArgs { queries: st.queries.push(args[i + 1]), ..st }) }
        } else if a == "--help"@ || a == "-h"@ {
            ArgsOutcome::Help
        } else {
            ArgsOutcome::Fail("unknown arg: "@ + a + ". use --help for usage"@)
        }
    }
}

fn take_value(args: &Vec<String>, index: usize, flag: &str) -> (r: Result<String, String>)
    requires
        index < args@.len() <= usize::MAX,
    ensures
        index + 1 < args@.len() ==> (r matches Ok(v) && v@ == args@[index + 1]@),
        index + 1 >= args@.len() ==> (r matches Err(e) && e@ == missing_value(flag@)),
{
    next_arg(args, index + 1, flag)
}

fn usize_value(raw: &str, flag: &str) -> (r: Result<usize, String>)
    ensures
        match usize_arg(raw@) {
            Ok(n) => r matches Ok(v) && v == n,
            Err(e) => r matches Err(x) && x@ == invalid_value(flag@, e),
        },
{
    let r = parse_usize(raw, flag);
    proof {
        match &r {
            Ok(v) => {
                assert(parsed_u64(raw@) == Some(*v as u64));
                assert(usize_arg(raw@) == Ok::<usize, Seq<char>>(*v));
            },
            Err(x) => {
                assert(x@ == "invalid "@ + flag@ + ": "@ + usize_parse_error(raw@));
                match parsed_u64(raw@) {
                    Some(v) => {
                        if v <= usize::MAX {
                            assert(false);
                        }
                        assert(usize_arg(raw@) == Err::<usize, Seq<char>>(usize_parse_error(raw@)));
                    },
                    None => {
                        assert(usize_arg(raw@) == Err::<usize, Seq<char>>(usize_parse_error(raw@)));
                    },
                }
            },
        }
    }
    r
}

/// The options of the benchmark tool: `--output`, `--limit`, `--repeat`
/// (at least 1), `--history-limit` (at least 1), `--queries-file` and
/// repeated `--query`; `--help` or `-h` asks for the help text; any other
/// argument is refused (see `bench_args_from`).
pub fn parse_benchmark_args(args: &Vec<String>) -> (r: Result<Command<BenchmarkOptions>, String>)
    ensures
        match bench_args_from(string_views(args@), 0, bench_defaults()) {
            ArgsOutcome::Help => r matches Ok(Command::Help),
            ArgsOutcome::Fail(e) => r matches Err(x) && x@ == e,
            ArgsOutcome::Run(st) => r matches Ok(Command::Run(o)) && bench_view(o) == st,
        },
        r matches Ok(Command::Run(o)) ==> o.repeat >= 1 && o.history_limit >= 1,
{
    let ghost av = string_views(args@);
    let mut output_path: Option<String> = None;
    let mut limit: usize = 20;
    let mut repeat: usize = 3;
    let mut history_limit: i64 = 8;
    let mut queries_file: Option<String> = None;
    let mut queries: Vec<String> = Vec::new();
    let mut index: usize = 0;
    assert(string_views(queries@) =~= Seq::<Seq<char>>::empty());
    while index < args.len()
        invariant
            index <= args@.len(),
            av == string_views(args@),
            repeat >= 1,
            history_limit >= 1,
            bench_args_from(av, 0, bench_defaults()) == bench_args_from(av, index as int, BenchArgs {
                output: opt_view(output_path),
                limit,
                repeat,
                history_limit,
                queries_file: opt_view(queries_file),
                queries: string_views(queries@),
            }),
        decreases args@.len() - index,
    {
        let current = args[index].as_str();
        assert(av[index as int] == current@);
        if str_eq(current, "--output") {
            let v = match take_value(args, index, "--output") {
                Ok(v) => v,
                Err(e) => return Err(e),
            };
            output_path = Some(v);
            index += 2;
        } else if str_eq(current, "--limit") {
            let v = match take_value(args, index, "--limit") {
                Ok(v) => v,
                Err(e) => return Err(e),
            };
            limit = match usize_value(v.as_str(), "--limit") {
                Ok(n) => n,
                Err(e) => return Err(e),
            };
            index += 2;
        } else if str_eq(current, "--repeat") {
            let v = match take_value(args, index, "--repeat") {
                Ok(v) => v,
                Err(e) => return Err(e),
            };
            let n = match usize_value(v.as_str(), "--repeat") {
                Ok(n) => n,
                Err(e) => return Err(e),
            };
            repeat = if n < 1 { 1 } else { n };
            index += 2;
        } else if str_eq(current, "--history-limit") {
            let v = match take_value(args, index, "--history-limit") {
                Ok(v) => v,
                Err(e) => return Err(e),
            };
            let n = match std_parse_i64(v.as_str()) {
                Ok(n) => n,
                Err(e) => return Err(concat_str("invalid --history-limit: ", e.as_str())),
            };
            history_limit = if n < 1 { 1 } else { n };
            index += 2;
        } else if str_eq(current, "--queries-file") {
            let v = match take_value(args, index, "--queries-file") {
                Ok(v) => v,
                Err(e) => return Err(e),
            };
            queries_file = Some(v);
            index += 2;
        } else if str_eq(current, "--query") {
            let v = match take_value(args, index, "--query") {
                Ok(v) => v,
                Err(e) => return Err(e),
            };
            let ghost before = string_views(queries@);
            queries.push(v);
            assert(string_views(queries@) =~= before.push(av[index + 1]));
            index += 2;
        } else if str_eq(current, "--help") || str_eq(current, "-h") {
            return Ok(Command::Help);
        } else {
            let mut msg = chars_of("unknown arg: ");
            append_str(&mut msg, current);
            append_str(&mut msg, ". use --help for usage");
            return Err(string_of(msg.as_slice()));
        }
    }
    Ok(Command::Run(BenchmarkOptions { output_path, limit, repeat, history_limit, queries_file, queries }))
}

/// Which queries the benchmark runs: those given on the command line, else
/// those of the queries file, else those of the search history (all
/// cleaned, see `distinct_queries`), else the default ones.
pub fn resolve_queries(given: &Vec<String>, from_file: Option<Vec<String>>, history: Vec<String>) -> (r: Vec<String>)
    ensures
        given@.len() > 0 ==> string_views(r@) == distinct_queries(string_views(given@)),
        given@.len() == 0 && (from_file matches Some(f) && distinct_queries(string_views(f@)).len() > 0) ==> (
            from_file matches Some(f) && string_views(r@) == distinct_queries(string_views(f@))),
        given@.len() == 0 && !(from_file matches Some(f) && distinct_queries(string_views(f@)).len() > 0)
            && distinct_queries(string_views(history@)).len() > 0 ==> string_views(r@) == distinct_queries(
            string_views(history@)),
        given@.len() == 0 && !(from_file matches Some(f) && distinct_queries(string_views(f@)).len() > 0)
            && distinct_queries(string_views(history@)).len() == 0 ==> string_views(r@) == seq![
            "设计"@,
            "系统"@,
            "WBS"@,
            "测试"@,
            "集成"@,
        ],
{
    if given.len() > 0 {
        let mut copy: Vec<String> = Vec::new();
        let mut i: usize = 0;
        while i < given.len()
            invariant
                i <= given@.len(),
                copy@.len() == i,
                forall|k: int| 0 <= k < i ==> (#[trigger] copy@[k])@ == given@[k]@,
            decreases given@.len() - i,
        {
            copy.push(given[i].clone());
            i += 1;
        }
        assert(string_views(copy@) =~= string_views(given@));
        return normalize_queries(copy);
    }
    if let Some(f) = from_file {
        let q = normalize_queries(f);
        if q.len() > 0 {
            return q;
        }
    }
    let h = normalize_queries(history);
    if h.len() > 0 {
        return h;
    }
    default_queries()
}

/// The options of the stress tool.
#[derive(Debug, Clone)]
pub struct StressOptions {
    pub output_path: Option<String>,
    pub workspace: String,
    pub sizes: Vec<usize>,
    pub files_per_dir: usize,
    pub file_words: usize,
    pub query_limit: usize,
    pub cleanup: bool,
}

/// The stress options as plain values.
pub struct StressArgs {
    pub output: Option<Seq<char>>,
    pub workspace: Seq<char>,
    pub sizes: Seq<usize>,
    pub files_per_dir: usize,
    pub file_words: usize,
    pub query_limit: usize,
    pub cleanup: bool,
}

/// The stress options before any argument, with the default workspace.
pub open spec fn stress_defaults(workspace: Seq<char>) -> StressArgs {
    StressArgs {
        output: None,
        workspace,
        sizes: Seq::empty(),
        files_per_dir: 200,
        file_words: 260,
        query_limit: 20,
        cleanup: false,
    }
}

/// Reading the stress arguments from position `i` with the options `st`
/// read so far: each flag but `--cleanup` takes the next argument as its
/// value; `--sizes` is a comma-separated list (see `sizes_of`).
pub open spec fn stress_args_from(args: Seq<Seq<char>>, i: int, st: StressArgs) -> ArgsOutcome<StressArgs>
    decreases args.len() - i,
{
    if i < 0 || i >= args.len() {
        ArgsOutcome::Run(st)
    } else {
        let a = args[i];
        let more = i + 1 < args.len();
        if a == "--output"@ {
            if !more { ArgsOutcome::Fail(missing_value("--output"@)) }
            else { stress_args_from(args, i + 2, StressArgs { output: Some(args[i + 1]), ..st }) }
        } else if a == "--workspace"@ {
            if !more { ArgsOutcome::Fail(missing_value("--workspace"@)) }
            else { stress_args_from(args, i + 2, StressArgs { workspace: args[i + 1], ..st }) }
        } else if a == "--sizes"@ {
            if !more { ArgsOutcome::Fail(missing_value("--sizes"@)) }
            else {
                match sizes_of(comma_pieces(args[i + 1])) {
                    Ok(s) => stress_args_from(args, i + 2, StressArgs { sizes: s, ..st }),
                    Err(e) => ArgsOutcome::Fail(e),
                }
            }
        } else if a == "--files-per-dir"@ {
            if !more { ArgsOutcome::Fail(missing_value("--files-per-dir"@)) }
            else {
                match usize_arg(args[i + 1]) {
                    Ok(n) => stress_args_from(args, i + 2, StressArgs { files_per_dir: n, ..st }),
                    Err(e) => ArgsOutcome::Fail(invalid_value("--files-per-dir"@, e)),
                }
            }
        } else if a == "--file-words"@ {
            if !more { ArgsOutcome::Fail(missing_value("--file-words"@)) }
            else {
                match usize_arg(args[i + 1]) {
                    Ok(n) => stress_args_from(args, i + 2, StressArgs { file_words: n, ..st }),
                    Err(e) => ArgsOutcome::Fail(invalid_value("--file-words"@, e)),
                }
            }
        } else if a == "--query-limit"@ {
            if !more { ArgsOutcome::Fail(missing_value("--query-limit"@)) }
            else {
                match usize_arg(args[i + 1]) {
                    Ok(n) => stress_args_from(args, i + 2, StressArgs { query_limit: n, ..st }),
                    Err(e) => ArgsOutcome::Fail(invalid_value("--query-limit"@, e)),
                }
            }
        } else if a == "--cleanup"@ {
            stress_args_from(args, i + 1, StressArgs { cleanup: true, ..st })
        } else if a == "--help"@ || a == "-h"@ {
            ArgsOutcome::Help
        } else {
            ArgsOutcome::Fail("unknown arg: "@ + a)
        }
    }
}

/// The corpus sizes of a run: those given, or 1000, 5000 and 10000.
pub open spec fn sizes_or_default(sizes: Seq<usize>) -> Seq<usize> {
    if sizes.len() == 0 { seq![1_000usize, 5_000usize, 10_000usize] } else { sizes }
}

/// The options of the stress tool: `--output`, `--workspace`, `--sizes`
/// (default 1000, 5000, 10000), `--files-per-dir`, `--file-words`,
/// `--query-limit` and `--cleanup`; `--help` or `-h` asks for the help
/// text; any other argument is refused (see `stress_args_from`).
/// `default_workspace` is where the corpora go unless `--workspace` says
/// otherwise.
pub fn parse_stress_args(args: &Vec<String>, default_workspace: String) -> (r: Result<Command<StressOptions>, String>)
    ensures
        match stress_args_from(string_views(args@), 0, stress_defaults(default_workspace@)) {
            ArgsOutcome::Help => r matches Ok(Command::Help),
            ArgsOutcome::Fail(e) => r matches Err(x) && x@ == e,
            ArgsOutcome::Run(st) => r matches Ok(Command::Run(o)) && opt_view(o.output_path) == st.output
                && o.workspace@ == st.workspace && o.sizes@ == sizes_or_default(st.sizes)
                && o.files_per_dir == st.files_per_dir && o.file_words == st.file_words
                && o.query_limit == st.query_limit && o.cleanup == st.cleanup,
        },
{
    let ghost av = string_views(args@);
    let ghost ws = default_workspace@;
    let mut output_path: Option<String> = None;
    let mut workspace = default_workspace;
    let mut sizes: Vec<usize> = Vec::new();
    let mut files_per_dir: usize = 200;
    let mut file_words: usize = 260;
    let mut query_limit: usize = 20;
    let mut cleanup = false;
    let mut index: usize = 0;
    while index < args.len()
        invariant
            index <= args@.len(),
            av == string_views(args@),
            ws == default_workspace@,
            stress_args_from(av, 0, stress_defaults(ws)) == stress_args_from(av, index as int, StressArgs {
                output: opt_view(output_path),
                workspace: workspace@,
                sizes: sizes@,
                files_per_dir,
                file_words,
                query_limit,
                cleanup,
            }),
        decreases args@.len() - index,
    {
        let current = args[index].as_str();
        assert(av[index as int] == current@);
        if str_eq(current, "--output") {
            let v = match take_value(args, index, "--output") {
                Ok(v) => v,
                Err(e) => return Err(e),
            };
            output_path = Some(v);
            index += 2;
        } else if str_eq(current, "--workspace") {
            workspace = match take_value(args, index, "--workspace") {
                Ok(v) => v,
                Err(e) => return Err(e),
            };
            index += 2;
        } else if str_eq(current, "--sizes") {
            let v = match take_value(args, index, "--sizes") {
                Ok(v) => v,
                Err(e) => return Err(e),
            };
            sizes = match parse_sizes(v.as_str()) {
                Ok(s) => s,
                Err(e) => return Err(e),
            };
            index += 2;
        } else if str_eq(current, "--files-per-dir") {
            let v = match take_value(args, index, "--files-per-dir") {
                Ok(v) => v,
                Err(e) => return Err(e),
            };
            files_per_dir = match usize_value(v.as_str(), "--files-per-dir") {
                Ok(n) => n,
                Err(e) => return Err(e),
            };
            index += 2;
        } else if str_eq(current, "--file-words") {
            let v = match take_value(args, index, "--file-words") {
                Ok(v) => v,
                Err(e) => return Err(e),
            };
            file_words = match usize_value(v.as_str(), "--file-words") {
                Ok(n) => n,
                Err(e) => return Err(e),
            };
            index += 2;
        } else if str_eq(current, "--query-limit") {
            let v = match take_value(args, index, "--query-limit") {
                Ok(v) => v,
                Err(e) => return Err(e),
            };
            query_limit = match usize_value(v.as_str(), "--query-limit") {
                Ok(n) => n,
                Err(e) => return Err(e),
            };
            index += 2;
        } else if str_eq(current, "--cleanup") {
            cleanup = true;
            index += 1;
        } else if str_eq(current, "--help") || str_eq(current, "-h") {
            return Ok(Command::Help);
        } else {
            return Err(concat_str("unknown arg: ", current));
        }
    }
    if sizes.len() == 0 {
        sizes.push(1_000);
        sizes.push(5_000);
        sizes.push(10_000);
        assert(sizes@ =~= seq![1_000usize, 5_000usize, 10_000usize]);
    }
    Ok(Command::Run(StressOptions { output_path, workspace, sizes, files_per_dir, file_words, query_limit, cleanup }))
}

/// `n` in decimal, padded with leading zeros to `width` digits.
pub open spec fn padded(n: nat, width: nat) -> Seq<char> {
    let d = decimal(n);
    if d.len() >= width { d } else { Seq::new((width - d.len()) as nat, |i: int| '0') + d }
}

fn padded_chars(n: u64, width: usize) -> (r: Vec<char>)
    ensures
        r@ == padded(n as nat, width as nat),
{
    let d = decimal_chars(n);
    if d.len() >= width {
        return d;
    }
    let mut out: Vec<char> = Vec::new();
    let pad = width - d.len();
    let mut i: usize = 0;
    while i < pad
        invariant
            i <= pad,
            out@ == Seq::new(i as nat, |k: int| '0'),
        decreases pad - i,
    {
        out.push('0');
        i += 1;
        assert(out@ =~= Seq::new(i as nat, |k: int| '0'));
    }
    append_chars(&mut out, d.as_slice());
    out
}

/// The number of directories of a generated corpus: one per
/// `files_per_dir` files (rounded up), at least one.
pub open spec fn dir_count(size: nat, files_per_dir: nat) -> nat {
    let c = (size + files_per_dir - 1) / files_per_dir as int;
    if c < 1 { 1 } else { c as nat }
}

/// The first file of the `k`-th directory.
pub open spec fn dir_start(k: nat, files_per_dir: nat) -> nat {
    k * files_per_dir
}

/// The number of files of the `k`-th directory.
pub open spec fn dir_files(k: nat, size: nat, files_per_dir: nat) -> nat {
    let start = dir_start(k, files_per_dir);
    let end = if start + files_per_dir < size { start + files_per_dir } else { size };
    if end > start { (end - start) as nat } else { 0 }
}

/// The name of the `k`-th directory (from zero).
pub open spec fn dir_name(k: nat) -> Seq<char> {
    "section-"@ + padded(k + 1, 3)
}

/// The name of the `i`-th generated file: its kind cycles through Markdown,
/// text and HTML.
pub open spec fn corpus_file_name(i: nat) -> Seq<char> {
    "doc-"@ + padded(i, 5) + "."@ + if i % 3 == 0 { "md"@ } else if i % 3 == 1 { "txt"@ } else { "html"@ }
}

/// The directories and file names of a generated corpus (see `dir_count`,
/// `dir_files`, `dir_name` and `corpus_file_name`); the file `i` holds
/// `build_document_content(size, i, ..)`.
pub fn corpus_layout(size: usize, files_per_dir: usize) -> (r: Vec<(String, Vec<String>)>)
    requires
        files_per_dir > 0,
        size + files_per_dir <= usize::MAX,
        size < u64::MAX,
    ensures
        r@.len() == dir_count(size as nat, files_per_dir as nat),
        forall|k: int| 0 <= k < r@.len() ==> (#[trigger] r@[k]).0@ == dir_name(k as nat)
            && string_views(r@[k].1@) == Seq::new(
                dir_files(k as nat, size as nat, files_per_dir as nat),
                |j: int| corpus_file_name(dir_start(k as nat, files_per_dir as nat) + j as nat),
            ),
{
    let c = (size + files_per_dir - 1) / files_per_dir;
    let count = if c < 1 { 1 } else { c };
    proof {
        assert(count as int == dir_count(size as nat, files_per_dir as nat));
        assert(c * files_per_dir <= size + files_per_dir - 1) by (nonlinear_arith)
            requires
                c as int == (size + files_per_dir - 1) as int / files_per_dir as int,
                files_per_dir > 0,
        ;
    }
    let mut out: Vec<(String, Vec<String>)> = Vec::new();
    let mut k: usize = 0;
    while k < count
        invariant
            k <= count,
            count as int == dir_count(size as nat, files_per_dir as nat),
            files_per_dir > 0,
            size + files_per_dir <= usize::MAX,
            size < u64::MAX,
            count == 1 || count * files_per_dir <= size + files_per_dir - 1,
            out@.len() == k,
            forall|q: int| 0 <= q < k ==> (#[trigger] out@[q]).0@ == dir_name(q as nat)
                && string_views(out@[q].1@) == Seq::new(
                    dir_files(q as nat, size as nat, files_per_dir as nat),
                    |j: int| corpus_file_name(dir_start(q as nat, files_per_dir as nat) + j as nat),
                ),
        decreases count - k,
    {
        proof {
            if count != 1 {
                assert(k * files_per_dir <= (count - 1) * files_per_dir) by (nonlinear_arith)
                    requires
                        k <= count - 1,
                ;
                assert((count - 1) * files_per_dir == count * files_per_dir - files_per_dir) by (nonlinear_arith);
            } else {
                assert(k == 0);
            }
        }
        let start = k * files_per_dir;
        assert(start <= size);
        let end = if start + files_per_dir < size { start + files_per_dir } else { size };
        let mut names: Vec<String> = Vec::new();
        let mut i: usize = start;
        while i < end
            invariant
                start <= end <= size < u64::MAX,
                start <= i,
                i <= end || (start == end && i == start),
                names@.len() == i - start,
                forall|j: int| 0 <= j < names@.len() ==> (#[trigger] names@[j])@ == corpus_file_name((start + j) as nat),
            decreases end - i,
        {
            let ext = if i % 3 == 0 { "md" } else if i % 3 == 1 { "txt" } else { "html" };
            let mut name = chars_of("doc-");
            append_chars(&mut name, padded_chars(i as u64, 5).as_slice());
            append_str(&mut name, ".");
            append_str(&mut name, ext);
            names.push(string_of(name.as_slice()));
            i += 1;
        }
        let mut dir = chars_of("section-");
        append_chars(&mut dir, padded_chars((k as u64) + 1, 3).as_slice());
        let ghost files = Seq::new(
            dir_files(k as nat, size as nat, files_per_dir as nat),
            |j: int| corpus_file_name(dir_start(k as nat, files_per_dir as nat) + j as nat),
        );
        assert(string_views(names@) =~= files);
        out.push((string_of(dir.as_slice()), names));
        k += 1;
    }
    out
}

} // verus!
