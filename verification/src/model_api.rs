//! Talking to an OpenAI-compatible chat model: URLs, the connection test,
//! and the server-sent event stream of an answer.
use vstd::prelude::*;
use crate::models::QaConnectionTestView;
use crate::sidecar::opt_view;
use crate::text::{append_str, chars_of, concat_str, contains, contains_chars, copy_range, ends_with, find_first, first_occ, has_prefix, has_suffix, lower_chars, lowercase, starts_with, str_eq, string_of, trim, trim_chars, trim_end_char, trim_end_char_chars, trim_str};

verus! {

/// The chat completions endpoint under a base URL (trailing slashes dropped).
pub open spec fn chat_url_of(base_url: Seq<char>) -> Seq<char> {
    trim_end_char(base_url, '/') + "/chat/completions"@
}

/// The chat completions endpoint (see `chat_url_of`).
pub fn chat_completions_url(base_url: &str) -> (r: String)
    ensures
        r@ == chat_url_of(base_url@),
{
    let mut b = trim_end_char_chars(chars_of(base_url).as_slice(), '/');
    append_str(&mut b, "/chat/completions");
    string_of(b.as_slice())
}

/// The bearer token sent: the trimmed API key, unless blank.
pub fn bearer_token(api_key: &str) -> (r: Option<String>)
    ensures
        r is Some <==> trim(api_key@).len() > 0,
        r matches Some(t) ==> t@ == trim(api_key@),
{
    let t = trim_str(api_key);
    if t.as_str().is_empty() { None } else { Some(t) }
}

/// The proxy a client is built with: the trimmed address, unless blank.
pub fn client_proxy(proxy_url: Option<&str>) -> (r: Option<String>)
    ensures
        match proxy_url {
            Some(u) => (r is Some <==> trim(u@).len() > 0) && (r matches Some(t) ==> t@ == trim(u@)),
            None => r is None,
        },
{
    match proxy_url {
        Some(u) => bearer_token(u),
        None => None,
    }
}

/// What `reqwest::Proxy::all` says of a proxy address: `None` when it takes the
/// address as the proxy of every request, else the text of its error. Which addresses
/// it takes is reqwest's and the `url` crate's URL parsing, named here and not restated.
pub uninterp spec fn proxy_rejection(url: Seq<char>) -> Option<Seq<char>>;

/// Calls `reqwest::Proxy::all` on the address and keeps only whether it was taken
/// and, if not, the error's text: `None` or `Some(text)` as `proxy_rejection` names it.
/// Nothing more of the parsing is claimed.
#[verifier::external_body]
pub(crate) fn proxy_rejection_of(url: &str) -> (r: Option<String>)
    ensures
        opt_view(r) == proxy_rejection(url@),
{
    match reqwest::Proxy::all(url) {
        Ok(_) => None,
        Err(e) => Some(e.to_string()),
    }
}

/// The refusal of a proxy address that reqwest rejects, given its error's text.
pub open spec fn invalid_proxy_message(error: Seq<char>) -> Seq<char> {
    "代理地址无效: "@ + error
}

/// What follows the parse of a proxy address: its rejection, if any, becomes
/// "代理地址无效: " and the error's text.
pub fn proxy_check_outcome(rejection: Option<String>) -> (r: Result<(), String>)
    ensures
        match rejection {
            Some(e) => r matches Err(m) && m@ == invalid_proxy_message(e@),
            None => r is Ok,
        },
{
    match rejection {
        Some(e) => Err(concat_str("代理地址无效: ", e.as_str())),
        None => Ok(()),
    }
}

/// The proxy a client is built with (`build_blocking_client`, `build_async_client`):
/// none when the address is absent or blank, else the trimmed address if reqwest
/// takes it, else the refusal of it.
pub fn checked_client_proxy(proxy_url: Option<&str>) -> (r: Result<Option<String>, String>)
    ensures
        match proxy_url {
            None => r matches Ok(p) && p is None,
            Some(u) => if trim(u@).len() == 0 {
                r matches Ok(p) && p is None
            } else {
                match proxy_rejection(trim(u@)) {
                    Some(e) => r matches Err(m) && m@ == invalid_proxy_message(e),
                    None => r matches Ok(p) && p matches Some(t) && t@ == trim(u@),
                }
            },
        },
{
    match client_proxy(proxy_url) {
        None => Ok(None),
        Some(t) => {
            let rejection = proxy_rejection_of(t.as_str());
            match proxy_check_outcome(rejection) {
                Ok(()) => Ok(Some(t)),
                Err(m) => Err(m),
            }
        },
    }
}

/// The text of a failed request: a timeout and a refused connection get
/// their own words, anything else the error's text.
pub fn format_request_error(prefix: &str, is_timeout: bool, is_connect: bool, error_text: &str) -> (r: String)
    ensures
        is_timeout ==> r@ == prefix@ + ": 模型服务响应超时"@,
        !is_timeout && is_connect ==> r@ == prefix@ + ": 无法连接模型服务"@,
        !is_timeout && !is_connect ==> r@ == prefix@ + ": "@ + error_text@,
{
    let mut out = chars_of(prefix);
    if is_timeout {
        append_str(&mut out, ": 模型服务响应超时");
    } else if is_connect {
        append_str(&mut out, ": 无法连接模型服务");
    } else {
        append_str(&mut out, ": ");
        append_str(&mut out, error_text);
    }
    string_of(out.as_slice())
}

/// A connection test needs a base URL and a model name.
pub fn check_connection_settings(base_url: &str, model: &str) -> (r: Result<(), String>)
    ensures
        trim(base_url@).len() == 0 ==> (r matches Err(e) && e@ == "API Base URL 不能为空"@),
        trim(base_url@).len() > 0 && trim(model@).len() == 0 ==> (r matches Err(e) && e@ == "模型名称不能为空"@),
        trim(base_url@).len() > 0 && trim(model@).len() > 0 ==> r is Ok,
{
    if trim_str(base_url).as_str().is_empty() {
        return Err("API Base URL 不能为空".to_owned());
    }
    if trim_str(model).as_str().is_empty() {
        return Err("模型名称不能为空".to_owned());
    }
    Ok(())
}

/// The model is served by Ollama: the provider says so, or the URL has
/// Ollama's port or API path.
pub open spec fn ollama(provider: Seq<char>, base_url: Seq<char>) -> bool {
    contains(lowercase(provider), "ollama"@) || contains(base_url, "11434"@) || contains(base_url, "/api/"@)
}

/// Whether the model is served by Ollama (see `ollama`).
pub fn is_ollama(provider: &str, base_url: &str) -> (r: bool)
    ensures
        r == ollama(provider@, base_url@),
{
    let p = lower_chars(chars_of(provider).as_slice());
    let b = chars_of(base_url);
    contains_chars(p.as_slice(), chars_of("ollama").as_slice())
        || contains_chars(b.as_slice(), chars_of("11434").as_slice())
        || contains_chars(b.as_slice(), chars_of("/api/").as_slice())
}

/// Ollama's native chat endpoint for a base URL: trailing slashes dropped,
/// then a trailing `/v1` or `/openai`, then `/api/chat` added.
pub open spec fn native_chat_url_of(base_url: Seq<char>) -> Seq<char> {
    let b = trim_end_char(base_url, '/');
    let native = if ends_with(b, "/v1"@) {
        b.take(b.len() - 3)
    } else if ends_with(b, "/openai"@) {
        b.take(b.len() - 7)
    } else {
        b
    };
    trim_end_char(native, '/') + "/api/chat"@
}

/// Ollama's native chat endpoint (see `native_chat_url_of`).
pub fn ollama_native_url(base_url: &str) -> (r: String)
    ensures
        r@ == native_chat_url_of(base_url@),
{
    let b = trim_end_char_chars(chars_of(base_url).as_slice(), '/');
    let v1 = chars_of("/v1");
    let openai = chars_of("/openai");
    proof {
        reveal_strlit("/v1");
        reveal_strlit("/openai");
    }
    let native = if has_suffix(b.as_slice(), v1.as_slice()) {
        copy_range(b.as_slice(), 0, b.len() - 3)
    } else if has_suffix(b.as_slice(), openai.as_slice()) {
        copy_range(b.as_slice(), 0, b.len() - 7)
    } else {
        copy_range(b.as_slice(), 0, b.len())
    };
    proof {
        assert(b@.subrange(0, b@.len() as int) =~= b@);
    }
    let mut out = trim_end_char_chars(native.as_slice(), '/');
    append_str(&mut out, "/api/chat");
    string_of(out.as_slice())
}

/// The native endpoint is tried when the compatible one answered nothing
/// and the model is served by Ollama.
pub fn needs_native_retry(message: &str, is_ollama: bool) -> (r: bool)
    ensures
        r == (message@.len() == 0 && is_ollama),
{
    message.is_empty() && is_ollama
}

/// The outcome of a connection test from the model's reply: an empty reply
/// fails, any other succeeds with the reply trimmed.
pub fn connection_result(message: &str) -> (r: Result<QaConnectionTestView, String>)
    ensures
        message@.len() == 0 ==> (r matches Err(e) && e@ == "模型返回为空"@),
        message@.len() > 0 ==> (r matches Ok(v) && v.ok && v.message@ == "连接成功: "@ + trim(message@)),
{
    if message.is_empty() {
        return Err("模型返回为空".to_owned());
    }
    let t = trim_str(message);
    Ok(QaConnectionTestView { ok: true, message: concat_str("连接成功: ", t.as_str()) })
}

/// The complete lines at the front of a buffer, each without its trailing
/// carriage returns, and what is left after the last line break.
pub open spec fn sse_split(buf: Seq<char>) -> (Seq<Seq<char>>, Seq<char>)
    decreases buf.len(),
{
    match first_occ(buf, seq!['\n'], 0) {
        Some(i) => if 0 <= i < buf.len() {
            let rest = sse_split(buf.skip(i + 1));
            (seq![trim_end_char(buf.take(i), '\r')] + rest.0, rest.1)
        } else {
            (Seq::empty(), buf)
        },
        None => (Seq::empty(), buf),
    }
}

/// Splits the complete lines off a buffer (see `sse_split`).
pub fn take_lines(buffer: &str) -> (r: (Vec<String>, String))
    ensures
        r.0@.map_values(|l: String| l@) == sse_split(buffer@).0,
        r.1@ == sse_split(buffer@).1,
{
    let b = chars_of(buffer);
    let nl = chars_of("\n");
    assert(nl@ =~= seq!['\n']) by {
        reveal_strlit("\n");
    }
    let mut lines: Vec<String> = Vec::new();
    let mut start: usize = 0;
    assert(b@.skip(0) =~= b@);
    assert(lines@.map_values(|l: String| l@) + sse_split(b@).0 =~= sse_split(b@).0);
    while start <= b.len()
        invariant
            start <= b@.len(),
            b@ == buffer@,
            nl@ == seq!['\n'],
            start <= b@.len() ==> ({
                let whole = sse_split(buffer@);
                let tail = sse_split(b@.skip(start as int));
                &&& whole.0 == lines@.map_values(|l: String| l@) + tail.0
                &&& whole.1 == tail.1
            }),
        decreases b@.len() + 1 - start,
    {
        match find_first(b.as_slice(), nl.as_slice(), start) {
            Some(i) => {
                proof {
                    crate::text::lemma_first_occ_bounds(b@, nl@, start as int);
                    lemma_first_occ_shift(b@, start as int, i as int);
                    assert(b@.skip(start as int).take(i - start) =~= b@.subrange(start as int, i as int));
                    assert(b@.skip(start as int).skip(i - start + 1) =~= b@.skip(i + 1));
                }
                let piece = copy_range(b.as_slice(), start, i);
                let line = trim_end_char_chars(piece.as_slice(), '\r');
                let ghost before = lines@.map_values(|l: String| l@);
                lines.push(string_of(line.as_slice()));
                assert(lines@.map_values(|l: String| l@) =~= before.push(line@));
                start = i + 1;
            },
            None => {
                proof {
                    lemma_first_occ_none_shift(b@, start as int);
                }
                let rest = copy_range(b.as_slice(), start, b.len());
                assert(rest@ =~= b@.skip(start as int));
                assert(lines@.map_values(|l: String| l@) + Seq::<Seq<char>>::empty() =~= lines@.map_values(|l: String| l@));
                return (lines, string_of(rest.as_slice()));
            },
        }
    }
    (lines, String::new())
}

proof fn lemma_first_occ_skip(b: Seq<char>, n: Seq<char>, start: int, j: int)
    requires
        0 <= start <= b.len(),
        0 <= j,
    ensures
        first_occ(b.skip(start), n, j) == match first_occ(b, n, start + j) {
            Some(k) => Some(k - start),
            None => None::<int>,
        },
    decreases b.len() + 1 - (start + j),
{
    let t = b.skip(start);
    if j + n.len() <= t.len() {
        assert(t.subrange(j, j + n.len()) =~= b.subrange(start + j, start + j + n.len()));
        if !crate::text::occurs_at(t, n, j) {
            lemma_first_occ_skip(b, n, start, j + 1);
        }
    }
}

proof fn lemma_first_occ_shift(b: Seq<char>, start: int, i: int)
    requires
        0 <= start <= b.len(),
        first_occ(b, seq!['\n'], start) == Some(i),
    ensures
        first_occ(b.skip(start), seq!['\n'], 0) == Some(i - start),
{
    lemma_first_occ_skip(b, seq!['\n'], start, 0);
}

proof fn lemma_first_occ_none_shift(b: Seq<char>, start: int)
    requires
        0 <= start <= b.len(),
        first_occ(b, seq!['\n'], start) is None,
    ensures
        first_occ(b.skip(start), seq!['\n'], 0) is None,
{
    lemma_first_occ_skip(b, seq!['\n'], start, 0);
}

/// `s` without every leading occurrence of `p` (`str::trim_start_matches`).
pub open spec fn strip_prefixes(s: Seq<char>, p: Seq<char>) -> Seq<char>
    decreases s.len(),
{
    if p.len() > 0 && starts_with(s, p) {
        strip_prefixes(s.skip(p.len() as int), p)
    } else {
        s
    }
}

fn strip_prefixes_chars(s: &[char], p: &[char]) -> (r: Vec<char>)
    ensures
        r@ == strip_prefixes(s@, p@),
{
    if p.len() == 0 {
        return copy_range(s, 0, s.len());
    }
    let mut i: usize = 0;
    assert(s@.skip(0) =~= s@);
    while p.len() <= s.len() - i && crate::text::occurs_at_exec(s, p, i)
        invariant
            p@.len() > 0,
            i <= s@.len(),
            strip_prefixes(s@, p@) == strip_prefixes(s@.skip(i as int), p@),
        decreases s@.len() - i,
    {
        proof {
            assert(s@.skip(i as int).subrange(0, p@.len() as int) =~= s@.subrange(i as int, i + p@.len()));
            assert(s@.skip(i as int).skip(p@.len() as int) =~= s@.skip(i + p@.len()));
        }
        i = i + p.len();
    }
    proof {
        if i + p@.len() <= s@.len() {
            assert(s@.skip(i as int).subrange(0, p@.len() as int) =~= s@.subrange(i as int, i + p@.len()));
        }
    }
    let r = copy_range(s, i, s.len());
    assert(r@ =~= s@.skip(i as int));
    r
}

/// A line of the answer stream.
#[derive(Debug, Clone)]
pub enum SseLine {
    /// Blank, or not a data line.
    Skip,
    /// The end of the answer.
    Done,
    /// A data line and its payload.
    Data(String),
}

/// What a line of the answer stream is: blank lines and lines that do not
/// start with `data:` are skipped; otherwise the payload (after the `data:`
/// prefixes, trimmed) is `[DONE]` or data.
pub open spec fn sse_line_kind(line: Seq<char>) -> Option<Option<Seq<char>>> {
    let t = trim(line);
    if t.len() == 0 || !starts_with(t, "data:"@) {
        None
    } else {
        let payload = trim(strip_prefixes(t, "data:"@));
        if payload == "[DONE]"@ { Some(None) } else { Some(Some(payload)) }
    }
}

/// What a line of the answer stream is (see `sse_line_kind`: `None` is
/// `Skip`, `Some(None)` is `Done`).
pub fn classify_sse_line(line: &str) -> (r: SseLine)
    ensures
        match sse_line_kind(line@) {
            None => r is Skip,
            Some(None) => r is Done,
            Some(Some(p)) => r matches SseLine::Data(x) && x@ == p,
        },
{
    let t = trim_chars(chars_of(line).as_slice());
    let prefix = chars_of("data:");
    if t.len() == 0 || !has_prefix(t.as_slice(), prefix.as_slice()) {
        return SseLine::Skip;
    }
    let payload = trim_chars(strip_prefixes_chars(t.as_slice(), prefix.as_slice()).as_slice());
    let p = string_of(payload.as_slice());
    if str_eq(p.as_str(), "[DONE]") {
        SseLine::Done
    } else {
        SseLine::Data(p)
    }
}

/// The answer after the choices of one chunk: each non-empty content is
/// appended; with `stop_at_finish`, a choice that carries a finish reason
/// ends the chunk.
pub open spec fn answer_after(answer: Seq<char>, choices: Seq<(Option<Seq<char>>, bool)>, stop_at_finish: bool) -> Seq<char>
    decreases choices.len(),
{
    if choices.len() == 0 {
        answer
    } else {
        let c = choices[0];
        let next = match c.0 {
            Some(t) => if t.len() > 0 { answer + t } else { answer },
            None => answer,
        };
        if c.1 && stop_at_finish { next } else { answer_after(next, choices.drop_first(), stop_at_finish) }
    }
}

/// The (content, has finish reason) of the choices of a chunk.
pub open spec fn choice_views(choices: Seq<(Option<String>, bool)>) -> Seq<(Option<Seq<char>>, bool)> {
    choices.map_values(|c: (Option<String>, bool)| (crate::sidecar::opt_view(c.0), c.1))
}

/// Appends the contents of a chunk's choices to the answer (see
/// `answer_after`); the answer after each appended content is returned, in
/// order, for the listener.
pub fn apply_choices(answer: &mut String, choices: &Vec<(Option<String>, bool)>, stop_at_finish: bool) -> (r: Vec<String>)
    ensures
        final(answer)@ == answer_after(old(answer)@, choice_views(choices@), stop_at_finish),
{
    let ghost cv = choice_views(choices@);
    let ghost start = answer@;
    let mut updates: Vec<String> = Vec::new();
    let mut i: usize = 0;
    assert(cv.skip(0) =~= cv);
    while i < choices.len()
        invariant
            i <= choices@.len(),
            cv == choice_views(choices@),
            start == old(answer)@,
            answer_after(start, cv, stop_at_finish) == answer_after(answer@, cv.skip(i as int), stop_at_finish),
        decreases choices@.len() - i,
    {
        proof {
            assert(cv.skip(i as int)[0] == cv[i as int]);
            assert(cv.skip(i as int).drop_first() =~= cv.skip(i + 1));
        }
        let ghost prev = answer@;
        let (content, finish) = (&choices[i].0, choices[i].1);
        if let Some(t) = content {
            if !t.as_str().is_empty() {
                *answer = concat_str(answer.as_str(), t.as_str());
                updates.push(answer.clone());
            }
        }
        assert(answer@ == match cv[i as int].0 {
            Some(t) => if t.len() > 0 { prev + t } else { prev },
            None => prev,
        });
        assert(cv[i as int].1 == finish);
        if finish && stop_at_finish {
            assert(answer_after(prev, cv.skip(i as int), stop_at_finish) == answer@);
            return updates;
        }
        i += 1;
    }
    proof {
        assert(cv.skip(i as int).len() == 0);
    }
    updates
}

/// The final answer: trimmed, and refused when empty.
pub fn finish_answer(answer: &str) -> (r: Result<String, String>)
    ensures
        trim(answer@).len() == 0 ==> (r matches Err(e) && e@ == "模型返回为空"@),
        trim(answer@).len() > 0 ==> (r matches Ok(a) && a@ == trim(answer@)),
{
    let t = trim_str(answer);
    if t.as_str().is_empty() {
        Err("模型返回为空".to_owned())
    } else {
        Ok(t)
    }
}

/// The first content among the choices of a non-streamed reply.
pub open spec fn first_content_of(contents: Seq<Option<Seq<char>>>) -> Seq<char>
    decreases contents.len(),
{
    if contents.len() == 0 {
        Seq::empty()
    } else {
        match contents[0] {
            Some(c) => c,
            None => first_content_of(contents.drop_first()),
        }
    }
}

/// The answer of a non-streamed reply: the first choice that has content
/// (nothing when none has), trimmed, and refused when empty.
pub fn reply_answer(contents: &Vec<Option<String>>) -> (r: Result<String, String>)
    ensures
        ({
            let c = first_content_of(contents@.map_values(|o: Option<String>| crate::sidecar::opt_view(o)));
            &&& trim(c).len() == 0 ==> (r matches Err(e) && e@ == "模型返回为空"@)
            &&& trim(c).len() > 0 ==> (r matches Ok(a) && a@ == trim(c))
        }),
{
    let ghost cv = contents@.map_values(|o: Option<String>| crate::sidecar::opt_view(o));
    let mut i: usize = 0;
    assert(cv.skip(0) =~= cv);
    while i < contents.len()
        invariant
            i <= contents@.len(),
            cv == contents@.map_values(|o: Option<String>| crate::sidecar::opt_view(o)),
            first_content_of(cv) == first_content_of(cv.skip(i as int)),
        decreases contents@.len() - i,
    {
        proof {
            assert(cv.skip(i as int)[0] == cv[i as int]);
            assert(cv.skip(i as int).drop_first() =~= cv.skip(i + 1));
        }
        if let Some(c) = &contents[i] {
            return finish_answer(c.as_str());
        }
        i += 1;
    }
    proof {
        assert(cv.skip(i as int).len() == 0);
        reveal_strlit("");
    }
    finish_answer("")
}

} // verus!
