//! Question answering: the sidecar client, what a question is asked with,
//! the progress stages shown, and how the sidecar's answer is recorded.
use vstd::prelude::*;
use crate::clock::{format_unix_ts, format_unix_ts_or_empty, unix_ts_label, unix_ts_label_or_empty};
use crate::models::{EmbeddingModelView, QaSessionView};
use crate::parser::{default_script, chosen_sidecar, SpawnPlan};
use crate::sidecar::opt_view;
use crate::model_api::{invalid_proxy_message, proxy_check_outcome, proxy_rejection, proxy_rejection_of};
use crate::stream::StreamFailure;
use crate::text::{
    append_chars, append_str, chars_of, collapse_ws, collapse_ws_chars, concat_str, join, parse_u64,
    parsed_u64, str_eq, string_of, take_chars, take_prefix, trim, trim_chars, trim_str,
};

verus! {

// ---------------------------------------------------------------------------
// The sidecar client
// ---------------------------------------------------------------------------

/// Why a question could not be put to the sidecar.
#[derive(Debug, Clone)]
pub enum QaClientError {
    NotConfigured,
    Timeout,
    SpawnFailed(String),
    Io(String),
    InvalidResponse(String),
}

/// The text of a client error.
pub open spec fn qa_error_text(e: QaClientError) -> Seq<char> {
    match e {
        QaClientError::NotConfigured => "python qa sidecar is not configured"@,
        QaClientError::Timeout => "python qa sidecar timed out"@,
        QaClientError::SpawnFailed(s) => "failed to spawn python qa sidecar: "@ + s@,
        QaClientError::Io(s) => "python qa sidecar io error: "@ + s@,
        QaClientError::InvalidResponse(s) => "python qa sidecar returned invalid response: "@ + s@,
    }
}

impl QaClientError {
    /// The error as text (see `qa_error_text`).
    pub fn message(&self) -> (r: String)
        ensures
            r@ == qa_error_text(*self),
    {
        match self {
            QaClientError::NotConfigured => "python qa sidecar is not configured".to_owned(),
            QaClientError::Timeout => "python qa sidecar timed out".to_owned(),
            QaClientError::SpawnFailed(s) => concat_str("failed to spawn python qa sidecar: ", s.as_str()),
            QaClientError::Io(s) => concat_str("python qa sidecar io error: ", s.as_str()),
            QaClientError::InvalidResponse(s) => concat_str("python qa sidecar returned invalid response: ", s.as_str()),
        }
    }

    /// The failure of an exchange with the sidecar as a client error.
    pub fn from_stream(failure: StreamFailure) -> (r: QaClientError)
        ensures
            match failure {
                StreamFailure::Timeout => r is Timeout,
                StreamFailure::Io(e) => r matches QaClientError::Io(x) && x@ == e@,
                StreamFailure::InvalidResponse(e) => r matches QaClientError::InvalidResponse(x) && x@ == e@,
                StreamFailure::Exited(e) => r matches QaClientError::SpawnFailed(x) && x@ == e@,
            },
    {
        match failure {
            StreamFailure::Timeout => QaClientError::Timeout,
            StreamFailure::Io(e) => QaClientError::Io(e),
            StreamFailure::InvalidResponse(e) => QaClientError::InvalidResponse(e),
            StreamFailure::Exited(e) => QaClientError::SpawnFailed(e),
        }
    }
}

/// A progress event of the sidecar.
#[derive(Debug, Clone)]
pub struct RagProgressEvent {
    pub request_id: String,
    pub kind: String,
    pub event: String,
    pub stage: String,
    pub message: String,
    pub answer_delta: Option<String>,
    pub percent: i64,
    pub current: String,
    pub total: usize,
    pub processed: usize,
    pub warning: Option<String>,
    pub details: Option<String>,
}

/// The error the sidecar reports for a question.
#[derive(Debug, Clone)]
pub struct RagError {
    pub code: String,
    pub message: String,
    pub details: Option<String>,
}

/// How the question-answering sidecar is reached.
#[derive(Debug, Clone)]
pub struct PythonQaClient {
    pub python_bin: String,
    pub script_path: String,
    pub bundled_sidecar: Option<String>,
    pub timeout_ms: u64,
    pub script_found: Option<String>,
}

/// The timeout: the question-answering setting when it parses, else the
/// parser's, else five minutes.
pub open spec fn qa_timeout(qa: Option<Seq<char>>, parser: Option<Seq<char>>) -> u64 {
    let q = match qa { Some(v) => parsed_u64(v), None => None };
    let p = match parser { Some(v) => parsed_u64(v), None => None };
    match q {
        Some(t) => t,
        None => match p {
            Some(t) => t,
            None => 300_000,
        },
    }
}

impl PythonQaClient {
    /// The client configured from the settings the environment gives (the
    /// sidecar is the parser's, which also answers questions).
    pub fn from_settings(
        parser_bin: Option<String>,
        parser_script: Option<String>,
        parser_bin_exists: bool,
        bundled: Option<String>,
        qa_timeout_setting: Option<String>,
        parser_timeout_setting: Option<String>,
    ) -> (r: PythonQaClient)
        ensures
            r.python_bin@ == match parser_bin { Some(b) => b@, None => "python3"@ },
            r.script_path@ == match parser_script { Some(s) => s@, None => default_script() },
            opt_view(r.bundled_sidecar) == chosen_sidecar(opt_view(parser_bin), parser_bin_exists, opt_view(bundled)),
            r.timeout_ms == qa_timeout(opt_view(qa_timeout_setting), opt_view(parser_timeout_setting)),
            r.script_found is None,
    {
        let parser = crate::parser::PythonParserClient::from_settings(
            parser_bin,
            parser_script,
            parser_bin_exists,
            bundled,
            None,
        );
        let q = match &qa_timeout_setting {
            Some(v) => parse_u64(v.as_str()),
            None => None,
        };
        let p = match &parser_timeout_setting {
            Some(v) => parse_u64(v.as_str()),
            None => None,
        };
        let timeout_ms = match q {
            Some(t) => t,
            None => match p {
                Some(t) => t,
                None => 300_000,
            },
        };
        PythonQaClient {
            python_bin: parser.python_bin,
            script_path: parser.script_path,
            bundled_sidecar: parser.bundled_sidecar,
            timeout_ms,
            script_found: None,
        }
    }

    /// The client with the script's location on disk.
    pub fn with_script_found(self, found: Option<String>) -> (r: PythonQaClient)
        ensures
            r.python_bin == self.python_bin,
            r.script_path == self.script_path,
            r.bundled_sidecar == self.bundled_sidecar,
            r.timeout_ms == self.timeout_ms,
            r.script_found == found,
    {
        PythonQaClient { script_found: found, ..self }
    }

    /// The sidecar can be started.
    pub open spec fn configured(&self) -> bool {
        self.bundled_sidecar is Some || self.script_found is Some
    }

    /// `is_configured` (see `configured`).
    pub fn is_configured(&self) -> (r: bool)
        ensures
            r == self.configured(),
    {
        self.bundled_sidecar.is_some() || self.script_found.is_some()
    }

    /// How the sidecar is started for a question; not configured without a
    /// sidecar or a script.
    pub fn spawn_plan(&self) -> (r: Result<SpawnPlan, QaClientError>)
        ensures
            r is Err <==> !self.configured(),
            r matches Err(e) ==> e is NotConfigured,
            r matches Ok(p) ==> match self.bundled_sidecar {
                Some(s) => p.program@ == s@ && p.args@.len() == 0,
                None => self.script_found matches Some(f) && p.program@ == self.python_bin@ && p.args@.len() == 1
                    && p.args@[0]@ == f@,
            },
    {
        if let Some(s) = &self.bundled_sidecar {
            return Ok(SpawnPlan { program: s.clone(), args: Vec::new() });
        }
        match &self.script_found {
            Some(f) => {
                let mut args: Vec<String> = Vec::new();
                args.push(f.clone());
                Ok(SpawnPlan { program: self.python_bin.clone(), args })
            },
            None => Err(QaClientError::NotConfigured),
        }
    }
}

// ---------------------------------------------------------------------------
// Asking a question
// ---------------------------------------------------------------------------

/// The connection to a chat model.
#[derive(Debug, Clone)]
pub struct ModelConnection {
    pub provider: String,
    pub base_url: String,
    pub api_key: String,
    pub model: String,
}

/// The question to ask: trimmed, and refused when empty.
pub fn normalize_question(question: &str) -> (r: Result<String, String>)
    ensures
        trim(question@).len() == 0 ==> (r matches Err(e) && e@ == "问题不能为空"@),
        trim(question@).len() > 0 ==> (r matches Ok(q) && q@ == trim(question@)),
{
    let q = trim_str(question);
    if q.as_str().is_empty() {
        Err("问题不能为空".to_owned())
    } else {
        Ok(q)
    }
}

/// An optional id, trimmed; a blank one is no id.
pub open spec fn optional_id(id: Option<Seq<char>>) -> Option<Seq<char>> {
    match id {
        Some(i) => if trim(i).len() > 0 { Some(trim(i)) } else { None },
        None => None,
    }
}

/// A session or profile id as given: trimmed, and dropped when blank.
pub fn normalize_optional_id(id: Option<String>) -> (r: Option<String>)
    ensures
        opt_view(r) == optional_id(opt_view(id)),
{
    match id {
        Some(i) => {
            let t = trim_str(i.as_str());
            if t.as_str().is_empty() { None } else { Some(t) }
        },
        None => None,
    }
}

/// The refusal of a question asked with a model connection that does not exist.
pub fn missing_profile_error(profile_id: &str) -> (r: String)
    ensures
        r@ == "找不到模型连接: "@ + profile_id@,
{
    concat_str("找不到模型连接: ", profile_id)
}

/// The connection a question is asked with: the chosen profile's, else the
/// settings'.
pub fn active_connection(settings: &ModelConnection, profile: Option<&ModelConnection>) -> (r: ModelConnection)
    ensures
        match profile {
            Some(p) => r.provider@ == p.provider@ && r.base_url@ == p.base_url@ && r.api_key@ == p.api_key@
                && r.model@ == p.model@,
            None => r.provider@ == settings.provider@ && r.base_url@ == settings.base_url@
                && r.api_key@ == settings.api_key@ && r.model@ == settings.model@,
        },
{
    let c = match profile {
        Some(p) => p,
        None => settings,
    };
    ModelConnection {
        provider: c.provider.clone(),
        base_url: c.base_url.clone(),
        api_key: c.api_key.clone(),
        model: c.model.clone(),
    }
}

/// The proxy settings of outgoing requests.
#[derive(Debug, Clone)]
pub struct NetworkProxySettings {
    pub enabled: bool,
    pub proxy_url: String,
}

/// The proxy settings as the application shows them.
#[derive(Debug, Clone)]
pub struct NetworkProxySettingsView {
    pub enabled: bool,
    pub proxy_url: String,
    pub updated_at: String,
}

/// No proxy.
pub fn default_network_proxy_settings() -> (r: NetworkProxySettings)
    ensures
        !r.enabled && r.proxy_url@.len() == 0,
{
    NetworkProxySettings { enabled: false, proxy_url: String::new() }
}

/// `network_proxy_settings_to_view`.
pub fn network_proxy_settings_to_view(settings: &NetworkProxySettings, updated_at: String) -> (r: NetworkProxySettingsView)
    ensures
        r.enabled == settings.enabled && r.proxy_url@ == settings.proxy_url@ && r.updated_at@ == updated_at@,
{
    NetworkProxySettingsView { enabled: settings.enabled, proxy_url: settings.proxy_url.clone(), updated_at }
}

/// The proxy requests go through: the configured one, when enabled and not
/// blank.
pub fn active_proxy_url(settings: &NetworkProxySettings) -> (r: Option<String>)
    ensures
        r is Some <==> settings.enabled && trim(settings.proxy_url@).len() > 0,
        r matches Some(u) ==> u@ == settings.proxy_url@,
{
    if settings.enabled && !trim_str(settings.proxy_url.as_str()).as_str().is_empty() {
        Some(settings.proxy_url.clone())
    } else {
        None
    }
}

/// Proxy settings about to be saved (`save_network_proxy_settings`): the address is
/// trimmed, may not be empty when the proxy is enabled, and, when not empty, must be
/// one that reqwest takes as a proxy.
pub fn check_proxy_settings(enabled: bool, proxy_url: &str) -> (r: Result<NetworkProxySettings, String>)
    ensures
        enabled && trim(proxy_url@).len() == 0 ==> (r matches Err(e) && e@ == "代理地址不能为空"@),
        trim(proxy_url@).len() > 0 ==> (match proxy_rejection(trim(proxy_url@)) {
            Some(err) => r matches Err(e) && e@ == invalid_proxy_message(err),
            None => r matches Ok(s) && s.enabled == enabled && s.proxy_url@ == trim(proxy_url@),
        }),
        !enabled && trim(proxy_url@).len() == 0 ==> (r matches Ok(s) && !s.enabled && s.proxy_url@.len() == 0),
{
    let url = trim_str(proxy_url);
    if enabled && url.as_str().is_empty() {
        return Err("代理地址不能为空".to_owned());
    }
    if !url.as_str().is_empty() {
        let rejection = proxy_rejection_of(url.as_str());
        match proxy_check_outcome(rejection) {
            Ok(()) => {},
            Err(m) => {
                return Err(m);
            },
        }
    }
    Ok(NetworkProxySettings { enabled, proxy_url: url })
}

/// `truncate_prompt_text`: at most `max_chars` characters.
pub fn truncate_prompt_text(text: &str, max_chars: usize) -> (r: String)
    ensures
        r@ == take_chars(text@, max_chars as nat),
{
    string_of(take_prefix(chars_of(text).as_slice(), max_chars).as_slice())
}

/// The last (at most) three messages of a session.
pub open spec fn last_three<T>(s: Seq<T>) -> Seq<T> {
    if s.len() <= 3 { s } else { s.skip(s.len() - 3) }
}

/// The question of a message for the session context: trimmed, at most 80
/// characters.
pub open spec fn short_question(q: Seq<char>) -> Seq<char> {
    take_chars(trim(q), 80)
}

/// The answer of a message for the session context: trimmed, at most 140
/// characters.
pub open spec fn short_answer(a: Seq<char>) -> Seq<char> {
    take_chars(trim(a), 140)
}

/// The non-empty short questions, in order.
pub open spec fn recent_question_list(msgs: Seq<(Seq<char>, Seq<char>)>) -> Seq<Seq<char>>
    decreases msgs.len(),
{
    if msgs.len() == 0 {
        Seq::empty()
    } else {
        let prev = recent_question_list(msgs.drop_last());
        let q = short_question(msgs.last().0);
        if q.len() == 0 { prev } else { prev.push(q) }
    }
}

/// The "Q:" and "A:" lines of the messages.
pub open spec fn exchange_lines(msgs: Seq<(Seq<char>, Seq<char>)>) -> Seq<Seq<char>>
    decreases msgs.len(),
{
    if msgs.len() == 0 {
        Seq::empty()
    } else {
        let prev = exchange_lines(msgs.drop_last());
        let q = short_question(msgs.last().0);
        let a = short_answer(msgs.last().1);
        if q.len() == 0 && a.len() == 0 {
            prev
        } else if a.len() == 0 {
            prev.push("Q: "@ + q)
        } else {
            prev.push("Q: "@ + q).push("A: "@ + a)
        }
    }
}

/// The context of a session: the recent questions on one line, then the
/// last exchanges, for the last three messages.
pub open spec fn session_context_of(msgs: Seq<(Seq<char>, Seq<char>)>) -> Seq<char> {
    let recent = last_three(msgs);
    let qs = recent_question_list(recent);
    let head = if qs.len() == 0 { Seq::empty() } else { seq!["最近用户问题: "@ + join(qs, " -> "@)] };
    join(head + exchange_lines(recent), "\n"@)
}

/// The (question, answer) of each message.
pub open spec fn message_pairs(msgs: Seq<(String, String)>) -> Seq<(Seq<char>, Seq<char>)> {
    msgs.map_values(|m: (String, String)| (m.0@, m.1@))
}

fn short_chars(s: &str, n: usize) -> (r: Vec<char>)
    ensures
        r@ == take_chars(trim(s@), n as nat),
{
    let t = trim_chars(chars_of(s).as_slice());
    take_prefix(t.as_slice(), n)
}

/// `build_session_context` over the (question, answer) of the session's
/// messages, oldest first (see `session_context_of`).
pub fn build_session_context(messages: &Vec<(String, String)>) -> (r: String)
    ensures
        r@ == session_context_of(message_pairs(messages@)),
{
    let ghost all = message_pairs(messages@);
    let start: usize = if messages.len() <= 3 { 0 } else { messages.len() - 3 };
    let ghost recent = last_three(all);
    assert(recent =~= all.skip(start as int));
    let mut qs: Vec<Vec<char>> = Vec::new();
    let mut lines: Vec<Vec<char>> = Vec::new();
    let mut i: usize = start;
    while i < messages.len()
        invariant
            start <= i <= messages@.len(),
            all == message_pairs(messages@),
            recent == all.skip(start as int),
            qs@.map_values(|v: Vec<char>| v@) == recent_question_list(recent.take(i - start)),
            lines@.map_values(|v: Vec<char>| v@) == exchange_lines(recent.take(i - start)),
        decreases messages@.len() - i,
    {
        proof {
            assert(recent.take(i + 1 - start).drop_last() =~= recent.take(i - start));
            assert(recent.take(i + 1 - start).last() == all[i as int]);
        }
        let q = short_chars(messages[i].0.as_str(), 80);
        let a = short_chars(messages[i].1.as_str(), 140);
        let ghost qs_before = qs@;
        let ghost lines_before = lines@;
        if q.len() > 0 {
            qs.push(q.clone());
            assert(qs@.map_values(|v: Vec<char>| v@) =~= qs_before.map_values(|v: Vec<char>| v@).push(q@));
        }
        if q.len() > 0 || a.len() > 0 {
            let mut ql = chars_of("Q: ");
            append_chars(&mut ql, q.as_slice());
            lines.push(ql);
            if a.len() > 0 {
                let mut al = chars_of("A: ");
                append_chars(&mut al, a.as_slice());
                lines.push(al);
            }
        }
        assert(lines@.map_values(|v: Vec<char>| v@) =~= exchange_lines(recent.take(i + 1 - start)));
        i += 1;
    }
    assert(recent.take(messages@.len() - start) =~= recent);
    let ghost body = lines@.map_values(|v: Vec<char>| v@);
    if qs.len() > 0 {
        let sep = chars_of(" -> ");
        let joined = crate::text::join_chars(&qs, sep.as_slice());
        let mut head = chars_of("最近用户问题: ");
        append_chars(&mut head, joined.as_slice());
        let ghost hv = head@;
        lines.insert(0, head);
        assert(lines@.map_values(|v: Vec<char>| v@) =~= seq![hv] + body);
    } else {
        assert(lines@.map_values(|v: Vec<char>| v@) =~= Seq::<Seq<char>>::empty() + body);
    }
    let out_lines = lines;
    let sep = chars_of("\n");
    let joined = crate::text::join_chars(&out_lines, sep.as_slice());
    string_of(joined.as_slice())
}

/// Where a question goes.
#[derive(Debug, Clone, Copy, PartialEq, Eq, Structural)]
pub enum AskRoute {
    /// No model connection: the answer is recorded as `model_not_configured`.
    ModelNotConfigured,
    /// No sidecar: the answer is recorded as failed.
    SidecarMissing,
    /// The question goes to the sidecar.
    Sidecar,
}

/// Where a question goes: a connection without provider, base URL or model
/// is not configured; without a sidecar it fails; else the sidecar answers.
pub open spec fn route_of(c: ModelConnection, sidecar_configured: bool) -> AskRoute {
    if trim(c.provider@).len() == 0 || trim(c.base_url@).len() == 0 || trim(c.model@).len() == 0 {
        AskRoute::ModelNotConfigured
    } else if !sidecar_configured {
        AskRoute::SidecarMissing
    } else {
        AskRoute::Sidecar
    }
}

fn blank(s: &str) -> (r: bool)
    ensures
        r == (trim(s@).len() == 0),
{
    trim_str(s).as_str().is_empty()
}

/// Where a question goes (see `route_of`).
pub fn ask_route(connection: &ModelConnection, sidecar_configured: bool) -> (r: AskRoute)
    ensures
        r == route_of(*connection, sidecar_configured),
{
    if blank(connection.provider.as_str()) || blank(connection.base_url.as_str()) || blank(connection.model.as_str()) {
        AskRoute::ModelNotConfigured
    } else if !sidecar_configured {
        AskRoute::SidecarMissing
    } else {
        AskRoute::Sidecar
    }
}

/// The state and error recorded for a question that does not reach the
/// sidecar; `None` for one that does.
pub fn route_outcome(route: AskRoute) -> (r: Option<(String, String)>)
    ensures
        route == AskRoute::ModelNotConfigured ==> (r matches Some(o) && o.0@ == "model_not_configured"@
            && o.1@ == "问答模型未启用或未配置"@),
        route == AskRoute::SidecarMissing ==> (r matches Some(o) && o.0@ == "failed"@
            && o.1@ == "问答 sidecar 未配置，Rust 旧问答链路已移除"@),
        route == AskRoute::Sidecar ==> r is None,
{
    match route {
        AskRoute::ModelNotConfigured => Some(("model_not_configured".to_owned(), "问答模型未启用或未配置".to_owned())),
        AskRoute::SidecarMissing => Some(("failed".to_owned(), "问答 sidecar 未配置，Rust 旧问答链路已移除".to_owned())),
        AskRoute::Sidecar => None,
    }
}

/// The state shown for a stage the sidecar reports.
pub open spec fn stage_state(stage: Seq<char>) -> Seq<char> {
    if stage == "bootstrap"@ || stage == "retrieve"@ || stage == "rank"@ || stage == "pack_evidence"@ {
        "searching"@
    } else if stage == "prompt"@ || stage == "generate"@ {
        "generating"@
    } else if stage == "answer_delta"@ {
        "streaming"@
    } else if stage == "verify"@ || stage == "judge"@ || stage == "repair"@ || stage == "finalize"@
        || stage == "finish"@ {
        "verifying"@
    } else if stage == "failed"@ {
        "failed"@
    } else {
        "running"@
    }
}

/// The state shown for a stage (see `stage_state`).
pub fn progress_stage(stage: &str) -> (r: String)
    ensures
        r@ == stage_state(stage@),
{
    if str_eq(stage, "bootstrap") || str_eq(stage, "retrieve") || str_eq(stage, "rank") || str_eq(stage, "pack_evidence") {
        "searching".to_owned()
    } else if str_eq(stage, "prompt") || str_eq(stage, "generate") {
        "generating".to_owned()
    } else if str_eq(stage, "answer_delta") {
        "streaming".to_owned()
    } else if str_eq(stage, "verify") || str_eq(stage, "judge") || str_eq(stage, "repair") || str_eq(stage, "finalize")
        || str_eq(stage, "finish") {
        "verifying".to_owned()
    } else if str_eq(stage, "failed") {
        "failed".to_owned()
    } else {
        "running".to_owned()
    }
}

/// The answer shown so far after one more piece: the first piece loses its
/// leading whitespace (and adds nothing when that leaves nothing).
pub open spec fn streamed_after(answer: Seq<char>, delta: Option<Seq<char>>) -> Seq<char> {
    match delta {
        Some(d) => if answer.len() == 0 { crate::text::trim_start(d) } else { answer + d },
        None => answer,
    }
}

/// Adds a piece of the answer to the answer shown (see `streamed_after`).
pub fn append_answer_delta(answer: &mut String, delta: Option<&str>)
    ensures
        final(answer)@ == streamed_after(old(answer)@, match delta { Some(d) => Some(d@), None => None }),
{
    if let Some(d) = delta {
        let mut cs = chars_of(answer.as_str());
        if cs.len() == 0 {
            let t = crate::text::trim_start_chars(chars_of(d).as_slice());
            *answer = string_of(t.as_slice());
        } else {
            append_str(&mut cs, d);
            *answer = string_of(cs.as_slice());
        }
    }
}

/// The state and error of a question whose exchange with the sidecar
/// failed: a timeout counts as cancelled.
pub fn failure_outcome(error: &QaClientError) -> (r: (String, String))
    ensures
        error is Timeout ==> r.0@ == "cancelled"@ && r.1@ == "Python 问答 sidecar 超时"@,
        !(error is Timeout) ==> r.0@ == "failed"@ && r.1@ == qa_error_text(*error),
{
    match error {
        QaClientError::Timeout => ("cancelled".to_owned(), "Python 问答 sidecar 超时".to_owned()),
        other => ("failed".to_owned(), other.message()),
    }
}

/// The state recorded from the sidecar's response: its own, unless blank,
/// then answered or failed by its outcome.
pub open spec fn response_state_of(state: Seq<char>, ok: bool) -> Seq<char> {
    if trim(state).len() == 0 {
        if ok { "answered"@ } else { "failed"@ }
    } else {
        state
    }
}

/// The state recorded from the sidecar's response (see `response_state_of`).
pub fn response_state(state: &str, ok: bool) -> (r: String)
    ensures
        r@ == response_state_of(state@, ok),
{
    if blank(state) {
        if ok { "answered".to_owned() } else { "failed".to_owned() }
    } else {
        state.to_owned()
    }
}

/// The error recorded from the sidecar's response: its message, or its code
/// when the message is blank.
pub fn response_error_message(error: Option<&RagError>) -> (r: Option<String>)
    ensures
        match error {
            Some(e) => r matches Some(m) && m@ == if trim(e.message@).len() == 0 { e.code@ } else { e.message@ },
            None => r is None,
        },
{
    match error {
        Some(e) => if blank(e.message.as_str()) { Some(e.code.clone()) } else { Some(e.message.clone()) },
        None => None,
    }
}

/// The state and error recorded for a question the user cancelled.
pub fn cancelled_outcome() -> (r: (String, String))
    ensures
        r.0@ == "cancelled"@ && r.1@ == "用户已取消问答"@,
{
    ("cancelled".to_owned(), "用户已取消问答".to_owned())
}

// ---------------------------------------------------------------------------
// Stored rows
// ---------------------------------------------------------------------------

/// The title of a session: whitespace runs collapsed, at most 40
/// characters, and a default title when nothing is left.
pub open spec fn session_title(title: Seq<char>) -> Seq<char> {
    if collapse_ws(title).len() == 0 {
        "新问答会话"@
    } else {
        take_chars(collapse_ws(title), 40)
    }
}

/// `normalize_qa_session_title` (see `session_title`).
pub fn normalize_qa_session_title(title: &str) -> (r: String)
    ensures
        r@ == session_title(title@),
{
    let c = collapse_ws_chars(chars_of(title).as_slice());
    if c.len() == 0 {
        "新问答会话".to_owned()
    } else {
        string_of(take_prefix(c.as_slice(), 40).as_slice())
    }
}

/// A stored question-answering session.
#[derive(Debug, Clone)]
pub struct QaSessionRow {
    pub id: String,
    pub title: String,
    pub message_count: i64,
    pub created_at: i64,
    pub updated_at: i64,
}

/// `qa_session_row_to_view`: negative counts read as zero, timestamps as text.
pub fn qa_session_row_to_view(row: QaSessionRow) -> (r: QaSessionView)
    ensures
        r.id@ == row.id@ && r.title@ == row.title@,
        r.message_count == (if row.message_count < 0 { 0 } else { row.message_count }) as usize,
        r.created_at@ == unix_ts_label(row.created_at),
        r.updated_at@ == unix_ts_label(row.updated_at),
{
    let count: usize = (if row.message_count < 0 { 0 } else { row.message_count }) as usize;
    QaSessionView {
        id: row.id,
        title: row.title,
        message_count: count,
        created_at: format_unix_ts(row.created_at),
        updated_at: format_unix_ts(row.updated_at),
    }
}

/// A stored embedding model.
#[derive(Debug, Clone)]
pub struct EmbeddingModelRow {
    pub id: String,
    pub name: String,
    pub provider: String,
    pub model_path: String,
    pub dimension: i64,
    pub enabled: i64,
    pub available: i64,
    pub is_default: i64,
    pub status: String,
    pub created_at: i64,
    pub updated_at: i64,
}

/// `model_row_to_view`: flags are non-zero integers, a negative dimension
/// reads as zero, timestamps as text (empty when unknown).
pub fn model_row_to_view(row: EmbeddingModelRow) -> (r: EmbeddingModelView)
    ensures
        r.id@ == row.id@ && r.name@ == row.name@ && r.provider@ == row.provider@
            && r.model_path@ == row.model_path@ && r.status@ == row.status@,
        r.dimension == (if row.dimension < 0 { 0 } else { row.dimension }) as usize,
        r.enabled == (row.enabled != 0) && r.available == (row.available != 0) && r.is_default == (row.is_default != 0),
        r.created_at@ == unix_ts_label_or_empty(row.created_at),
        r.updated_at@ == unix_ts_label_or_empty(row.updated_at),
{
    EmbeddingModelView {
        id: row.id,
        name: row.name,
        provider: row.provider,
        model_path: row.model_path,
        dimension: (if row.dimension < 0 { 0 } else { row.dimension }) as usize,
        enabled: row.enabled != 0,
        available: row.available != 0,
        is_default: row.is_default != 0,
        status: row.status,
        created_at: format_unix_ts_or_empty(row.created_at),
        updated_at: format_unix_ts_or_empty(row.updated_at),
    }
}

/// A stored model connection.
#[derive(Debug, Clone)]
pub struct QaModelProfileRow {
    pub id: String,
    pub name: String,
    pub provider: String,
    pub base_url: String,
    pub api_key: String,
    pub model: String,
    pub enabled: i64,
    pub is_default: i64,
    pub created_at: i64,
    pub updated_at: i64,
}

/// A model connection as the application shows it.
#[derive(Debug, Clone)]
pub struct QaModelProfileView {
    pub id: String,
    pub name: String,
    pub provider: String,
    pub base_url: String,
    pub api_key: String,
    pub model: String,
    pub enabled: bool,
    pub is_default: bool,
    pub created_at: String,
    pub updated_at: String,
}

/// `qa_model_profile_row_to_view`: flags are non-zero integers, timestamps
/// as text.
pub fn qa_model_profile_row_to_view(row: QaModelProfileRow) -> (r: QaModelProfileView)
    ensures
        r.id@ == row.id@ && r.name@ == row.name@ && r.provider@ == row.provider@ && r.base_url@ == row.base_url@
            && r.api_key@ == row.api_key@ && r.model@ == row.model@,
        r.enabled == (row.enabled != 0) && r.is_default == (row.is_default != 0),
        r.created_at@ == unix_ts_label(row.created_at),
        r.updated_at@ == unix_ts_label(row.updated_at),
{
    QaModelProfileView {
        id: row.id,
        name: row.name,
        provider: row.provider,
        base_url: row.base_url,
        api_key: row.api_key,
        model: row.model,
        enabled: row.enabled != 0,
        is_default: row.is_default != 0,
        created_at: format_unix_ts(row.created_at),
        updated_at: format_unix_ts(row.updated_at),
    }
}


/// The state shown for each stage the sidecar reports: bootstrap, retrieve,
/// rank and pack_evidence are "searching"; prompt and generate "generating";
/// answer_delta "streaming"; verify, judge, repair, finalize and finish
/// "verifying"; only the stage "failed" shows "failed", and any other stage
/// "running".
pub proof fn law_stage_states(stage: Seq<char>)
    ensures
        (stage == "bootstrap"@ || stage == "retrieve"@ || stage == "rank"@ || stage == "pack_evidence"@)
            <==> stage_state(stage) == "searching"@,
        (stage == "prompt"@ || stage == "generate"@) <==> stage_state(stage) == "generating"@,
        stage == "answer_delta"@ <==> stage_state(stage) == "streaming"@,
        (stage == "verify"@ || stage == "judge"@ || stage == "repair"@ || stage == "finalize"@ || stage == "finish"@)
            <==> stage_state(stage) == "verifying"@,
        stage == "failed"@ <==> stage_state(stage) == "failed"@,
        !(stage == "bootstrap"@ || stage == "retrieve"@ || stage == "rank"@ || stage == "pack_evidence"@
            || stage == "prompt"@ || stage == "generate"@ || stage == "answer_delta"@ || stage == "verify"@
            || stage == "judge"@ || stage == "repair"@ || stage == "finalize"@ || stage == "finish"@
            || stage == "failed"@) <==> stage_state(stage) == "running"@,
{
    reveal_strlit("bootstrap");
    reveal_strlit("retrieve");
    reveal_strlit("rank");
    reveal_strlit("pack_evidence");
    reveal_strlit("prompt");
    reveal_strlit("generate");
    reveal_strlit("answer_delta");
    reveal_strlit("verify");
    reveal_strlit("judge");
    reveal_strlit("repair");
    reveal_strlit("finalize");
    reveal_strlit("finish");
    reveal_strlit("failed");
    reveal_strlit("searching");
    reveal_strlit("generating");
    reveal_strlit("streaming");
    reveal_strlit("verifying");
    reveal_strlit("running");
    assert("verifying"@[0] != "searching"@[0] && "verifying"@[0] != "streaming"@[0]);
    assert("searching"@[1] != "streaming"@[1]);
    assert("running"@.len() != "failed"@.len());
    let names = seq![
        "bootstrap"@, "retrieve"@, "rank"@, "pack_evidence"@, "prompt"@, "generate"@, "answer_delta"@,
        "verify"@, "judge"@, "repair"@, "finalize"@, "finish"@, "failed"@,
    ];
    assert forall|a: int, b: int| 0 <= a < b < names.len() implies names[a] != names[b] by {
        let x = names[a];
        let y = names[b];
        if x.len() == y.len() {
            if x[0] == y[0] {
                assert(x[1] != y[1]);
            } else {
                assert(x[0] != y[0]);
            }
        }
    }
    assert(names[11] != names[4] && names[11] != names[7] && names[11] != names[9] && names[11] != names[12]);
    assert(names[7] != names[4] && names[9] != names[4] && names[9] != names[7] && names[12] != names[4]);
    assert(names[12] != names[7] && names[12] != names[9] && names[10] != names[1] && names[10] != names[5]);
    assert(names[1] != names[5]);
}


/// A question is routed by its connection: with a blank provider, base URL or
/// model it is refused as not configured; with all three set it goes to the
/// sidecar when there is one and fails otherwise. The API key plays no part.
pub proof fn law_question_routes(c: ModelConnection, sidecar_configured: bool, key: String)
    ensures
        trim(c.provider@).len() == 0 || trim(c.base_url@).len() == 0 || trim(c.model@).len() == 0
            ==> route_of(c, sidecar_configured) == AskRoute::ModelNotConfigured,
        trim(c.provider@).len() > 0 && trim(c.base_url@).len() > 0 && trim(c.model@).len() > 0
            ==> route_of(c, sidecar_configured) == if sidecar_configured { AskRoute::Sidecar } else { AskRoute::SidecarMissing },
        route_of(c, sidecar_configured) == route_of(ModelConnection { api_key: key, ..c }, sidecar_configured),
{
}

/// A response keeps the state the sidecar reports unless it is blank; a blank
/// state reads "answered" for a successful response and "failed" otherwise.
pub proof fn law_response_states(state: Seq<char>, ok: bool)
    ensures
        trim(state).len() > 0 ==> response_state_of(state, ok) == state,
        trim(state).len() == 0 && ok ==> response_state_of(state, ok) == "answered"@,
        trim(state).len() == 0 && !ok ==> response_state_of(state, ok) == "failed"@,
{
}

} // verus!
