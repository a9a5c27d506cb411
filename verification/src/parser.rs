//! The Python document parser sidecar: its configuration, the request that
//! starts a parse, how its answer is judged, and the fallback to the Rust
//! extractor.
use vstd::prelude::*;
use crate::documents::{name_or_unknown, DiscoveredFile, ExtractedDocument};
use crate::paths::{extension_lower, file_name_of, is_absolute_path, join_path, parent_of, path_is_absolute, path_join, path_parent};
use crate::ranking::truncated;
use crate::scanner::{normalize_whitespace, truncate_snippet, ChunkRecord};
use crate::sidecar::{opt_view, views};
use crate::stream::StreamFailure;
use crate::text::{
    append_str, chars_of, collapse_ws, concat_str, lowercase, parse_u64, parsed_u64, replace_all,
    replace_chars, str_eq, string_of, trim, trim_chars, trim_str,
};
use crate::clock::{format_modified, modified_label};

verus! {

/// The error the parser reports for a document.
#[derive(Debug, Clone)]
pub struct ParserError {
    pub code: String,
    pub message: String,
    pub details: Option<String>,
}

/// Why a parse through the sidecar failed.
#[derive(Debug, Clone)]
pub enum ParserClientError {
    NotConfigured,
    Timeout,
    SpawnFailed(String),
    Io(String),
    InvalidResponse(String),
    ParserFailed(ParserError),
}

/// The text of a parser client error.
pub open spec fn parser_error_text(e: ParserClientError) -> Seq<char> {
    match e {
        ParserClientError::NotConfigured => "python parser is not configured"@,
        ParserClientError::Timeout => "python parser timed out"@,
        ParserClientError::SpawnFailed(s) => "failed to spawn python parser: "@ + s@,
        ParserClientError::Io(s) => "python parser io error: "@ + s@,
        ParserClientError::InvalidResponse(s) => "python parser returned invalid response: "@ + s@,
        ParserClientError::ParserFailed(p) => "python parser failed: "@ + p.message@ + " ("@ + p.code@ + ")"@,
    }
}

impl ParserClientError {
    /// The error as text (see `parser_error_text`).
    pub fn message(&self) -> (r: String)
        ensures
            r@ == parser_error_text(*self),
    {
        match self {
            ParserClientError::NotConfigured => "python parser is not configured".to_owned(),
            ParserClientError::Timeout => "python parser timed out".to_owned(),
            ParserClientError::SpawnFailed(s) => concat_str("failed to spawn python parser: ", s.as_str()),
            ParserClientError::Io(s) => concat_str("python parser io error: ", s.as_str()),
            ParserClientError::InvalidResponse(s) => concat_str("python parser returned invalid response: ", s.as_str()),
            ParserClientError::ParserFailed(p) => {
                let mut out = chars_of("python parser failed: ");
                append_str(&mut out, p.message.as_str());
                append_str(&mut out, " (");
                append_str(&mut out, p.code.as_str());
                append_str(&mut out, ")");
                string_of(out.as_slice())
            },
        }
    }

    /// The failure of an exchange with the sidecar as a client error.
    pub fn from_stream(failure: StreamFailure) -> (r: ParserClientError)
        ensures
            match failure {
                StreamFailure::Timeout => r is Timeout,
                StreamFailure::Io(e) => r matches ParserClientError::Io(x) && x@ == e@,
                StreamFailure::InvalidResponse(e) => r matches ParserClientError::InvalidResponse(x) && x@ == e@,
                StreamFailure::Exited(e) => r matches ParserClientError::SpawnFailed(x) && x@ == e@,
            },
    {
        match failure {
            StreamFailure::Timeout => ParserClientError::Timeout,
            StreamFailure::Io(e) => ParserClientError::Io(e),
            StreamFailure::InvalidResponse(e) => ParserClientError::InvalidResponse(e),
            StreamFailure::Exited(e) => ParserClientError::SpawnFailed(e),
        }
    }
}

/// `Uuid::new_v4().to_string()`: a fresh random id in the hyphenated form
/// of 36 characters. Nothing else is stated of it.
#[verifier::external_body]
fn new_request_id() -> (r: String)
    ensures
        r@.len() == 36,
{
    uuid::Uuid::new_v4().to_string()
}

/// How the sidecar is started: the program and its arguments.
#[derive(Debug, Clone)]
pub struct SpawnPlan {
    pub program: String,
    pub args: Vec<String>,
}

/// The start of a parse: what to send to the sidecar and how to start it.
#[derive(Debug, Clone)]
pub struct ParseRequest {
    pub request_id: String,
    pub command: String,
    pub path: String,
    pub spawn: SpawnPlan,
}

/// How the Python parser is reached.
#[derive(Debug, Clone)]
pub struct PythonParserClient {
    /// The Python interpreter.
    pub python_bin: String,
    /// The parser script, as configured.
    pub script_path: String,
    /// A bundled sidecar executable, when there is one.
    pub bundled_sidecar: Option<String>,
    /// The parse timeout.
    pub timeout_ms: u64,
    /// Where the script was found on disk, if it was.
    pub script_found: Option<String>,
}

/// The default parser script, relative to the application.
pub open spec fn default_script() -> Seq<char> {
    "parser/docmind_parser/__main__.py"@
}

/// The sidecar named by the binary setting, when it is set, not blank, and
/// exists; else the bundled one.
pub open spec fn chosen_sidecar(bin: Option<Seq<char>>, bin_exists: bool, bundled: Option<Seq<char>>) -> Option<Seq<char>> {
    match bin {
        Some(b) => if trim(b).len() > 0 && bin_exists { Some(b) } else { bundled },
        None => bundled,
    }
}

/// The candidate locations of a relative script: under the working
/// directory, under its `src-tauri`, next to the executable, and next to the
/// source tree; an absolute script is its own only candidate.
pub open spec fn script_candidate_list(
    script: Seq<char>,
    cwd: Option<Seq<char>>,
    exe: Option<Seq<char>>,
    manifest_dir: Seq<char>,
) -> Seq<Seq<char>> {
    if path_is_absolute(script) {
        seq![script]
    } else {
        let from_cwd = match cwd {
            Some(c) => seq![path_join(c, script), path_join(path_join(c, "src-tauri"@), script)],
            None => Seq::empty(),
        };
        let from_exe = match exe {
            Some(e) => match path_parent(e) {
                Some(p) => seq![path_join(p, script)],
                None => Seq::empty(),
            },
            None => Seq::empty(),
        };
        from_cwd + from_exe + seq![path_join(path_join(manifest_dir, ".."@), script)]
    }
}

/// The first candidate that exists.
pub open spec fn first_existing(cands: Seq<Seq<char>>, exists: Seq<bool>, k: int) -> Option<Seq<char>>
    decreases cands.len() - k,
{
    if k < 0 || k >= cands.len() || k >= exists.len() {
        None
    } else if exists[k] {
        Some(cands[k])
    } else {
        first_existing(cands, exists, k + 1)
    }
}

/// The first of `candidates` that exists (see `first_existing`).
pub fn locate_script(candidates: &Vec<String>, exists: &Vec<bool>) -> (r: Option<String>)
    requires
        exists@.len() == candidates@.len(),
    ensures
        opt_view(r) == first_existing(views(candidates@), exists@, 0),
{
    let ghost cv = views(candidates@);
    let mut k: usize = 0;
    while k < candidates.len()
        invariant
            k <= candidates@.len() == exists@.len(),
            cv == views(candidates@),
            first_existing(cv, exists@, 0) == first_existing(cv, exists@, k as int),
        decreases candidates@.len() - k,
    {
        if exists[k] {
            return Some(candidates[k].clone());
        }
        k += 1;
    }
    None
}

impl PythonParserClient {
    /// The client configured from the settings the environment gives: the
    /// parser binary, the script, whether the binary exists, the bundled
    /// sidecar found, and the timeout (30 s unless it parses).
    pub fn from_settings(
        parser_bin: Option<String>,
        parser_script: Option<String>,
        parser_bin_exists: bool,
        bundled: Option<String>,
        timeout_setting: Option<String>,
    ) -> (r: PythonParserClient)
        ensures
            r.python_bin@ == match parser_bin { Some(b) => b@, None => "python3"@ },
            r.script_path@ == match parser_script { Some(s) => s@, None => default_script() },
            opt_view(r.bundled_sidecar) == chosen_sidecar(opt_view(parser_bin), parser_bin_exists, opt_view(bundled)),
            r.timeout_ms == match timeout_setting {
                Some(t) => match parsed_u64(t@) { Some(v) => v, None => 30_000 },
                None => 30_000,
            },
            r.script_found is None,
    {
        let bundled_sidecar = match &parser_bin {
            Some(b) => if !trim_str(b.as_str()).as_str().is_empty() && parser_bin_exists {
                proof {
                    assert(trim(b@).len() > 0);
                }
                Some(b.clone())
            } else {
                proof {
                    if parser_bin_exists {
                        assert(trim(b@).len() == 0);
                    }
                }
                bundled
            },
            None => bundled,
        };
        let timeout_ms = match &timeout_setting {
            Some(t) => match parse_u64(t.as_str()) {
                Some(v) => v,
                None => 30_000,
            },
            None => 30_000,
        };
        let python_bin = match parser_bin {
            Some(b) => b,
            None => "python3".to_owned(),
        };
        let script_path = match parser_script {
            Some(s) => s,
            None => "parser/docmind_parser/__main__.py".to_owned(),
        };
        PythonParserClient { python_bin, script_path, bundled_sidecar, timeout_ms, script_found: None }
    }

    /// The client with the script's location on disk (see `locate_script`).
    pub fn with_script_found(self, found: Option<String>) -> (r: PythonParserClient)
        ensures
            r.python_bin == self.python_bin,
            r.script_path == self.script_path,
            r.bundled_sidecar == self.bundled_sidecar,
            r.timeout_ms == self.timeout_ms,
            r.script_found == found,
    {
        PythonParserClient { script_found: found, ..self }
    }

    /// Where the script is looked for (see `script_candidate_list`).
    pub fn script_candidates(&self, cwd: Option<String>, current_exe: Option<String>, manifest_dir: &str) -> (r: Vec<String>)
        ensures
            views(r@) == script_candidate_list(self.script_path@, opt_view(cwd), opt_view(current_exe), manifest_dir@),
    {
        let script = self.script_path.as_str();
        let mut out: Vec<String> = Vec::new();
        if is_absolute_path(script) {
            out.push(self.script_path.clone());
            assert(views(out@) =~= seq![script@]);
            return out;
        }
        let ghost mut expect: Seq<Seq<char>> = Seq::empty();
        if let Some(c) = &cwd {
            out.push(join_path(c.as_str(), script));
            let tauri = join_path(c.as_str(), "src-tauri");
            out.push(join_path(tauri.as_str(), script));
            proof {
                expect = seq![path_join(c@, script@), path_join(path_join(c@, "src-tauri"@), script@)];
            }
            assert(views(out@) =~= expect);
        }
        if let Some(e) = &current_exe {
            if let Some(p) = parent_of(e.as_str()) {
                out.push(join_path(p.as_str(), script));
                proof {
                    expect = expect + seq![path_join(p@, script@)];
                }
                assert(views(out@) =~= expect);
            }
        }
        let up = join_path(manifest_dir, "..");
        out.push(join_path(up.as_str(), script));
        proof {
            expect = expect + seq![path_join(path_join(manifest_dir@, ".."@), script@)];
        }
        assert(views(out@) =~= expect);
        assert(expect =~= script_candidate_list(self.script_path@, opt_view(cwd), opt_view(current_exe), manifest_dir@));
        out
    }

    /// The parser can be started: there is a bundled sidecar, or the script
    /// was found.
    pub open spec fn configured(&self) -> bool {
        self.bundled_sidecar is Some || self.script_found is Some
    }

    /// `is_configured` (see `configured`).
    pub fn is_configured(&self) -> (r: bool)
        ensures
            r == self.configured(),
    {
        self.bundled_sidecar.is_some() || self.script_found.is_some()
    }

    /// The script to run: where it was found, else as configured.
    pub fn resolve_script_path(&self) -> (r: String)
        ensures
            r@ == match self.script_found { Some(f) => f@, None => self.script_path@ },
    {
        match &self.script_found {
            Some(f) => f.clone(),
            None => self.script_path.clone(),
        }
    }

    /// How the parser is started: the bundled sidecar with no arguments, or
    /// the interpreter with the script; not configured without either.
    pub fn spawn_plan(&self) -> (r: Result<SpawnPlan, ParserClientError>)
        ensures
            match r {
                Ok(p) => match self.bundled_sidecar {
                    Some(s) => p.program@ == s@ && p.args@.len() == 0,
                    None => self.script_found matches Some(f) && p.program@ == self.python_bin@ && p.args@.len() == 1
                        && p.args@[0]@ == f@,
                },
                Err(e) => e is NotConfigured && !self.configured(),
            },
    {
        if let Some(s) = &self.bundled_sidecar {
            return Ok(SpawnPlan { program: s.clone(), args: Vec::new() });
        }
        match &self.script_found {
            Some(f) => {
                let mut args: Vec<String> = Vec::new();
                args.push(f.clone());
                Ok(SpawnPlan { program: self.python_bin.clone(), args })
            },
            None => Err(ParserClientError::NotConfigured),
        }
    }

    /// `parse_document`: the start of a parse of `path` with a fresh request
    /// id and the command `parse_document_stream`; not configured when the
    /// parser cannot be started. The exchange itself follows
    /// `stream::stream_step`, and `finish_parse` judges the answer.
    pub fn parse_document(&self, path: &str) -> (r: Result<ParseRequest, ParserClientError>)
        ensures
            r is Err <==> !self.configured(),
            r matches Err(e) ==> e is NotConfigured,
            r matches Ok(q) ==> q.request_id@.len() == 36 && q.command@ == "parse_document_stream"@
                && q.path@ == path@ && (match self.bundled_sidecar {
                    Some(s) => q.spawn.program@ == s@ && q.spawn.args@.len() == 0,
                    None => self.script_found matches Some(f) && q.spawn.program@ == self.python_bin@
                        && q.spawn.args@.len() == 1 && q.spawn.args@[0]@ == f@,
                }),
    {
        if !self.is_configured() {
            return Err(ParserClientError::NotConfigured);
        }
        let request_id = new_request_id();
        let spawn = match self.spawn_plan() {
            Ok(p) => p,
            Err(e) => return Err(e),
        };
        Ok(ParseRequest { request_id, command: "parse_document_stream".to_owned(), path: path.to_owned(), spawn })
    }
}

/// The answer of the parser, once the exchange finished with a response:
/// the document when the response is ok and holds one; else why not. The
/// parser's own error is passed on, or a generic one when it gave none.
pub fn finish_parse(ok: bool, has_document: bool, error: Option<ParserError>) -> (r: Result<(), ParserClientError>)
    ensures
        ok && has_document ==> r is Ok,
        ok && !has_document ==> (r matches Err(ParserClientError::InvalidResponse(m)) && m@ == "missing document"@),
        !ok ==> (r matches Err(ParserClientError::ParserFailed(p)) && match error {
            Some(e) => p.code@ == e.code@ && p.message@ == e.message@,
            None => p.code@ == "parser_unknown"@ && p.message@ == "parser returned error without details"@
                && p.details is None,
        }),
{
    if ok {
        if has_document {
            Ok(())
        } else {
            Err(ParserClientError::InvalidResponse("missing document".to_owned()))
        }
    } else {
        match error {
            Some(e) => Err(ParserClientError::ParserFailed(e)),
            None => Err(ParserClientError::ParserFailed(ParserError {
                code: "parser_unknown".to_owned(),
                message: "parser returned error without details".to_owned(),
                details: None,
            })),
        }
    }
}

/// The ASCII-lowercase form of a character sequence.
pub open spec fn ascii_lower_seq(s: Seq<char>) -> Seq<char> {
    s.map_values(|c: char| crate::search::ascii_lower(c))
}

fn ascii_lower_chars(s: &[char]) -> (r: Vec<char>)
    ensures
        r@ == ascii_lower_seq(s@),
{
    let mut out: Vec<char> = Vec::new();
    let mut i: usize = 0;
    while i < s.len()
        invariant
            i <= s@.len(),
            out@ == ascii_lower_seq(s@.take(i as int)),
        decreases s@.len() - i,
    {
        out.push(crate::search::to_ascii_lower(s[i]));
        i += 1;
        assert(ascii_lower_seq(s@.take(i as int)) =~= ascii_lower_seq(s@.take(i - 1)).push(crate::search::ascii_lower(s@[i - 1])));
    }
    assert(s@.take(s@.len() as int) =~= s@);
    out
}

/// Whether the Python parser is used: the setting, trimmed and lowercased,
/// is neither "0" nor "false"; without the setting, whether the parser is
/// configured.
pub open spec fn parser_enabled(setting: Option<Seq<char>>, configured: bool) -> bool {
    match setting {
        Some(v) => {
            let n = ascii_lower_seq(trim(v));
            n != "0"@ && n != "false"@
        },
        None => configured,
    }
}

/// `python_parser_enabled` (see `parser_enabled`).
pub fn python_parser_enabled(setting: Option<String>, configured: bool) -> (r: bool)
    ensures
        r == parser_enabled(opt_view(setting), configured),
{
    match &setting {
        Some(v) => {
            let t = trim_chars(chars_of(v.as_str()).as_slice());
            let n = string_of(ascii_lower_chars(t.as_slice()).as_slice());
            !str_eq(n.as_str(), "0") && !str_eq(n.as_str(), "false")
        },
        None => configured,
    }
}

/// `python_parser_available`: the parser is configured.
pub fn python_parser_available(client: &PythonParserClient) -> (r: bool)
    ensures
        r == client.configured(),
{
    client.is_configured()
}

/// `python_parse_or_fallback`: the start of a Python parse of `path` when
/// the parser is enabled and can be started; `None` sends the caller to the
/// Rust extractor.
pub fn python_parse_or_fallback(enabled: bool, client: &PythonParserClient, path: &str) -> (r: Option<ParseRequest>)
    ensures
        r is Some <==> enabled && client.configured(),
        r matches Some(q) ==> q.path@ == path@ && q.command@ == "parse_document_stream"@,
{
    if !enabled {
        return None;
    }
    match client.parse_document(path) {
        Ok(q) => Some(q),
        Err(_) => None,
    }
}

/// The warning recorded when the Python parser fails.
pub open spec fn python_warning(e: ParserClientError) -> Seq<char> {
    match e {
        ParserClientError::ParserFailed(p) => "Python 解析失败："@ + p.message@ + " ("@ + p.code@ + ")"@,
        other => "Python 解析失败："@ + parser_error_text(other),
    }
}

/// The warning recorded when the Python parser fails (see `python_warning`).
pub fn python_failure_warning(error: &ParserClientError) -> (r: String)
    ensures
        r@ == python_warning(*error),
{
    let mut out = chars_of("Python 解析失败：");
    match error {
        ParserClientError::ParserFailed(p) => {
            append_str(&mut out, p.message.as_str());
            append_str(&mut out, " (");
            append_str(&mut out, p.code.as_str());
            append_str(&mut out, ")");
        },
        other => {
            let m = other.message();
            append_str(&mut out, m.as_str());
        },
    }
    string_of(out.as_slice())
}

/// After the Python parser failed on a file with extension `ext`: a PDF
/// fails with the warning; any other file falls back to the Rust extractor,
/// with the warning reworded to say so.
pub open spec fn after_failure(warning: Seq<char>, ext: Seq<char>) -> Result<Seq<char>, Seq<char>> {
    if ext == "pdf"@ {
        Err(warning)
    } else {
        Ok(replace_all(warning, "Python 解析失败："@, "Python 解析失败，已回退 Rust："@))
    }
}

/// What follows a failure of the Python parser (see `after_failure`): `Ok`
/// with the fallback warning, or `Err` with the error of the file.
pub fn after_python_failure(error: &ParserClientError, ext: &str) -> (r: Result<String, String>)
    ensures
        match r {
            Ok(w) => after_failure(python_warning(*error), ext@) == Ok::<Seq<char>, Seq<char>>(w@),
            Err(w) => after_failure(python_warning(*error), ext@) == Err::<Seq<char>, Seq<char>>(w@),
        },
{
    let warning = python_failure_warning(error);
    if str_eq(ext, "pdf") {
        return Err(warning);
    }
    let from = chars_of("Python 解析失败：");
    let to = chars_of("Python 解析失败，已回退 Rust：");
    proof {
        reveal_strlit("Python 解析失败：");
    }
    let replaced = replace_chars(chars_of(warning.as_str()).as_slice(), from.as_slice(), to.as_slice());
    Ok(string_of(replaced.as_slice()))
}

/// A chunk as the Python parser returns it.
#[derive(Debug, Clone)]
pub struct ParsedChunk {
    pub heading: Option<String>,
    pub text: String,
    pub order: i64,
    pub page_no: Option<i64>,
    pub block_indexes: Option<Vec<usize>>,
}

/// A document as the Python parser returns it (its blocks stay with the
/// caller).
#[derive(Debug, Clone)]
pub struct ParsedDocument {
    pub content: String,
    pub chunks: Vec<ParsedChunk>,
}

/// (heading, snippet, paragraph, page, blocks) of a chunk record.
pub open spec fn record_view(c: ChunkRecord) -> (Seq<char>, Seq<char>, Option<i64>, Option<i64>, Seq<usize>) {
    (c.heading@, c.snippet@, c.paragraph, c.page, c.block_indexes@)
}

/// The chunk record made of a parsed chunk of a file named `file_name`.
pub open spec fn converted_chunk(c: ParsedChunk, file_name: Seq<char>) -> (Seq<char>, Seq<char>, Option<i64>, Option<i64>, Seq<usize>) {
    (
        match c.heading { Some(h) => h@, None => file_name },
        truncated(collapse_ws(c.text@), 800),
        Some(c.order),
        c.page_no,
        match c.block_indexes { Some(b) => b@, None => Seq::empty() },
    )
}

/// The chunk records of a parsed document: one per parsed chunk, or one for
/// the whole content when there is none and the content is not blank.
pub open spec fn converted_chunks(chunks: Seq<ParsedChunk>, content: Seq<char>, file_name: Seq<char>) -> Seq<(Seq<char>, Seq<char>, Option<i64>, Option<i64>, Seq<usize>)> {
    if chunks.len() == 0 && trim(content).len() > 0 {
        seq![(file_name, truncated(content, 800), Some(1i64), None::<i64>, Seq::<usize>::empty())]
    } else {
        chunks.map_values(|c: ParsedChunk| converted_chunk(c, file_name))
    }
}

fn convert_chunk(c: &ParsedChunk, file_name: &String) -> (r: ChunkRecord)
    ensures
        record_view(r) == converted_chunk(*c, file_name@),
{
    let heading = match &c.heading {
        Some(h) => h.clone(),
        None => file_name.clone(),
    };
    let normalized = normalize_whitespace(c.text.as_str());
    let block_indexes = match &c.block_indexes {
        Some(b) => {
            let mut v: Vec<usize> = Vec::new();
            let mut i: usize = 0;
            while i < b.len()
                invariant
                    i <= b@.len(),
                    v@ == b@.take(i as int),
                decreases b@.len() - i,
            {
                v.push(b[i]);
                i += 1;
                assert(b@.take(i as int) =~= b@.take(i - 1).push(b@[i - 1]));
            }
            assert(b@.take(b@.len() as int) =~= b@);
            v
        },
        None => Vec::new(),
    };
    ChunkRecord {
        heading,
        snippet: truncate_snippet(normalized.as_str(), 800),
        paragraph: Some(c.order),
        page: c.page_no,
        block_indexes,
    }
}

/// `convert_python_document`: the extracted document and chunk records of a
/// document the Python parser returned for `file` (`modified_secs` is the
/// file's modification time, when the file system gives it).
pub fn convert_python_document(
    file: &DiscoveredFile,
    parsed: &ParsedDocument,
    modified_secs: Option<i64>,
) -> (r: (ExtractedDocument, Vec<ChunkRecord>))
    ensures
        r.0.dir_path@ == file.dir_path@,
        r.0.path@ == file.path@,
        r.0.file_name@ == name_or_unknown(file.path@),
        r.0.ext@ == extension_lower(file.path@),
        r.0.file_size == file.file_size,
        r.0.modified_at == file.modified_at,
        r.0.content_hash@ == file.content_hash@,
        r.0.modified@ == modified_label(modified_secs),
        r.0.content@ == collapse_ws(parsed.content@),
        r.1@.map_values(|c: ChunkRecord| record_view(c)) == converted_chunks(
            parsed.chunks@,
            collapse_ws(parsed.content@),
            name_or_unknown(file.path@),
        ),
{
    let content = normalize_whitespace(parsed.content.as_str());
    let file_name = match file_name_of(file.path.as_str()) {
        Some(n) => n,
        None => "unknown".to_owned(),
    };
    let ext = crate::paths::extension(file.path.as_str());
    let mut chunks: Vec<ChunkRecord> = Vec::new();
    let mut i: usize = 0;
    while i < parsed.chunks.len()
        invariant
            i <= parsed.chunks@.len(),
            chunks@.len() == i,
            chunks@.map_values(|c: ChunkRecord| record_view(c))
                == parsed.chunks@.take(i as int).map_values(|c: ParsedChunk| converted_chunk(c, file_name@)),
        decreases parsed.chunks@.len() - i,
    {
        let rec = convert_chunk(&parsed.chunks[i], &file_name);
        assert(record_view(rec) == converted_chunk(parsed.chunks@[i as int], file_name@));
        let ghost before = chunks@;
        chunks.push(rec);
        i += 1;
        assert(parsed.chunks@.take(i as int) =~= parsed.chunks@.take(i - 1).push(parsed.chunks@[i - 1]));
        assert(chunks@ =~= before.push(rec));
        assert(chunks@[i - 1] == rec);
        assert(record_view(chunks@[i - 1]) == converted_chunk(parsed.chunks@[i - 1], file_name@));
        assert forall|j: int| 0 <= j < i - 1 implies #[trigger] record_view(chunks@[j]) == converted_chunk(parsed.chunks@[j], file_name@) by {
            assert(before.map_values(|c: ChunkRecord| record_view(c))[j] == parsed.chunks@.take(i - 1).map_values(|c: ParsedChunk| converted_chunk(c, file_name@))[j]);
            assert(chunks@[j] == before[j]);
        }
        assert(chunks@.map_values(|c: ChunkRecord| record_view(c))
            =~= parsed.chunks@.take(i as int).map_values(|c: ParsedChunk| converted_chunk(c, file_name@)));
    }
    assert(parsed.chunks@.take(parsed.chunks@.len() as int) =~= parsed.chunks@);
    if chunks.len() == 0 && !trim_str(content.as_str()).as_str().is_empty() {
        proof {
            assert(trim(content@).len() > 0);
        }
        chunks.push(ChunkRecord {
            heading: file_name.clone(),
            snippet: truncate_snippet(content.as_str(), 800),
            paragraph: Some(1),
            page: None,
            block_indexes: Vec::new(),
        });
        assert(chunks@.map_values(|c: ChunkRecord| record_view(c)) =~= converted_chunks(parsed.chunks@, content@, file_name@));
    } else {
        proof {
            if parsed.chunks@.len() == 0 {
                assert(trim(content@).len() == 0);
            }
        }
        assert(chunks@.map_values(|c: ChunkRecord| record_view(c)) =~= converted_chunks(parsed.chunks@, content@, file_name@));
    }
    let document = ExtractedDocument {
        dir_path: file.dir_path.clone(),
        path: file.path.clone(),
        file_name,
        ext,
        file_size: file.file_size,
        modified_at: file.modified_at,
        content_hash: file.content_hash.clone(),
        modified: format_modified(modified_secs),
        content,
    };
    (document, chunks)
}

} // verus!
