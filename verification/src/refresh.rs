//! The refresh jobs of the index (one document, one directory, the whole
//! index, the full-text repair): what a request must hold, and what each
//! job reports when it ends.
use vstd::prelude::*;
use crate::documents::ParserSource;
use crate::indexing::failure_class;
use crate::paths::{file_name_of, path_file_name};
use crate::text::{append_str, chars_of, concat_str, contains, contains_chars, decimal, decimal_chars, string_of, trim, trim_str};

verus! {

/// The refusal of a second index job while one runs.
pub fn busy_error() -> (r: String)
    ensures
        r@ == "已有索引任务正在执行"@,
{
    "已有索引任务正在执行".to_owned()
}

/// A request to refresh one document: the trimmed file path and directory,
/// neither of which may be empty.
pub fn check_refresh_document_request(path: &str, dir_path: &str) -> (r: Result<(String, String), String>)
    ensures
        trim(path@).len() == 0 ==> (r matches Err(e) && e@ == "文件路径不能为空"@),
        trim(path@).len() > 0 && trim(dir_path@).len() == 0 ==> (r matches Err(e) && e@ == "目录路径不能为空"@),
        trim(path@).len() > 0 && trim(dir_path@).len() > 0 ==> (r matches Ok(p) && p.0@ == trim(path@)
            && p.1@ == trim(dir_path@)),
{
    let p = trim_str(path);
    let d = trim_str(dir_path);
    if p.as_str().is_empty() {
        return Err("文件路径不能为空".to_owned());
    }
    if d.as_str().is_empty() {
        return Err("目录路径不能为空".to_owned());
    }
    Ok((p, d))
}

/// The refusal of a path that is not an existing file.
pub fn invalid_file_error(path: &str) -> (r: String)
    ensures
        r@ == "不是有效的文件: "@ + path@,
{
    concat_str("不是有效的文件: ", path)
}

/// A directory path in a request: trimmed, and not empty.
pub fn check_dir_path(path: &str) -> (r: Result<String, String>)
    ensures
        trim(path@).len() == 0 ==> (r matches Err(e) && e@ == "目录路径不能为空"@),
        trim(path@).len() > 0 ==> (r matches Ok(p) && p@ == trim(path@)),
{
    let p = trim_str(path);
    if p.as_str().is_empty() {
        Err("目录路径不能为空".to_owned())
    } else {
        Ok(p)
    }
}

/// The refusal of a path that is not an existing directory.
pub fn invalid_dir_error(path: &str) -> (r: String)
    ensures
        r@ == "不是有效的目录: "@ + path@,
{
    concat_str("不是有效的目录: ", path)
}

/// The name shown for a refreshed file: its file name, else its path.
pub fn refresh_file_name(path: &str) -> (r: String)
    ensures
        r@ == match path_file_name(path@) {
            Some(n) => n,
            None => path@,
        },
{
    match file_name_of(path) {
        Some(n) => n,
        None => path.to_owned(),
    }
}

/// The parser a refresh is expected to use: Python when it is enabled and
/// configured.
pub fn parser_hint(enabled: bool, configured: bool) -> (r: String)
    ensures
        r@ == if enabled && configured { "python"@ } else { "rust"@ },
{
    if enabled && configured { "python".to_owned() } else { "rust".to_owned() }
}

/// The name of a parser.
pub open spec fn source_label(s: ParserSource) -> Seq<char> {
    match s {
        ParserSource::Python => "python"@,
        ParserSource::Rust => "rust"@,
    }
}

/// The name of a parser (see `source_label`).
pub fn parser_source_label(source: ParserSource) -> (r: String)
    ensures
        r@ == source_label(source),
{
    match source {
        ParserSource::Python => "python".to_owned(),
        ParserSource::Rust => "rust".to_owned(),
    }
}

/// The message of a parser progress event: a chunk event names the chunk.
pub fn chunk_progress_message(message: &str, stage: &str, current: &str) -> (r: String)
    ensures
        r@ == if stage@ == "chunk"@ && current@.len() > 0 { message@ + " · "@ + current@ } else { message@ },
{
    if crate::text::str_eq(stage, "chunk") && !current.is_empty() {
        let mut out = chars_of(message);
        append_str(&mut out, " · ");
        append_str(&mut out, current);
        string_of(out.as_slice())
    } else {
        message.to_owned()
    }
}

/// The semantic index could not be reached (the embedding model timed out
/// or is unavailable), as opposed to failing.
pub open spec fn semantic_unavailable_text(error: Seq<char>) -> bool {
    contains(error, "embedding 模型下载或加载超时"@) || contains(error, "embedding_unavailable"@)
        || contains(error, "timed out"@)
}

/// What a failed update of a document's embeddings reports: skipped with a
/// warning when the model is unavailable, failed otherwise.
pub fn semantic_failure_report(error: &str) -> (r: (String, String))
    ensures
        semantic_unavailable_text(error@) ==> r.0@ == "单文档语义向量更新已跳过"@ && r.1@ == "语义索引暂不可用："@ + error@,
        !semantic_unavailable_text(error@) ==> r.0@ == "单文档语义向量更新失败"@ && r.1@ == error@,
{
    let e = chars_of(error);
    let unavailable = contains_chars(e.as_slice(), chars_of("embedding 模型下载或加载超时").as_slice())
        || contains_chars(e.as_slice(), chars_of("embedding_unavailable").as_slice())
        || contains_chars(e.as_slice(), chars_of("timed out").as_slice());
    if unavailable {
        ("单文档语义向量更新已跳过".to_owned(), concat_str("语义索引暂不可用：", error))
    } else {
        ("单文档语义向量更新失败".to_owned(), error.to_owned())
    }
}

/// How a document refresh ended.
#[derive(Debug, Clone)]
pub struct RefreshReport {
    pub state: String,
    pub message: String,
    pub parser_source: String,
    pub warning: Option<String>,
    /// The failure recorded for the file: reason, category and code.
    pub failure: Option<(String, String, String)>,
}

/// How a document refresh ended, from the parse (the parser used and its
/// fallback warning, or why it failed) and the storing of the chunks. A
/// failed parse is reported under the expected parser; a failure is
/// recorded with its class.
pub fn document_refresh_report(
    parser_hint: &str,
    parsed: Result<(ParserSource, Option<String>), String>,
    stored: Result<(), String>,
    path: &str,
) -> (r: RefreshReport)
    ensures
        match parsed {
            Err(reason) => r.state@ == "failed"@ && r.message@ == "文档切片失败："@ + reason@
                && r.parser_source@ == parser_hint@ && r.warning is None
                && (r.failure matches Some(f) && f.0@ == reason@
                    && (f.1@, f.2@) == failure_class(reason@, path@)),
            Ok((source, warning)) => match stored {
                Err(reason) => r.state@ == "failed"@ && r.message@ == "文档切片失败："@ + reason@
                    && r.parser_source@ == source_label(source) && r.warning is None
                    && (r.failure matches Some(f) && f.0@ == reason@
                        && (f.1@, f.2@) == failure_class(reason@, path@)),
                Ok(()) => r.state@ == "completed"@ && r.parser_source@ == source_label(source)
                    && r.failure is None
                    && crate::sidecar::opt_view(r.warning) == crate::sidecar::opt_view(warning)
                    && r.message@ == if warning is Some { "文档切片完成，但已从 Python 回退到 Rust"@ } else { "文档切片完成"@ },
            },
        },
{
    match parsed {
        Err(reason) => {
            let (category, code) = crate::indexing::classify_failure(reason.as_str(), path);
            RefreshReport {
                state: "failed".to_owned(),
                message: concat_str("文档切片失败：", reason.as_str()),
                parser_source: parser_hint.to_owned(),
                warning: None,
                failure: Some((reason, category, code)),
            }
        },
        Ok((source, warning)) => match stored {
            Err(reason) => {
                let (category, code) = crate::indexing::classify_failure(reason.as_str(), path);
                RefreshReport {
                    state: "failed".to_owned(),
                    message: concat_str("文档切片失败：", reason.as_str()),
                    parser_source: parser_source_label(source),
                    warning: None,
                    failure: Some((reason, category, code)),
                }
            },
            Ok(()) => {
                let message = if warning.is_some() {
                    "文档切片完成，但已从 Python 回退到 Rust".to_owned()
                } else {
                    "文档切片完成".to_owned()
                };
                RefreshReport {
                    state: "completed".to_owned(),
                    message,
                    parser_source: parser_source_label(source),
                    warning,
                    failure: None,
                }
            },
        },
    }
}

/// How a directory or index refresh ended: completed, or failed with the
/// error.
pub fn index_refresh_report(result: &Result<(), String>) -> (r: (String, String))
    ensures
        match result {
            Ok(()) => r.0@ == "completed"@ && r.1@ == "目录索引完成"@,
            Err(e) => r.0@ == "failed"@ && r.1@ == "目录索引失败："@ + e@,
        },
{
    match result {
        Ok(()) => ("completed".to_owned(), "目录索引完成".to_owned()),
        Err(e) => ("failed".to_owned(), concat_str("目录索引失败：", e.as_str())),
    }
}

/// The progress message of the full-text repair.
pub fn repair_progress_message(processed: usize, total: usize) -> (r: String)
    ensures
        r@ == "正在修复全文索引："@ + decimal(processed as nat) + "/"@ + decimal(total as nat),
{
    let mut out = chars_of("正在修复全文索引：");
    let p = decimal_chars(processed as u64);
    crate::text::append_chars(&mut out, p.as_slice());
    append_str(&mut out, "/");
    let t = decimal_chars(total as u64);
    crate::text::append_chars(&mut out, t.as_slice());
    string_of(out.as_slice())
}

/// How the full-text repair ended.
pub fn repair_report(ok: bool) -> (r: (String, String))
    ensures
        ok ==> r.0@ == "completed"@ && r.1@ == "全文索引修复完成"@,
        !ok ==> r.0@ == "failed"@ && r.1@ == "全文索引修复失败"@,
{
    if ok {
        ("completed".to_owned(), "全文索引修复完成".to_owned())
    } else {
        ("failed".to_owned(), "全文索引修复失败".to_owned())
    }
}

} // verus!
