//! Documents as the indexer sees them: discovered files, extracted text,
//! chunks, and documents converted from the Python parser's output.
use vstd::prelude::*;
use crate::clock::{format_modified, modified_label};
use crate::digest::{hash_file_bytes, hex_of, sha256};
use crate::paths::{extension, extension_lower, file_name_of, path_file_name};
use crate::scanner::{chunk_text, chunk_views, chunks_of, decode_entities_spec, extract_xml_text_nodes, file_too_large, is_supported_file, normalize_whitespace, should_skip_directory, skip_dir, strip_html_tags, strip_tags, supported_ext, too_large, xml_text_from, ChunkRecord};
use crate::text::{append_chars, append_str, chars_of, collapse_ws, decimal, decimal_chars, list_contains, starts_with, string_of, string_views};

use std::io::Read;

verus! {

/// A file found under an index directory, with what identifies its content.
#[derive(Debug, Clone)]
pub struct DiscoveredFile {
    pub dir_path: String,
    pub path: String,
    pub file_size: i64,
    pub modified_at: i64,
    pub content_hash: String,
}

/// A document with its extracted text.
#[derive(Debug, Clone)]
pub struct ExtractedDocument {
    pub dir_path: String,
    pub path: String,
    pub file_name: String,
    pub ext: String,
    pub file_size: i64,
    pub modified_at: i64,
    pub content_hash: String,
    pub modified: String,
    pub content: String,
}

/// Which parser produced a document.
#[derive(Debug, Clone, Copy, PartialEq, Eq, Structural)]
pub enum ParserSource {
    Python,
    Rust,
}

/// Which parser produced a document, and the warning of a fallback.
#[derive(Debug, Clone)]
pub struct ParseOutcome {
    pub source: ParserSource,
    pub warning: Option<String>,
}

/// What the index remembers of a file, to tell whether it changed.
#[derive(Debug, Clone)]
pub struct DocumentState {
    pub path: String,
    pub file_size: i64,
    pub modified_at: i64,
    pub content_hash: String,
}

/// How the text of a file is obtained, by its extension.
#[derive(Debug, Clone, Copy, PartialEq, Eq, Structural)]
pub enum SourceKind {
    /// Read as text.
    Text,
    /// Read as text, then tags stripped and entities decoded.
    Html,
    /// Converted by an office suite.
    Office,
    /// The text runs of `word/document.xml`.
    Docx,
    /// Not extracted here.
    Pdf,
    /// Not supported.
    Unsupported,
}

/// The extensions read as plain text.
pub open spec fn text_exts() -> Seq<Seq<char>> {
    seq![
        "txt"@, "md"@, "markdown"@, "log"@, "toml"@, "json"@, "yaml"@, "yml"@, "xml"@, "csv"@, "rs"@,
        "js"@, "ts"@, "tsx"@, "jsx"@, "py"@,
    ]
}

/// The extensions converted by an office suite.
pub open spec fn office_exts() -> Seq<Seq<char>> {
    seq!["doc"@, "ppt"@, "pptx"@]
}

/// How a file with extension `ext` is read.
pub open spec fn kind_of(ext: Seq<char>) -> SourceKind {
    if text_exts().contains(ext) {
        SourceKind::Text
    } else if ext == "html"@ || ext == "htm"@ {
        SourceKind::Html
    } else if office_exts().contains(ext) {
        SourceKind::Office
    } else if ext == "docx"@ {
        SourceKind::Docx
    } else if ext == "pdf"@ {
        SourceKind::Pdf
    } else {
        SourceKind::Unsupported
    }
}

fn text_ext_list() -> (r: Vec<String>)
    ensures
        string_views(r@) == text_exts(),
{
    let mut v: Vec<String> = Vec::new();
    v.push("txt".to_owned());
    v.push("md".to_owned());
    v.push("markdown".to_owned());
    v.push("log".to_owned());
    v.push("toml".to_owned());
    v.push("json".to_owned());
    v.push("yaml".to_owned());
    v.push("yml".to_owned());
    v.push("xml".to_owned());
    v.push("csv".to_owned());
    v.push("rs".to_owned());
    v.push("js".to_owned());
    v.push("ts".to_owned());
    v.push("tsx".to_owned());
    v.push("jsx".to_owned());
    v.push("py".to_owned());
    assert(string_views(v@) =~= text_exts());
    v
}

fn office_ext_list() -> (r: Vec<String>)
    ensures
        string_views(r@) == office_exts(),
{
    let mut v: Vec<String> = Vec::new();
    v.push("doc".to_owned());
    v.push("ppt".to_owned());
    v.push("pptx".to_owned());
    assert(string_views(v@) =~= office_exts());
    v
}

/// How a file with extension `ext` is read (see `kind_of`).
pub fn source_kind(ext: &str) -> (r: SourceKind)
    ensures
        r == kind_of(ext@),
{
    if list_contains(&text_ext_list(), ext) {
        SourceKind::Text
    } else if crate::text::str_eq(ext, "html") || crate::text::str_eq(ext, "htm") {
        SourceKind::Html
    } else if list_contains(&office_ext_list(), ext) {
        SourceKind::Office
    } else if crate::text::str_eq(ext, "docx") {
        SourceKind::Docx
    } else if crate::text::str_eq(ext, "pdf") {
        SourceKind::Pdf
    } else {
        SourceKind::Unsupported
    }
}

/// What the file system says of a file.
#[derive(Debug, Clone, Copy)]
pub struct FileMeta {
    /// The length in bytes, as a signed count.
    pub file_size: i64,
    /// The modification time in whole seconds since the epoch (0 when unknown
    /// or earlier than the epoch).
    pub modified_at: i64,
    /// The modification time in seconds since the epoch, when known.
    pub modified_secs: Option<i64>,
}

/// The file name of a path, or "unknown".
pub open spec fn name_or_unknown(path: Seq<char>) -> Seq<char> {
    match path_file_name(path) {
        Some(n) => n,
        None => "unknown"@,
    }
}

/// The error text of a failed step.
pub open spec fn err_of<T>(r: Result<T, String>) -> Option<Seq<char>> {
    match r {
        Ok(_) => None,
        Err(e) => Some(e@),
    }
}

/// The refusal of PDF files by the text extractor.
pub open spec fn pdf_refusal() -> Seq<char> {
    "暂不支持 PDF 解析，请启用 Python 解析器或接入 PDF 文本提取"@
}

/// What the `zip` crate reads from a `.docx` archive: the text of its
/// `word/document.xml` part, or the text of the error met on the way (the
/// archive does not open, has no such part, or the part is not UTF-8). The
/// reading is the crate's and is named here, not restated.
pub uninterp spec fn docx_document_xml(archive: Seq<u8>) -> Result<Seq<char>, Seq<char>>;

/// Opens the archive with `zip::ZipArchive::new`, takes the part
/// `word/document.xml` with `by_name` and reads it with `read_to_string`; each
/// error becomes its text. The result is what `docx_document_xml` names; nothing
/// more of the parse is claimed.
#[verifier::external_body]
pub(crate) fn read_docx_document_xml(archive: &[u8]) -> (r: Result<String, String>)
    ensures
        match r {
            Ok(x) => docx_document_xml(archive@) == Ok::<Seq<char>, Seq<char>>(x@),
            Err(e) => docx_document_xml(archive@) == Err::<Seq<char>, Seq<char>>(e@),
        },
{
    let mut zip = zip::ZipArchive::new(std::io::Cursor::new(archive)).map_err(|error| error.to_string())?;
    let mut xml = String::new();
    zip.by_name("word/document.xml")
        .map_err(|error| error.to_string())?
        .read_to_string(&mut xml)
        .map_err(|error| error.to_string())?;
    Ok(xml)
}

/// The raw text of a document of kind `kind`: for a `.docx` file, the XML of its
/// document part, read from the file's bytes; for any other, the text read from
/// the file.
pub open spec fn raw_source(kind: SourceKind, text: Result<String, String>, bytes: Result<Vec<u8>, String>) -> Result<Seq<char>, Seq<char>> {
    if kind == SourceKind::Docx {
        match bytes {
            Ok(b) => docx_document_xml(b@),
            Err(e) => Err(e@),
        }
    } else {
        match text {
            Ok(t) => Ok(t@),
            Err(e) => Err(e@),
        }
    }
}

/// The error of a raw text, if it is one.
pub open spec fn raw_err(raw: Result<Seq<char>, Seq<char>>) -> Option<Seq<char>> {
    match raw {
        Ok(_) => None,
        Err(e) => Some(e),
    }
}

/// Why extraction fails, if it does: the file's metadata, then the kind of
/// file, then reading its raw text, then reading its bytes for the hash.
pub open spec fn extraction_error(
    ext: Seq<char>,
    meta: Option<Seq<char>>,
    text: Option<Seq<char>>,
    bytes: Option<Seq<char>>,
) -> Option<Seq<char>> {
    if meta is Some {
        meta
    } else if kind_of(ext) == SourceKind::Pdf {
        Some(pdf_refusal())
    } else if kind_of(ext) == SourceKind::Unsupported {
        Some("不支持的文件类型: "@ + ext)
    } else if text is Some {
        text
    } else {
        bytes
    }
}

/// The text of a document of kind `kind` read as `raw`, before whitespace is
/// normalized.
pub open spec fn source_content(kind: SourceKind, raw: Seq<char>) -> Seq<char> {
    match kind {
        SourceKind::Html => decode_entities_spec(strip_tags(raw)),
        SourceKind::Docx => xml_text_from(raw, 0),
        _ => raw,
    }
}

fn raw_source_text(kind: SourceKind, text: Result<String, String>, bytes: &Result<Vec<u8>, String>) -> (r: Result<String, String>)
    ensures
        match r {
            Ok(t) => raw_source(kind, text, *bytes) == Ok::<Seq<char>, Seq<char>>(t@),
            Err(e) => raw_source(kind, text, *bytes) == Err::<Seq<char>, Seq<char>>(e@),
        },
{
    match kind {
        SourceKind::Docx => match bytes {
            Ok(b) => read_docx_document_xml(b.as_slice()),
            Err(e) => Err(e.clone()),
        },
        _ => text,
    }
}

/// `extract_document`: the extracted document of `file`, from its metadata,
/// its raw text (see `raw_source`: the XML of the document part of a `.docx`
/// file, read from its bytes; for other files the text given, which is the
/// file's text or the text an office suite produced) and its bytes.
pub fn extract_document(
    file: &DiscoveredFile,
    meta: Result<FileMeta, String>,
    text: Result<String, String>,
    bytes: Result<Vec<u8>, String>,
) -> (r: Result<ExtractedDocument, String>)
    ensures
        ({
            let ext = extension_lower(file.path@);
            let raw = raw_source(kind_of(ext), text, bytes);
            let err = extraction_error(ext, err_of(meta), raw_err(raw), err_of(bytes));
            &&& (r is Err <==> err is Some)
            &&& (r matches Err(e) ==> err == Some(e@))
            &&& (r matches Ok(d) ==> {
                &&& meta matches Ok(m)
                &&& raw matches Ok(t)
                &&& bytes matches Ok(b)
                &&& d.dir_path@ == file.dir_path@
                &&& d.path@ == file.path@
                &&& d.file_name@ == name_or_unknown(file.path@)
                &&& d.ext@ == ext
                &&& d.file_size == m.file_size
                &&& d.modified_at == m.modified_at
                &&& d.modified@ == modified_label(m.modified_secs)
                &&& d.content_hash@ == hex_of(sha256(b@))
                &&& d.content@ == collapse_ws(source_content(kind_of(ext), t))
            })
        }),
{
    let ext = extension(file.path.as_str());
    let file_name = match file_name_of(file.path.as_str()) {
        Some(n) => n,
        None => "unknown".to_owned(),
    };
    let m = match meta {
        Ok(m) => m,
        Err(e) => return Err(e),
    };
    let kind = source_kind(ext.as_str());
    let raw = match kind {
        SourceKind::Pdf => {
            return Err("暂不支持 PDF 解析，请启用 Python 解析器或接入 PDF 文本提取".to_owned());
        },
        SourceKind::Unsupported => {
            let mut msg = chars_of("不支持的文件类型: ");
            append_str(&mut msg, ext.as_str());
            return Err(string_of(msg.as_slice()));
        },
        _ => match raw_source_text(kind, text, &bytes) {
            Ok(t) => t,
            Err(e) => return Err(e),
        },
    };
    let content = match kind {
        SourceKind::Html => strip_html_tags(raw.as_str()),
        SourceKind::Docx => extract_xml_text_nodes(raw.as_str()),
        _ => raw,
    };
    let b = match bytes {
        Ok(b) => b,
        Err(e) => return Err(e),
    };
    let content_hash = hash_file_bytes(b.as_slice());
    Ok(ExtractedDocument {
        dir_path: file.dir_path.clone(),
        path: file.path.clone(),
        file_name,
        ext,
        file_size: m.file_size,
        modified_at: m.modified_at,
        content_hash,
        modified: format_modified(m.modified_secs),
        content: normalize_whitespace(content.as_str()),
    })
}

/// The decimal text of a signed number.
pub open spec fn signed_decimal(n: int) -> Seq<char> {
    if n < 0 {
        seq!['-'] + decimal((-n) as nat)
    } else {
        decimal(n as nat)
    }
}

fn signed_decimal_chars(n: i64) -> (r: Vec<char>)
    ensures
        r@ == signed_decimal(n as int),
{
    if n < 0 {
        let mut v: Vec<char> = Vec::new();
        v.push('-');
        let m: u64 = if n == i64::MIN { 9_223_372_036_854_775_808u64 } else { (-n) as u64 };
        let d = decimal_chars(m);
        append_chars(&mut v, d.as_slice());
        v
    } else {
        decimal_chars(n as u64)
    }
}

/// The refusal of a file over the size limit.
pub open spec fn too_large_message(path: Seq<char>, file_size: int, max_file_size_mb: nat) -> Seq<char> {
    "文件过大: "@ + path + " ("@ + signed_decimal(file_size) + " bytes > "@ + decimal(max_file_size_mb) + " MB)"@
}

/// `snapshot_supported_file`: a discovered file from its metadata (length,
/// modification time) and bytes; refused when over the size limit, or when
/// the metadata or the bytes could not be read.
pub fn snapshot_supported_file(
    dir_path: &str,
    path: &str,
    meta: &Result<(i64, i64), String>,
    max_file_size_mb: u64,
    bytes: &Result<Vec<u8>, String>,
) -> (r: Result<DiscoveredFile, String>)
    ensures
        match *meta {
            Err(e) => r matches Err(x) && x@ == e@,
            Ok((size, modified_at)) => if too_large(size as int, max_file_size_mb as int) {
                r matches Err(x) && x@ == too_large_message(path@, size as int, max_file_size_mb as nat)
            } else {
                match *bytes {
                    Err(e) => r matches Err(x) && x@ == e@,
                    Ok(b) => r matches Ok(f) && f.dir_path@ == dir_path@ && f.path@ == path@
                        && f.file_size == size && f.modified_at == modified_at
                        && f.content_hash@ == hex_of(sha256(b@)),
                }
            },
        },
        r matches Ok(f) ==> Some(discovered_view(f)) == snapshot_of(dir_path@, path@, *meta, max_file_size_mb, *bytes),
        r is Err ==> snapshot_of(dir_path@, path@, *meta, max_file_size_mb, *bytes) is None,
{
    let (file_size, modified_at) = match meta {
        Ok(m) => *m,
        Err(e) => return Err(e.clone()),
    };
    if file_too_large(file_size, max_file_size_mb) {
        let mut msg = chars_of("文件过大: ");
        append_str(&mut msg, path);
        append_str(&mut msg, " (");
        let size_text = signed_decimal_chars(file_size);
        append_chars(&mut msg, size_text.as_slice());
        append_str(&mut msg, " bytes > ");
        let mb_text = decimal_chars(max_file_size_mb);
        append_chars(&mut msg, mb_text.as_slice());
        append_str(&mut msg, " MB)");
        return Err(string_of(msg.as_slice()));
    }
    let b = match bytes {
        Ok(b) => b,
        Err(e) => return Err(e.clone()),
    };
    Ok(DiscoveredFile {
        dir_path: dir_path.to_owned(),
        path: path.to_owned(),
        file_size,
        modified_at,
        content_hash: hash_file_bytes(b.as_slice()),
    })
}

/// What a snapshot of a file gives, as plain values (directory, path, size,
/// modification time, hash): nothing when the metadata cannot be read, the
/// file is over the size limit, or its bytes cannot be read.
pub open spec fn snapshot_of(
    dir_path: Seq<char>,
    path: Seq<char>,
    meta: Result<(i64, i64), String>,
    max_file_size_mb: u64,
    bytes: Result<Vec<u8>, String>,
) -> Option<(Seq<char>, Seq<char>, i64, i64, Seq<char>)> {
    match meta {
        Ok((size, modified_at)) => if too_large(size as int, max_file_size_mb as int) {
            None
        } else {
            match bytes {
                Ok(b) => Some((dir_path, path, size, modified_at, hex_of(sha256(b@)))),
                Err(_) => None,
            }
        },
        Err(_) => None,
    }
}

/// A file met while walking an index directory, with what the file system
/// said of it.
#[derive(Debug)]
pub struct FoundFile {
    /// The index of its index directory in the list walked.
    pub root: usize,
    /// Its path.
    pub path: String,
    /// The names of the directories between the index directory and the file.
    pub dir_names: Vec<String>,
    /// Its length and modification time, or why they could not be read.
    pub meta: Result<(i64, i64), String>,
    /// Its bytes, or why they could not be read (not looked at when the file
    /// is over the size limit).
    pub bytes: Result<Vec<u8>, String>,
}

/// The fields of a discovered file.
pub open spec fn discovered_view(f: DiscoveredFile) -> (Seq<char>, Seq<char>, i64, i64, Seq<char>) {
    (f.dir_path@, f.path@, f.file_size, f.modified_at, f.content_hash@)
}

/// A found file is a candidate: its index directory exists, no directory on
/// the way is skipped, and its extension is indexed.
pub open spec fn keeps(f: FoundFile, roots: Seq<bool>, exclude_dirs: Seq<Seq<char>>, exclude_exts: Seq<Seq<char>>) -> bool {
    &&& f.root < roots.len()
    &&& roots[f.root as int]
    &&& forall|i: int| 0 <= i < f.dir_names@.len() ==> !skip_dir(#[trigger] f.dir_names@[i]@, exclude_dirs)
    &&& supported_ext(extension_lower(f.path@), exclude_exts)
}

/// The discovered files among `found`, in order: each candidate whose snapshot
/// (under its index directory in `dirs`) succeeds.
pub open spec fn discovered(
    found: Seq<FoundFile>,
    dirs: Seq<Seq<char>>,
    roots: Seq<bool>,
    exclude_dirs: Seq<Seq<char>>,
    exclude_exts: Seq<Seq<char>>,
    max_file_size_mb: u64,
) -> Seq<(Seq<char>, Seq<char>, i64, i64, Seq<char>)>
    decreases found.len(),
{
    if found.len() == 0 {
        Seq::empty()
    } else {
        let prev = discovered(found.drop_last(), dirs, roots, exclude_dirs, exclude_exts, max_file_size_mb);
        let f = found.last();
        if keeps(f, roots, exclude_dirs, exclude_exts) {
            match snapshot_of(dirs[f.root as int], f.path@, f.meta, max_file_size_mb, f.bytes) {
                Some(v) => prev.push(v),
                None => prev,
            }
        } else {
            prev
        }
    }
}

fn no_skipped_dir(names: &Vec<String>, exclude_dirs: &Vec<String>) -> (r: bool)
    ensures
        r == forall|i: int| 0 <= i < names@.len() ==> !skip_dir(#[trigger] names@[i]@, string_views(exclude_dirs@)),
{
    let mut i: usize = 0;
    while i < names.len()
        invariant
            i <= names@.len(),
            forall|k: int| 0 <= k < i ==> !skip_dir(#[trigger] names@[k]@, string_views(exclude_dirs@)),
        decreases names@.len() - i,
    {
        if should_skip_directory(names[i].as_str(), exclude_dirs) {
            return false;
        }
        i += 1;
    }
    true
}

/// `discover_supported_files`: the files found while walking the index
/// directories `dir_paths` (`roots` tells which exist as directories) that are
/// candidates (see `keeps`) and whose snapshot succeeds, in the order they were
/// found. Each is filed under its index directory, and lies below it.
pub fn discover_supported_files(
    dir_paths: &Vec<String>,
    roots: &Vec<bool>,
    found: &Vec<FoundFile>,
    exclude_dirs: &Vec<String>,
    exclude_exts: &Vec<String>,
    max_file_size_mb: u64,
) -> (r: Vec<DiscoveredFile>)
    requires
        roots@.len() == dir_paths@.len(),
        forall|k: int| 0 <= k < found@.len() && (#[trigger] found@[k]).root < dir_paths@.len()
            ==> starts_with(found@[k].path@, dir_paths@[found@[k].root as int]@),
    ensures
        r@.map_values(|d: DiscoveredFile| discovered_view(d)) == discovered(
            found@,
            string_views(dir_paths@),
            roots@,
            string_views(exclude_dirs@),
            string_views(exclude_exts@),
            max_file_size_mb,
        ),
        forall|j: int| 0 <= j < r@.len() ==> string_views(dir_paths@).contains((#[trigger] r@[j]).dir_path@)
            && starts_with(r@[j].path@, r@[j].dir_path@),
{
    let ghost xd = string_views(exclude_dirs@);
    let ghost xe = string_views(exclude_exts@);
    let ghost dv = string_views(dir_paths@);
    let mut out: Vec<DiscoveredFile> = Vec::new();
    let mut i: usize = 0;
    while i < found.len()
        invariant
            i <= found@.len(),
            roots@.len() == dir_paths@.len(),
            forall|k: int| 0 <= k < found@.len() && (#[trigger] found@[k]).root < dir_paths@.len()
                ==> starts_with(found@[k].path@, dir_paths@[found@[k].root as int]@),
            xd == string_views(exclude_dirs@),
            xe == string_views(exclude_exts@),
            dv == string_views(dir_paths@),
            out@.map_values(|d: DiscoveredFile| discovered_view(d)) == discovered(found@.take(i as int), dv, roots@, xd, xe, max_file_size_mb),
            forall|j: int| 0 <= j < out@.len() ==> dv.contains((#[trigger] out@[j]).dir_path@)
                && starts_with(out@[j].path@, out@[j].dir_path@),
        decreases found@.len() - i,
    {
        proof {
            assert(found@.take(i + 1).drop_last() =~= found@.take(i as int));
            assert(found@.take(i + 1).last() == found@[i as int]);
        }
        let f = &found[i];
        let ok_root = f.root < roots.len() && roots[f.root];
        if ok_root && no_skipped_dir(&f.dir_names, exclude_dirs) && is_supported_file(f.path.as_str(), exclude_exts) {
            let dir = &dir_paths[f.root];
            match snapshot_supported_file(dir.as_str(), f.path.as_str(), &f.meta, max_file_size_mb, &f.bytes) {
                Ok(d) => {
                    let ghost before = out@.map_values(|d: DiscoveredFile| discovered_view(d));
                    proof {
                        assert(dv[f.root as int] == dir@);
                        assert(starts_with(f.path@, dir@));
                    }
                    out.push(d);
                    proof {
                        assert(out@.map_values(|d: DiscoveredFile| discovered_view(d)) =~= before.push(discovered_view(d)));
                    }
                },
                Err(_) => {
                    proof {
                        assert(dv[f.root as int] == dir@);
                    }
                },
            }
        }
        i += 1;
    }
    proof {
        assert(found@.take(found@.len() as int) =~= found@);
    }
    out
}

/// `chunk_document`: the chunks of an extracted document (see `chunks_of`).
pub fn chunk_document(document: &ExtractedDocument) -> (r: Vec<ChunkRecord>)
    requires
        document.content@.len() < i64::MAX,
    ensures
        chunk_views(r@) == chunks_of(document.content@, document.file_name@),
        forall|i: int| 0 <= i < r@.len() ==> (#[trigger] r@[i]).paragraph is Some && r@[i].page is None
            && r@[i].block_indexes@.len() == 0,
{
    chunk_text(document.content.as_str(), document.file_name.as_str())
}


/// Every extension the scanner indexes can be extracted here: `html` and
/// `htm` are read as HTML, `docx` from its archive, and every other indexed
/// extension (txt, md, markdown, log, toml, json, yaml, yml, xml, csv, rs, js,
/// ts, tsx, jsx, py) as plain text. None of them is refused as unsupported or
/// as a PDF.
pub proof fn law_indexed_extensions_are_extracted(ext: Seq<char>, exclude_exts: Seq<Seq<char>>)
    ensures
        supported_ext(ext, exclude_exts) ==> kind_of(ext) != SourceKind::Unsupported && kind_of(ext) != SourceKind::Pdf,
        supported_ext(ext, exclude_exts) && ext != "html"@ && ext != "htm"@ && ext != "docx"@ ==> kind_of(ext) == SourceKind::Text,
        (ext == "html"@ || ext == "htm"@) ==> kind_of(ext) == SourceKind::Html,
        ext == "docx"@ ==> kind_of(ext) == SourceKind::Docx,
        (ext == "doc"@ || ext == "ppt"@ || ext == "pptx"@) ==> kind_of(ext) == SourceKind::Office,
        ext == "pdf"@ ==> kind_of(ext) == SourceKind::Pdf,
        (ext == "txt"@ || ext == "md"@ || ext == "markdown"@ || ext == "log"@ || ext == "toml"@ || ext == "json"@
            || ext == "yaml"@ || ext == "yml"@ || ext == "xml"@ || ext == "csv"@ || ext == "rs"@ || ext == "js"@
            || ext == "ts"@ || ext == "tsx"@ || ext == "jsx"@ || ext == "py"@) ==> kind_of(ext) == SourceKind::Text,
{
    reveal_strlit("txt");
    reveal_strlit("md");
    reveal_strlit("markdown");
    reveal_strlit("log");
    reveal_strlit("toml");
    reveal_strlit("json");
    reveal_strlit("yaml");
    reveal_strlit("yml");
    reveal_strlit("xml");
    reveal_strlit("csv");
    reveal_strlit("rs");
    reveal_strlit("js");
    reveal_strlit("ts");
    reveal_strlit("tsx");
    reveal_strlit("jsx");
    reveal_strlit("py");
    reveal_strlit("html");
    reveal_strlit("htm");
    reveal_strlit("docx");
    reveal_strlit("doc");
    reveal_strlit("ppt");
    reveal_strlit("pptx");
    reveal_strlit("pdf");
    let sx = crate::scanner::supported_exts();
    let tx = text_exts();
    assert forall|k: int| 0 <= k < tx.len() implies tx[k][0] != 'h' && tx[k][0] != 'd' by {
        if k == 0 {} else if k == 1 {} else if k == 2 {} else if k == 3 {} else if k == 4 {}
        else if k == 5 {} else if k == 6 {} else if k == 7 {} else if k == 8 {} else if k == 9 {}
        else if k == 10 {} else if k == 11 {} else if k == 12 {} else if k == 13 {} else if k == 14 {}
        else {}
    }
    if ext == "html"@ || ext == "htm"@ || ext == "docx"@ {
        assert(ext[0] == 'h' || ext[0] == 'd');
        assert(!tx.contains(ext));
    }
    assert forall|k: int| 0 <= k < tx.len() implies tx[k][0] != 'p' || tx[k].len() == 2 by {
        if k == 0 {} else if k == 1 {} else if k == 2 {} else if k == 3 {} else if k == 4 {}
        else if k == 5 {} else if k == 6 {} else if k == 7 {} else if k == 8 {} else if k == 9 {}
        else if k == 10 {} else if k == 11 {} else if k == 12 {} else if k == 13 {} else if k == 14 {}
        else {}
    }
    if ext == "doc"@ || ext == "ppt"@ || ext == "pptx"@ || ext == "pdf"@ {
        assert(ext[0] == 'd' || (ext[0] == 'p' && ext.len() != 2));
        assert(!tx.contains(ext));
    }
    if ext == "doc"@ { assert(office_exts()[0] == ext); }
    if ext == "ppt"@ { assert(office_exts()[1] == ext); }
    if ext == "pptx"@ { assert(office_exts()[2] == ext); }
    if ext == "pdf"@ {
        let ox = office_exts();
        assert forall|k: int| 0 <= k < ox.len() implies ox[k] != ext by {
            if k == 0 { assert(ox[0][0] != ext[0]); } else if k == 1 { assert(ox[1][1] != ext[1]); } else { assert(ox[2].len() != ext.len()); }
        }
        assert(!ox.contains(ext));
    }
    if ext == "docx"@ {
        let ox = office_exts();
        assert forall|k: int| 0 <= k < ox.len() implies ox[k] != ext by {
            if k == 0 {
                assert(ox[0].len() != ext.len());
            } else if k == 1 {
                assert(ox[1].len() != ext.len());
            } else {
                assert(ox[2][0] != ext[0]);
            }
        }
        assert(!ox.contains(ext));
    }
    if sx.contains(ext) {
        let k = choose|k: int| 0 <= k < sx.len() && sx[k] == ext;
        if ext != "html"@ && ext != "htm"@ && ext != "docx"@ {
            assert(tx.contains(ext)) by {
                if k == 0 { assert(tx[0] == ext); }
                else if k == 1 { assert(tx[1] == ext); }
                else if k == 2 { assert(tx[2] == ext); }
                else if k == 6 { assert(tx[3] == ext); }
                else if k == 7 { assert(tx[4] == ext); }
                else if k == 8 { assert(tx[5] == ext); }
                else if k == 9 { assert(tx[6] == ext); }
                else if k == 10 { assert(tx[7] == ext); }
                else if k == 11 { assert(tx[8] == ext); }
                else if k == 12 { assert(tx[9] == ext); }
                else if k == 13 { assert(tx[10] == ext); }
                else if k == 14 { assert(tx[11] == ext); }
                else if k == 15 { assert(tx[12] == ext); }
                else if k == 16 { assert(tx[13] == ext); }
                else if k == 17 { assert(tx[14] == ext); }
                else if k == 18 { assert(tx[15] == ext); }
            }
        }
    }
    if ext == "txt"@ { assert(tx[0] == ext); }
    if ext == "md"@ { assert(tx[1] == ext); }
    if ext == "markdown"@ { assert(tx[2] == ext); }
    if ext == "log"@ { assert(tx[3] == ext); }
    if ext == "toml"@ { assert(tx[4] == ext); }
    if ext == "json"@ { assert(tx[5] == ext); }
    if ext == "yaml"@ { assert(tx[6] == ext); }
    if ext == "yml"@ { assert(tx[7] == ext); }
    if ext == "xml"@ { assert(tx[8] == ext); }
    if ext == "csv"@ { assert(tx[9] == ext); }
    if ext == "rs"@ { assert(tx[10] == ext); }
    if ext == "js"@ { assert(tx[11] == ext); }
    if ext == "ts"@ { assert(tx[12] == ext); }
    if ext == "tsx"@ { assert(tx[13] == ext); }
    if ext == "jsx"@ { assert(tx[14] == ext); }
    if ext == "py"@ { assert(tx[15] == ext); }
}

} // verus!
