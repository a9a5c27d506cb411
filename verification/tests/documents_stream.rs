use std::io::Write;
use seekmind::documents::{
    chunk_document, discover_supported_files, extract_document, snapshot_supported_file,
    source_kind, DiscoveredFile, FileMeta, FoundFile, SourceKind,
};
use seekmind::stream::{
    stream_step, stream_timeout_ms, EventHead, ExitProbe, Protocol, Received, StreamAction,
    StreamFailure,
};
use seekmind::text::parse_u64;

fn file(path: &str) -> DiscoveredFile {
    DiscoveredFile {
        dir_path: "/docs".to_string(),
        path: path.to_string(),
        file_size: 5,
        modified_at: 60,
        content_hash: String::new(),
    }
}

fn meta() -> FileMeta {
    FileMeta { file_size: 11, modified_at: 60, modified_secs: Some(60) }
}

#[test]
fn source_kinds_by_extension() {
    assert_eq!(source_kind("md"), SourceKind::Text);
    assert_eq!(source_kind("htm"), SourceKind::Html);
    assert_eq!(source_kind("pptx"), SourceKind::Office);
    assert_eq!(source_kind("docx"), SourceKind::Docx);
    assert_eq!(source_kind("pdf"), SourceKind::Pdf);
    assert_eq!(source_kind("exe"), SourceKind::Unsupported);
}

#[test]
fn extracting_a_markdown_file() {
    let doc = extract_document(&file("/docs/Notes.MD"), Ok(meta()), Ok("  # Title \n\n body ".to_string()), Ok(b"abc".to_vec()))
        .expect("markdown is extractable");
    assert_eq!(doc.dir_path, "/docs");
    assert_eq!(doc.file_name, "Notes.MD");
    assert_eq!(doc.ext, "md");
    assert_eq!(doc.file_size, 11);
    assert_eq!(doc.modified, "1970-01-01 00:01");
    assert_eq!(doc.content_hash, "ba7816bf8f01cfea414140de5dae2223b00361a396177a9cb410ff61f20015ad");
    assert_eq!(doc.content, "# Title body");
}

#[test]
fn extracting_html_and_docx_text() {
    let html = extract_document(&file("/d/p.html"), Ok(meta()), Ok("<p>A &amp; B</p>".to_string()), Ok(Vec::new())).unwrap();
    assert_eq!(html.content, "A & B");
    let archive = docx_archive("<w:document><w:t>One</w:t><w:t>Two</w:t></w:document>");
    // The text handed in is not used for a `.docx` file: the archive's bytes are read.
    let docx = extract_document(&file("/d/p.docx"), Ok(meta()), Ok("ignored".to_string()), Ok(archive.clone())).unwrap();
    assert_eq!(docx.content, "One Two");
    assert_eq!(docx.content_hash.len(), 64);
}

#[test]
fn extraction_errors_in_order() {
    assert_eq!(
        extract_document(&file("/d/a.md"), Err("no meta".to_string()), Ok(String::new()), Ok(Vec::new())).unwrap_err(),
        "no meta"
    );
    assert_eq!(
        extract_document(&file("/d/a.pdf"), Ok(meta()), Err("x".to_string()), Ok(Vec::new())).unwrap_err(),
        "暂不支持 PDF 解析，请启用 Python 解析器或接入 PDF 文本提取"
    );
    assert_eq!(
        extract_document(&file("/d/a.exe"), Ok(meta()), Ok(String::new()), Ok(Vec::new())).unwrap_err(),
        "不支持的文件类型: exe"
    );
    assert_eq!(
        extract_document(&file("/d/a.md"), Ok(meta()), Err("unreadable".to_string()), Ok(Vec::new())).unwrap_err(),
        "unreadable"
    );
    assert_eq!(
        extract_document(&file("/d/a.md"), Ok(meta()), Ok("x".to_string()), Err("no bytes".to_string())).unwrap_err(),
        "no bytes"
    );
}

#[test]
fn snapshots_respect_the_size_limit() {
    let ok = snapshot_supported_file("/d", "/d/a.md", &Ok((3, 9)), 1, &Ok(b"abc".to_vec())).unwrap();
    assert_eq!((ok.file_size, ok.modified_at), (3, 9));
    assert_eq!(ok.content_hash, "ba7816bf8f01cfea414140de5dae2223b00361a396177a9cb410ff61f20015ad");
    assert_eq!(
        snapshot_supported_file("/d", "/d/big.md", &Ok((2_097_152, 0)), 1, &Ok(Vec::new())).unwrap_err(),
        "文件过大: /d/big.md (2097152 bytes > 1 MB)"
    );
    assert_eq!(snapshot_supported_file("/d", "/d/a.md", &Err("gone".to_string()), 1, &Ok(Vec::new())).unwrap_err(), "gone");
    assert_eq!(snapshot_supported_file("/d", "/d/a.md", &Ok((1, 1)), 1, &Err("eio".to_string())).unwrap_err(), "eio");
}

fn found(root: usize, path: &str, dirs: &[&str], size: i64) -> FoundFile {
    FoundFile {
        root,
        path: path.to_string(),
        dir_names: dirs.iter().map(|d| d.to_string()).collect(),
        meta: Ok((size, 60)),
        bytes: Ok(path.as_bytes().to_vec()),
    }
}

#[test]
fn discovery_filters_found_files() {
    let mut big = found(0, "/d/sub/e.md", &["sub"], 2 * 1024 * 1024);
    big.bytes = Err(String::new());
    let found = vec![
        found(0, "/d/a.md", &[], 5),
        found(0, "/d/.git/b.md", &[".git"], 5),
        found(0, "/d/c.exe", &[], 5),
        found(1, "/e/d.md", &[], 5),
        big,
        found(0, "/d/sub/f.txt", &["sub"], 5),
        found(0, "/d/g.pdf", &[], 5),
    ];
    let dirs = vec!["/d".to_string(), "/e".to_string()];
    let out = discover_supported_files(&dirs, &vec![true, false], &found, &Vec::new(), &Vec::new(), 1);
    let paths: Vec<String> = out.iter().map(|f| f.path.clone()).collect();
    assert_eq!(paths, vec!["/d/a.md".to_string(), "/d/sub/f.txt".to_string()]);
    assert!(out.iter().all(|f| f.dir_path == "/d" && f.file_size == 5 && f.modified_at == 60));
    assert_eq!(out[0].content_hash.len(), 64);
    let out = discover_supported_files(&dirs, &vec![true, false], &found, &vec!["SUB".to_string()], &vec!["md".to_string()], 1);
    assert!(out.is_empty());
}

#[test]
fn discovers_and_extracts_markdown_files_from_agent_directory() {
    let dir_path = "/Users/zhaoyang/Documents/MarkdownHome/zhaoyang-markdown/AI/面向agent编程";
    let files_found: Vec<FoundFile> = ["01-目标.md", "02-上下文.md", "notes/03-工具.md", "04-评估.md"]
        .iter()
        .map(|name| {
            let path = format!("{dir_path}/{name}");
            let dirs: Vec<&str> = if name.contains('/') { vec!["notes"] } else { Vec::new() };
            found(0, &path, &dirs, 120)
        })
        .chain([found(0, &format!("{dir_path}/diagram.png"), &[], 10), found(0, &format!("{dir_path}/.obsidian/x.md"), &[".obsidian"], 3)])
        .collect();
    let files = discover_supported_files(&vec![dir_path.to_string()], &vec![true], &files_found, &Vec::new(), &Vec::new(), 50);

    assert_eq!(files.len(), 4);
    assert!(files.iter().all(|file| file.path.ends_with(".md")));

    let first = &files[0];
    let document = extract_document(
        first,
        Ok(FileMeta { file_size: 120, modified_at: 60, modified_secs: Some(60) }),
        Ok("# 面向 agent 编程\n\n把任务拆成可验证的小步。".to_string()),
        Ok(b"content".to_vec()),
    )
    .expect("expected markdown file to be extractable");
    assert_eq!(document.dir_path, dir_path);
    assert!(!document.content.trim().is_empty());

    let chunks = chunk_document(&document);
    assert!(!chunks.is_empty());
}

#[test]
fn chunking_an_extracted_document() {
    let doc = extract_document(&file("/d/n.txt"), Ok(meta()), Ok("alpha\n\nbeta".to_string()), Ok(Vec::new())).unwrap();
    // Whitespace normalization joins the paragraphs into one line.
    let chunks = chunk_document(&doc);
    assert_eq!(chunks.len(), 1);
    assert_eq!(chunks[0].heading, "n.txt");
    assert_eq!(chunks[0].snippet, "alpha beta");
}

fn line(kind: &str, rid: &str, response: Result<&str, &str>) -> Received {
    Received::Line {
        blank: false,
        event: Some(EventHead { kind: kind.to_string(), request_id: rid.to_string() }),
        response: response.map(|s| s.to_string()).map_err(|s| s.to_string()),
    }
}

fn is_fail_invalid(a: &StreamAction, msg: &str) -> bool {
    matches!(a, StreamAction::Fail(StreamFailure::InvalidResponse(m)) if m == msg)
}

#[test]
fn stream_events_and_responses() {
    let (kept, a) = stream_step(Protocol::Qa, "r1", false, 0, 100, &line("event", "r1", Err("n/a")));
    assert!(!kept && matches!(a, StreamAction::Deliver));
    let (_, a) = stream_step(Protocol::Qa, "r1", false, 0, 100, &line("event", "other", Ok("other")));
    assert!(is_fail_invalid(&a, "request_id mismatch"));
    let (_, a) = stream_step(Protocol::Parser, "r1", false, 0, 100, &line("event", "other", Ok("r1")));
    assert!(matches!(a, StreamAction::Wait));
    let (kept, a) = stream_step(Protocol::Parser, "r1", false, 0, 100, &line("response", "", Ok("r1")));
    assert!(kept && matches!(a, StreamAction::Store));
    let (_, a) = stream_step(Protocol::Parser, "r1", false, 0, 100, &line("response", "", Err("bad json")));
    assert!(is_fail_invalid(&a, "bad json"));
}

#[test]
fn stream_endings() {
    let blank = Received::Line { blank: true, event: None, response: Err(String::new()) };
    assert!(matches!(stream_step(Protocol::Qa, "r", false, 0, 10, &blank).1, StreamAction::Wait));
    assert!(matches!(stream_step(Protocol::Qa, "r", false, 10, 10, &blank).1, StreamAction::Fail(StreamFailure::Timeout)));
    assert!(matches!(stream_step(Protocol::Qa, "r", true, 0, 10, &Received::Closed).1, StreamAction::Finish));
    assert!(is_fail_invalid(&stream_step(Protocol::Qa, "r", false, 0, 10, &Received::Closed).1, "python qa stream closed unexpectedly"));
    assert!(is_fail_invalid(&stream_step(Protocol::Parser, "r", false, 0, 10, &Received::Closed).1, "python parser stream closed unexpectedly"));
    let exited = Received::Nothing { exit: ExitProbe::Exited { success: false, status: "exit status: 2".to_string() } };
    match stream_step(Protocol::Parser, "r", true, 0, 10, &exited).1 {
        StreamAction::Fail(StreamFailure::Exited(m)) => assert_eq!(m, "python parser exited with status exit status: 2"),
        other => panic!("unexpected {:?}", other),
    }
    assert!(matches!(stream_step(Protocol::Qa, "r", true, 0, 10, &exited).1, StreamAction::Finish));
    assert!(matches!(stream_step(Protocol::Parser, "r", false, 0, 10, &exited).1, StreamAction::Wait));
    let running = Received::Nothing { exit: ExitProbe::Running };
    assert!(matches!(stream_step(Protocol::Parser, "r", true, 0, 10, &running).1, StreamAction::Wait));
}

#[test]
fn stream_timeouts() {
    assert_eq!(stream_timeout_ms(Some("1500".to_string()), 10), 1500);
    assert_eq!(stream_timeout_ms(Some("soon".to_string()), 10), 300_000);
    assert_eq!(stream_timeout_ms(None, 400_000), 400_000);
    assert_eq!(parse_u64("+42"), Some(42));
    assert_eq!(parse_u64("18446744073709551616"), None);
    assert_eq!(parse_u64(""), None);
}

fn docx_archive(document_xml: &str) -> Vec<u8> {
    let mut writer = zip::ZipWriter::new(std::io::Cursor::new(Vec::new()));
    writer.start_file("word/document.xml", zip::write::SimpleFileOptions::default()).unwrap();
    writer.write_all(document_xml.as_bytes()).unwrap();
    writer.finish().unwrap().into_inner()
}

#[test]
fn docx_text_comes_from_the_archive_bytes() {
    let ok = extract_document(
        &file("/d/n.docx"),
        Ok(meta()),
        Ok(String::new()),
        Ok(docx_archive("<w:p><w:r><w:t>面向</w:t></w:r><w:r><w:t>agent</w:t></w:r></w:p>")),
    )
    .unwrap();
    assert_eq!(ok.content, "面向 agent");
    let not_zip = extract_document(&file("/d/n.docx"), Ok(meta()), Ok(String::new()), Ok(b"plain text".to_vec()));
    assert!(not_zip.is_err());
    let unreadable = extract_document(&file("/d/n.docx"), Ok(meta()), Ok(String::new()), Err("denied".to_string()));
    assert_eq!(unreadable.unwrap_err(), "denied");
    let mut writer = zip::ZipWriter::new(std::io::Cursor::new(Vec::new()));
    writer.start_file("other.xml", zip::write::SimpleFileOptions::default()).unwrap();
    let no_part = writer.finish().unwrap().into_inner();
    assert!(extract_document(&file("/d/n.docx"), Ok(meta()), Ok(String::new()), Ok(no_part)).is_err());
}
