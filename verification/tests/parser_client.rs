use seekmind::documents::DiscoveredFile;
use seekmind::parser::{
    after_python_failure, convert_python_document, finish_parse, locate_script,
    python_failure_warning, python_parse_or_fallback, python_parser_available,
    python_parser_enabled, ParsedChunk, ParsedDocument, ParserClientError, ParserError,
    PythonParserClient,
};
use seekmind::stream::StreamFailure;

fn client(bundled: Option<&str>, found: Option<&str>) -> PythonParserClient {
    PythonParserClient::from_settings(None, None, false, bundled.map(|s| s.to_string()), None)
        .with_script_found(found.map(|s| s.to_string()))
}

#[test]
fn settings_defaults() {
    let c = PythonParserClient::from_settings(None, None, false, None, None);
    assert_eq!(c.python_bin, "python3");
    assert_eq!(c.script_path, "parser/docmind_parser/__main__.py");
    assert_eq!(c.bundled_sidecar, None);
    assert_eq!(c.timeout_ms, 30_000);
    assert!(!c.is_configured());
}

#[test]
fn settings_override() {
    let c = PythonParserClient::from_settings(
        Some("/usr/bin/parser".to_string()),
        Some("/opt/p.py".to_string()),
        true,
        Some("/bundle/p".to_string()),
        Some("4500".to_string()),
    );
    assert_eq!(c.python_bin, "/usr/bin/parser");
    assert_eq!(c.bundled_sidecar, Some("/usr/bin/parser".to_string()));
    assert_eq!(c.timeout_ms, 4500);
    let c = PythonParserClient::from_settings(Some("  ".to_string()), None, true, Some("/bundle/p".to_string()), Some("x".to_string()));
    assert_eq!(c.bundled_sidecar, Some("/bundle/p".to_string()));
    assert_eq!(c.timeout_ms, 30_000);
}

#[test]
fn script_candidates_and_lookup() {
    let c = client(None, None);
    let cands = c.script_candidates(Some("/work".to_string()), Some("/opt/app/seekmind".to_string()), "/src/src-tauri");
    assert_eq!(
        cands,
        vec![
            "/work/parser/docmind_parser/__main__.py".to_string(),
            "/work/src-tauri/parser/docmind_parser/__main__.py".to_string(),
            "/opt/app/parser/docmind_parser/__main__.py".to_string(),
            "/src/src-tauri/../parser/docmind_parser/__main__.py".to_string(),
        ]
    );
    assert_eq!(locate_script(&cands, &vec![false, true, true, false]), Some(cands[1].clone()));
    assert_eq!(locate_script(&cands, &vec![false; 4]), None);
    let abs = PythonParserClient::from_settings(None, Some("/abs/p.py".to_string()), false, None, None);
    assert_eq!(abs.script_candidates(Some("/work".to_string()), None, "/m"), vec!["/abs/p.py".to_string()]);
}

#[test]
fn spawn_plans() {
    let plan = client(Some("/b/p"), Some("/s.py")).spawn_plan().unwrap();
    assert_eq!(plan.program, "/b/p");
    assert!(plan.args.is_empty());
    let plan = client(None, Some("/s.py")).spawn_plan().unwrap();
    assert_eq!(plan.program, "python3");
    assert_eq!(plan.args, vec!["/s.py".to_string()]);
    assert!(matches!(client(None, None).spawn_plan(), Err(ParserClientError::NotConfigured)));
    assert_eq!(client(None, Some("/s.py")).resolve_script_path(), "/s.py");
    assert_eq!(client(None, None).resolve_script_path(), "parser/docmind_parser/__main__.py");
}

#[test]
fn parse_requests_have_fresh_ids() {
    let c = client(None, Some("/s.py"));
    let a = c.parse_document("/d/a.md").unwrap();
    let b = c.parse_document("/d/a.md").unwrap();
    assert_eq!(a.request_id.len(), 36);
    assert_ne!(a.request_id, b.request_id);
    assert_eq!(a.command, "parse_document_stream");
    assert_eq!(a.path, "/d/a.md");
    assert!(matches!(client(None, None).parse_document("/x"), Err(ParserClientError::NotConfigured)));
}

#[test]
fn enabling_the_parser() {
    assert!(python_parser_enabled(Some(" TRUE ".to_string()), false));
    assert!(!python_parser_enabled(Some(" False ".to_string()), true));
    assert!(!python_parser_enabled(Some("0".to_string()), true));
    assert!(python_parser_enabled(None, true));
    assert!(!python_parser_enabled(None, false));
    assert!(python_parser_available(&client(Some("/b"), None)));
    assert!(python_parse_or_fallback(true, &client(Some("/b"), None), "/a.md").is_some());
    assert!(python_parse_or_fallback(false, &client(Some("/b"), None), "/a.md").is_none());
    assert!(python_parse_or_fallback(true, &client(None, None), "/a.md").is_none());
}

#[test]
fn error_texts() {
    assert_eq!(ParserClientError::NotConfigured.message(), "python parser is not configured");
    assert_eq!(ParserClientError::Timeout.message(), "python parser timed out");
    assert_eq!(ParserClientError::SpawnFailed("x".to_string()).message(), "failed to spawn python parser: x");
    assert_eq!(ParserClientError::Io("x".to_string()).message(), "python parser io error: x");
    assert_eq!(ParserClientError::InvalidResponse("x".to_string()).message(), "python parser returned invalid response: x");
    let pf = ParserClientError::ParserFailed(ParserError { code: "E1".to_string(), message: "bad".to_string(), details: None });
    assert_eq!(pf.message(), "python parser failed: bad (E1)");
    assert!(matches!(ParserClientError::from_stream(StreamFailure::Exited("s".to_string())), ParserClientError::SpawnFailed(m) if m == "s"));
}

#[test]
fn finishing_a_parse() {
    assert!(finish_parse(true, true, None).is_ok());
    assert!(matches!(finish_parse(true, false, None), Err(ParserClientError::InvalidResponse(m)) if m == "missing document"));
    match finish_parse(false, false, None) {
        Err(ParserClientError::ParserFailed(p)) => {
            assert_eq!(p.code, "parser_unknown");
            assert_eq!(p.message, "parser returned error without details");
        }
        other => panic!("unexpected {:?}", other),
    }
}

#[test]
fn fallback_after_a_python_failure() {
    let pf = ParserClientError::ParserFailed(ParserError { code: "E1".to_string(), message: "bad".to_string(), details: None });
    assert_eq!(python_failure_warning(&pf), "Python 解析失败：bad (E1)");
    assert_eq!(python_failure_warning(&ParserClientError::Timeout), "Python 解析失败：python parser timed out");
    assert_eq!(after_python_failure(&pf, "md"), Ok("Python 解析失败，已回退 Rust：bad (E1)".to_string()));
    assert_eq!(after_python_failure(&pf, "pdf"), Err("Python 解析失败：bad (E1)".to_string()));
}

#[test]
fn converting_a_parsed_document() {
    let file = DiscoveredFile {
        dir_path: "/d".to_string(),
        path: "/d/Guide.Md".to_string(),
        file_size: 9,
        modified_at: 1,
        content_hash: "h".to_string(),
    };
    let parsed = ParsedDocument {
        content: " one \n two ".to_string(),
        chunks: vec![
            ParsedChunk { heading: Some("Intro".to_string()), text: "a  b".to_string(), order: 3, page_no: Some(2), block_indexes: Some(vec![0, 4]) },
            ParsedChunk { heading: None, text: "c".to_string(), order: 4, page_no: None, block_indexes: None },
        ],
    };
    let (doc, chunks) = convert_python_document(&file, &parsed, None);
    assert_eq!(doc.content, "one two");
    assert_eq!(doc.ext, "md");
    assert_eq!(doc.modified, "未知");
    assert_eq!(doc.content_hash, "h");
    assert_eq!(chunks.len(), 2);
    assert_eq!((chunks[0].heading.as_str(), chunks[0].snippet.as_str(), chunks[0].paragraph, chunks[0].page), ("Intro", "a b", Some(3), Some(2)));
    assert_eq!(chunks[0].block_indexes, vec![0, 4]);
    assert_eq!(chunks[1].heading, "Guide.Md");
    let empty = ParsedDocument { content: "whole text".to_string(), chunks: Vec::new() };
    let (_, chunks) = convert_python_document(&file, &empty, Some(0));
    assert_eq!(chunks.len(), 1);
    assert_eq!((chunks[0].snippet.as_str(), chunks[0].paragraph, chunks[0].page), ("whole text", Some(1), None));
}
