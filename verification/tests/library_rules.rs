use seekmind::collections::{
    collection_item_target_signature, collection_row_to_view, normalize_collection_color,
    normalize_collection_description, normalize_collection_item_type, normalize_collection_name,
    normalize_recent_view_target_type, normalize_tag_color, normalize_tag_name,
    normalize_tag_target_type, tag_row_to_view, CollectionItemInput, CollectionRow, TagRow,
};
use seekmind::documents::ParserSource;
use seekmind::locale::{
    chinese_ocr_warning, detect_system_language, detect_system_locale,
    has_chinese_tesseract_language, normalize_locale_value, parser_runtime_active,
    tesseract_binary_candidates, tesseract_languages,
};
use seekmind::refresh::{
    busy_error, check_dir_path, check_refresh_document_request, chunk_progress_message,
    document_refresh_report, index_refresh_report, invalid_dir_error, invalid_file_error,
    parser_hint, parser_source_label, refresh_file_name, repair_progress_message, repair_report,
    semantic_failure_report,
};
use seekmind::semantic::{
    embedding_chunk_id, embedding_source_text, group_rows_by_document, no_model_error,
    unknown_model_error,
};

fn strings(v: &[&str]) -> Vec<String> {
    v.iter().map(|s| s.to_string()).collect()
}

#[test]
fn refresh_requests() {
    assert_eq!(busy_error(), "已有索引任务正在执行");
    assert_eq!(check_refresh_document_request(" ", "/d"), Err("文件路径不能为空".to_string()));
    assert_eq!(check_refresh_document_request("/d/a.md", " "), Err("目录路径不能为空".to_string()));
    assert_eq!(
        check_refresh_document_request(" /d/a.md ", " /d "),
        Ok(("/d/a.md".to_string(), "/d".to_string()))
    );
    assert_eq!(invalid_file_error("/x"), "不是有效的文件: /x");
    assert_eq!(check_dir_path("  "), Err("目录路径不能为空".to_string()));
    assert_eq!(check_dir_path(" /d "), Ok("/d".to_string()));
    assert_eq!(invalid_dir_error("/x"), "不是有效的目录: /x");
    assert_eq!(refresh_file_name("/d/a.md"), "a.md");
    assert_eq!(refresh_file_name("/d/.."), "/d/..");
}

#[test]
fn refresh_labels_and_messages() {
    assert_eq!(parser_hint(true, true), "python");
    assert_eq!(parser_hint(true, false), "rust");
    assert_eq!(parser_source_label(ParserSource::Python), "python");
    assert_eq!(parser_source_label(ParserSource::Rust), "rust");
    assert_eq!(chunk_progress_message("切片中", "chunk", "3/9"), "切片中 · 3/9");
    assert_eq!(chunk_progress_message("切片中", "chunk", ""), "切片中");
    assert_eq!(chunk_progress_message("解析中", "parse", "x"), "解析中");
    assert_eq!(repair_progress_message(3, 10), "正在修复全文索引：3/10");
    assert_eq!(repair_report(true), ("completed".to_string(), "全文索引修复完成".to_string()));
    assert_eq!(repair_report(false), ("failed".to_string(), "全文索引修复失败".to_string()));
    assert_eq!(index_refresh_report(&Ok(())), ("completed".to_string(), "目录索引完成".to_string()));
    assert_eq!(index_refresh_report(&Err("e".to_string())), ("failed".to_string(), "目录索引失败：e".to_string()));
}

#[test]
fn semantic_refresh_failures() {
    assert_eq!(
        semantic_failure_report("request timed out"),
        ("单文档语义向量更新已跳过".to_string(), "语义索引暂不可用：request timed out".to_string())
    );
    assert_eq!(semantic_failure_report("bad vector"), ("单文档语义向量更新失败".to_string(), "bad vector".to_string()));
}

#[test]
fn document_refresh_reports() {
    let r = document_refresh_report("python", Ok((ParserSource::Rust, Some("w".to_string()))), Ok(()), "/d/a.md");
    assert_eq!((r.state.as_str(), r.message.as_str(), r.parser_source.as_str()), ("completed", "文档切片完成，但已从 Python 回退到 Rust", "rust"));
    assert_eq!(r.warning, Some("w".to_string()));
    assert!(r.failure.is_none());
    let r = document_refresh_report("python", Ok((ParserSource::Python, None)), Ok(()), "/d/a.md");
    assert_eq!(r.message, "文档切片完成");
    let r = document_refresh_report("python", Err("Permission denied".to_string()), Ok(()), "/d/a.md");
    assert_eq!((r.state.as_str(), r.message.as_str(), r.parser_source.as_str()), ("failed", "文档切片失败：Permission denied", "python"));
    assert_eq!(r.failure, Some(("Permission denied".to_string(), "权限不足".to_string(), "permission_denied".to_string())));
    let r = document_refresh_report("rust", Ok((ParserSource::Python, None)), Err("sqlite locked".to_string()), "/d/a.md");
    assert_eq!(r.parser_source, "python");
    assert_eq!(r.failure.unwrap().2, "database_error");
}

#[test]
fn locales() {
    assert_eq!(normalize_locale_value("  \"en_US.UTF-8\"  "), "en_US.UTF-8");
    assert_eq!(normalize_locale_value("[\"en-GB\", \"fr-FR\"]"), "en-GB");
    assert_eq!(normalize_locale_value("(\n  \"zh-Hans-CN\",\n  \"en\"\n)"), "(\n  \"zh-Hans-CN\",\n  \"en\"\n)");
    assert_eq!(normalize_locale_value("   "), "");
    assert_eq!(detect_system_language("zh_CN.UTF-8"), "zh");
    assert_eq!(detect_system_language("Chinese (Simplified)"), "zh");
    assert_eq!(detect_system_language(""), "unknown");
    assert_eq!(detect_system_language("en_US"), "en_us");
    let settings = vec![None, Some("  ".to_string()), Some("de_DE".to_string())];
    assert_eq!(detect_system_locale(&settings, Some("fr".to_string())), "de_DE");
    assert_eq!(detect_system_locale(&vec![None, None, None], Some("\"fr-FR\"".to_string())), "fr-FR");
    assert_eq!(detect_system_locale(&Vec::new(), None), "");
}

#[test]
fn ocr_languages() {
    assert!(has_chinese_tesseract_language(&strings(&["eng", "CHI_SIM"])));
    assert!(has_chinese_tesseract_language(&strings(&["chi_tra_vert"])));
    assert!(!has_chinese_tesseract_language(&strings(&["eng", "jpn"])));
    assert_eq!(tesseract_binary_candidates().len(), 4);
    assert_eq!(tesseract_binary_candidates()[3], "tesseract");
    assert_eq!(
        tesseract_languages("List of available languages in \"/usr/share\" (3):\neng\n  chi_sim \n\nosd\n"),
        strings(&["eng", "chi_sim", "osd"])
    );
    assert_eq!(parser_runtime_active(true, true), "python");
    assert_eq!(parser_runtime_active(false, true), "rust");
    assert!(chinese_ocr_warning("zh", false).unwrap().contains("chi_sim / chi_tra"));
    assert_eq!(chinese_ocr_warning("zh", true), None);
    assert_eq!(chinese_ocr_warning("en", false), None);
}

#[test]
fn collection_fields() {
    assert_eq!(normalize_collection_name("  my   topic "), "my topic");
    assert_eq!(normalize_collection_name(" \t "), "新主题集合");
    assert_eq!(normalize_collection_name(&"n".repeat(45)).chars().count(), 40);
    assert_eq!(normalize_collection_description(&format!("  {}", "d".repeat(210))).chars().count(), 200);
    assert_eq!(normalize_collection_color(" #ff0000 "), "#ff0000");
    assert_eq!(normalize_tag_color(&"c".repeat(40)).len(), 32);
    assert_eq!(normalize_tag_name("  a  b "), "a b");
    assert_eq!(normalize_collection_item_type(" Document "), "document");
    assert_eq!(normalize_collection_item_type("weird"), "chunk");
    assert_eq!(normalize_recent_view_target_type("QA_SESSION"), "qa_session");
    assert_eq!(normalize_recent_view_target_type("search"), "");
    assert_eq!(normalize_tag_target_type("collection_item"), "collection_item");
    assert_eq!(normalize_tag_target_type("qa_session"), "");
}

#[test]
fn collection_signatures_and_rows() {
    let item = CollectionItemInput {
        item_type: "CHUNK".to_string(),
        document_id: Some("d1".to_string()),
        chunk_id: Some("c1".to_string()),
        qa_session_id: None,
        qa_message_id: None,
        path: Some("/d/a.md".to_string()),
        title_path: None,
    };
    assert_eq!(collection_item_target_signature(&item), "chunk|d1|c1|||/d/a.md|");
    let v = collection_row_to_view(CollectionRow {
        id: "c".to_string(), name: "n".to_string(), description: "d".to_string(), color: "#fff".to_string(),
        sort_order: -2, item_count: -1, created_at: 86_400, updated_at: 0,
    });
    assert_eq!((v.sort_order, v.item_count, v.created_at.as_str(), v.updated_at.as_str()), (-2, 0, "1970-01-02 00:00:00", "未知"));
    let t = tag_row_to_view(TagRow { id: "t".to_string(), name: "n".to_string(), color: "c".to_string(), target_count: 4, created_at: 0, updated_at: 0 });
    assert_eq!(t.target_count, 4);
}

#[test]
fn embedding_inputs() {
    assert_eq!(embedding_chunk_id("doc-1", 12), "doc-1:12");
    assert_eq!(embedding_source_text("a.md", "Intro", "text"), "a.md\nIntro\ntext");
    assert_eq!(no_model_error(), "没有可用的 embedding 模型");
    assert_eq!(unknown_model_error("m1"), "找不到 embedding 模型: m1");
}

fn row(doc: &str, chunk: &str) -> (String, String, String, String, String) {
    (doc.to_string(), chunk.to_string(), "f".to_string(), "h".to_string(), "s".to_string())
}

#[test]
fn grouping_rows_by_document() {
    let groups = group_rows_by_document(&vec![row("d1", "c1"), row("d1", "c2"), row("d2", "c3"), row("d1", "c4")]);
    let shape: Vec<(String, Vec<String>)> = groups
        .iter()
        .map(|g| (g.document_id.clone(), g.chunks.iter().map(|c| c.0.clone()).collect()))
        .collect();
    assert_eq!(
        shape,
        vec![
            ("d1".to_string(), strings(&["c1", "c2"])),
            ("d2".to_string(), strings(&["c3"])),
            ("d1".to_string(), strings(&["c4"])),
        ]
    );
    assert!(group_rows_by_document(&Vec::new()).is_empty());
}

#[test]
fn parser_runtime_views() {
    let v = seekmind::locale::parser_runtime_view(
        true,
        false,
        "zh_CN.UTF-8".to_string(),
        strings(&["eng"]),
        None,
        "parser/docmind_parser/__main__.py".to_string(),
        Some("1200".to_string()),
        (true, false, String::new(), "LibreOffice / soffice not found".to_string()),
        "linux".to_string(),
    );
    assert_eq!((v.active.as_str(), v.system_language.as_str(), v.chinese_ocr_available), ("rust", "zh", false));
    assert!(v.chinese_ocr_warning.is_some());
    assert_eq!((v.python_bin.as_str(), v.timeout_ms), ("python3", 1200));
    assert_eq!((v.office_message.as_str(), v.office_platform.as_str()), ("LibreOffice / soffice not found", "linux"));
    let v = seekmind::locale::parser_runtime_view(
        true, true, "en_US".to_string(), strings(&["chi_sim"]), Some("/p".to_string()), "s".to_string(), Some("x".to_string()),
        (true, true, "soffice".to_string(), "ready".to_string()), "macos".to_string(),
    );
    assert_eq!((v.active.as_str(), v.python_bin.as_str(), v.timeout_ms), ("python", "/p", 30_000));
    assert!(v.chinese_ocr_warning.is_none());
}
