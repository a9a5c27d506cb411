use seekmind::scanner::{
    chunk_text, clean_docx_text, decode_entities, default_exclude_dirs, derive_heading,
    eq_ignore_ascii_case, extract_xml_text_nodes, file_too_large, is_supported_extension,
    is_supported_file, looks_like_docx_xml_noise, looks_like_textutil_error_output,
    normalize_whitespace, should_skip_directory, split_paragraphs, strip_html_tags,
    truncate_snippet,
};

#[test]
fn decode_entities_replaces_the_five_named_entities() {
    assert_eq!(
        decode_entities("a &amp; b &lt;c&gt; &quot;q&quot; &apos;s&apos;"),
        "a & b <c> \"q\" 's'"
    );
}

#[test]
fn decode_entities_decodes_ampersand_first() {
    // "&amp;lt;" becomes "&lt;" and then "<".
    assert_eq!(decode_entities("&amp;lt;"), "<");
}

#[test]
fn strip_html_tags_drops_markup_and_decodes() {
    assert_eq!(strip_html_tags("<p>Hello &amp; <b>World</b></p>"), "Hello & World");
    assert_eq!(strip_html_tags("no tags"), "no tags");
}

#[test]
fn normalize_whitespace_collapses_and_trims() {
    assert_eq!(normalize_whitespace("  a \t\n b  "), "a b");
    assert_eq!(normalize_whitespace("   "), "");
    assert_eq!(normalize_whitespace("x"), "x");
}

#[test]
fn split_paragraphs_on_blank_lines() {
    let ps = split_paragraphs("line1\nline2\n\n\npara2\r\n");
    assert_eq!(ps, vec!["line1\nline2".to_string(), "para2".to_string()]);
}

#[test]
fn split_paragraphs_of_blank_text_is_empty() {
    assert!(split_paragraphs("   \n  \n").is_empty());
    assert!(split_paragraphs("").is_empty());
}

#[test]
fn derive_heading_uses_markdown_heading_or_file_name() {
    assert_eq!(derive_heading("## Title\nbody", "f.md", true), "Title");
    assert_eq!(derive_heading("#  ", "f.md", false), "f.md");
    assert_eq!(derive_heading("plain text", "f.md", false), "f.md");
    assert_eq!(derive_heading("plain text", "f.md", true), "f.md");
}

#[test]
fn truncate_snippet_appends_ellipsis_only_when_cut() {
    assert_eq!(truncate_snippet("abcdef", 3), "abc…");
    assert_eq!(truncate_snippet("abc", 3), "abc");
    assert_eq!(truncate_snippet("搜索引擎", 2), "搜索…");
}

#[test]
fn chunk_text_makes_one_chunk_per_paragraph() {
    let chunks = chunk_text("# Intro\nfirst  part\n\nsecond part", "notes.md");
    assert_eq!(chunks.len(), 2);
    assert_eq!(chunks[0].heading, "Intro");
    assert_eq!(chunks[0].snippet, "# Intro first part");
    assert_eq!(chunks[0].paragraph, Some(1));
    assert_eq!(chunks[0].page, None);
    assert_eq!(chunks[1].heading, "notes.md");
    assert_eq!(chunks[1].snippet, "second part");
    assert_eq!(chunks[1].paragraph, Some(2));
    assert!(chunks[1].block_indexes.is_empty());
}

#[test]
fn chunk_text_of_blank_content_is_empty() {
    assert!(chunk_text("  \n ", "a.txt").is_empty());
}

#[test]
fn docx_noise_is_recognised() {
    assert!(looks_like_docx_xml_noise("<w:t>"));
    assert!(looks_like_docx_xml_noise("xmlns:w=\"x\""));
    assert!(looks_like_docx_xml_noise("<?xml version>"));
    assert!(!looks_like_docx_xml_noise("hello <world>"));
    assert!(!looks_like_docx_xml_noise("plain"));
}

#[test]
fn clean_docx_text_normalises_or_drops() {
    assert_eq!(clean_docx_text("  a  &amp; b "), "a & b");
    assert_eq!(clean_docx_text("xmlns:w"), "");
    assert_eq!(clean_docx_text("   "), "");
}

#[test]
fn extract_xml_text_nodes_reads_w_t_runs() {
    let xml = "<w:p><w:t>Hello</w:t><w:t xml:space=\"preserve\"> World </w:t></w:p>";
    assert_eq!(extract_xml_text_nodes(xml), "Hello\nWorld\n");
    assert_eq!(extract_xml_text_nodes("<w:t>unterminated"), "");
    assert_eq!(extract_xml_text_nodes("no runs"), "");
}

#[test]
fn textutil_error_output_is_recognised() {
    assert!(looks_like_textutil_error_output("Error reading file x"));
    assert!(looks_like_textutil_error_output("oops: The file isn't in the correct format"));
    assert!(!looks_like_textutil_error_output("all fine"));
}

#[test]
fn ascii_case_insensitive_equality() {
    assert!(eq_ignore_ascii_case("ABC", "abc"));
    assert!(!eq_ignore_ascii_case("abc", "abd"));
    assert!(!eq_ignore_ascii_case("abc", "ab"));
}

#[test]
fn skipped_directories() {
    let none: Vec<String> = Vec::new();
    assert!(should_skip_directory(".hidden", &none));
    assert!(should_skip_directory("node_modules", &none));
    assert!(should_skip_directory("NODE_MODULES", &none));
    assert!(should_skip_directory("src", &vec!["SRC".to_string()]));
    assert!(!should_skip_directory("src", &none));
}

#[test]
fn supported_extensions_and_files() {
    let none: Vec<String> = Vec::new();
    assert!(is_supported_extension("md", &none));
    assert!(!is_supported_extension("exe", &none));
    assert!(!is_supported_extension("md", &vec!["MD".to_string()]));
    assert!(is_supported_file("/a/b/Note.MD", &none));
    assert!(!is_supported_file("/a/b/Note.md", &vec!["md".to_string()]));
    assert!(!is_supported_file("/a/b/Makefile", &none));
}

#[test]
fn default_excluded_directories() {
    assert_eq!(
        default_exclude_dirs(),
        vec![
            "node_modules".to_string(),
            ".git".to_string(),
            "target".to_string(),
            "Library".to_string(),
            "Caches".to_string(),
            "Application Support".to_string(),
        ]
    );
}

#[test]
fn file_size_limit() {
    assert!(file_too_large(1_048_577, 1));
    assert!(!file_too_large(1_048_576, 1));
    assert!(!file_too_large(10, 0));
    assert!(!file_too_large(i64::MAX, u64::MAX));
}

#[test]
fn documented_formats_are_indexed() {
    let none: Vec<String> = Vec::new();
    for ext in [
        "txt", "md", "markdown", "html", "htm", "docx", "log", "toml", "json", "yaml", "yml", "xml", "csv", "rs",
        "js", "ts", "tsx", "jsx", "py",
    ] {
        assert!(is_supported_extension(ext, &none), "{ext}");
        assert!(is_supported_file(&format!("/notes/file.{ext}"), &none), "{ext}");
    }
    for ext in ["pdf", "doc", "ppt", "pptx"] {
        assert!(!is_supported_extension(ext, &none), "{ext}");
    }
}

#[test]
fn chunks_are_short_and_in_paragraph_order() {
    let long = "词".repeat(300);
    let text = format!("one\n\n\n{long}\n\nthree\n \nfour");
    let chunks = chunk_text(&text, "doc.txt");
    assert!(!chunks.is_empty());
    assert!(chunks.iter().all(|c| c.snippet.chars().count() <= 241 && c.paragraph.unwrap() >= 1));
    let numbers: Vec<i64> = chunks.iter().map(|c| c.paragraph.unwrap()).collect();
    assert!(numbers.windows(2).all(|w| w[0] < w[1]));
    assert_eq!(chunks[1].snippet.chars().count(), 241);
}
