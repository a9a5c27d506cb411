use seekmind::search::{normalize_query, normalize_search_text};

#[test]
fn normalize_query_splits_ascii_words_and_han_bigrams() {
    let terms = normalize_query("Rust 搜索引擎");
    assert_eq!(terms, vec!["rust".to_string(), "搜索".to_string(), "索引".to_string(), "引擎".to_string()]);
}

#[test]
fn normalize_search_text_joins_terms_with_spaces() {
    assert_eq!(normalize_search_text("Hello, World!"), "hello world");
}

#[test]
fn normalizing_twice_is_normalizing_once() {
    for text in ["Rust 检索引擎 v2, 中 and DOCX!", "全文检索", "a-b_c", "", "  中文 ABC123 文 "] {
        let once = normalize_search_text(text);
        assert_eq!(normalize_search_text(&once), once);
        assert_eq!(normalize_query(&once), normalize_query(text));
    }
}
