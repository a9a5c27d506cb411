use seekmind::highlight::{highlight_spans, HighlightSpan};
use seekmind::ranking::{
    assign_ranks, build_search_snippet, contains_all_terms, contains_any_term,
    dedupe_reason_parts, favorite_result_target, matched_field_and_origin,
    merge_candidate_chunk_ids, rank_reason_labels, search_mode, semantic_fallback_reason,
    slice_chars, term_match_tier, truncate_by_chars,
};
use seekmind::search::{is_han_character, normalize_query, normalize_search_text};

fn strings(v: &[&str]) -> Vec<String> {
    v.iter().map(|s| s.to_string()).collect()
}

#[test]
fn single_han_character_is_its_own_token() {
    assert_eq!(normalize_query("中"), strings(&["中"]));
    assert_eq!(normalize_query("ab中cd"), strings(&["ab", "中", "cd"]));
}

#[test]
fn punctuation_only_query_has_no_terms() {
    assert!(normalize_query("  ,.!  ").is_empty());
    assert_eq!(normalize_search_text(""), "");
}

#[test]
fn han_ranges() {
    assert!(is_han_character('中'));
    assert!(is_han_character('\u{3400}'));
    assert!(!is_han_character('a'));
    assert!(!is_han_character('。'));
}

#[test]
fn highlight_spans_are_case_insensitive_and_merged() {
    let spans = highlight_spans("Rust rust RUST", &strings(&["rust"]));
    assert_eq!(
        spans,
        vec![
            HighlightSpan { start: 0, end: 4 },
            HighlightSpan { start: 5, end: 9 },
            HighlightSpan { start: 10, end: 14 },
        ]
    );
    let merged = highlight_spans("abcdef", &strings(&["abc", "cde"]));
    assert_eq!(merged, vec![HighlightSpan { start: 0, end: 5 }]);
}

#[test]
fn highlight_spans_count_characters_not_bytes() {
    let spans = highlight_spans("搜索引擎 rust", &strings(&["rust", "  "]));
    assert_eq!(spans, vec![HighlightSpan { start: 5, end: 9 }]);
    assert!(highlight_spans("text", &strings(&["   "])).is_empty());
}

#[test]
fn term_containment() {
    let terms = strings(&[" Foo ", "bar", ""]);
    assert!(contains_all_terms("FOO and BAR", &terms));
    assert!(!contains_all_terms("foo only", &terms));
    assert!(contains_any_term("foo only", &terms));
    assert!(!contains_any_term("nothing", &terms));
    let blank = strings(&["  "]);
    assert!(!contains_all_terms("anything", &blank));
    assert!(!contains_any_term("anything", &blank));
}

#[test]
fn match_tiers() {
    let terms = strings(&["foo", "bar"]);
    assert_eq!(term_match_tier("foo bar", &terms), 2);
    assert_eq!(term_match_tier("foo", &terms), 1);
    assert_eq!(term_match_tier("baz", &terms), 0);
    assert_eq!(term_match_tier("   ", &terms), 0);
}

#[test]
fn matched_field_prefers_snippet_then_heading_then_name_then_path() {
    let terms = strings(&["rust"]);
    assert_eq!(
        matched_field_and_origin("learn rust", "x", "y", "z", &terms),
        ("snippet".to_string(), "正文摘要命中".to_string())
    );
    assert_eq!(
        matched_field_and_origin("a", "Rust Guide", "y", "z", &terms),
        ("heading".to_string(), "标题命中".to_string())
    );
    assert_eq!(
        matched_field_and_origin("a", "b", "rust.md", "z", &terms),
        ("filename".to_string(), "文件名命中".to_string())
    );
    assert_eq!(
        matched_field_and_origin("a", "b", "c", "/rust/d", &terms),
        ("path".to_string(), "路径命中".to_string())
    );
    assert_eq!(
        matched_field_and_origin("a", "b", "c", "d", &terms),
        ("snippet".to_string(), "正文摘要命中".to_string())
    );
}

#[test]
fn truncation_and_slicing_by_characters() {
    assert_eq!(truncate_by_chars("abcdef", 4), "abcd…");
    assert_eq!(truncate_by_chars("abc", 4), "abc");
    assert_eq!(slice_chars("搜索引擎", 1, 3), "索引");
    assert_eq!(slice_chars("abc", 2, 1), "");
    assert_eq!(slice_chars("abc", 1, 10), "bc");
}

#[test]
fn snippet_of_blank_text() {
    let (s, spans, a, b, n) = build_search_snippet("   ", &strings(&["x"]), 10);
    assert_eq!((s.as_str(), spans.len(), a, b, n), ("", 0, 0, 0, 0));
}

#[test]
fn snippet_without_hits_is_truncated_prefix() {
    let (s, spans, a, b, n) = build_search_snippet("  abcdefghij  ", &strings(&["zz"]), 4);
    assert_eq!(s, "abcd…");
    assert!(spans.is_empty());
    assert_eq!((a, b, n), (0, 4, 10));
}

#[test]
fn short_text_with_hits_is_kept_whole() {
    let (s, spans, a, b, n) = build_search_snippet("hello world", &strings(&["world"]), 20);
    assert_eq!(s, "hello world");
    assert_eq!(spans, vec![HighlightSpan { start: 6, end: 11 }]);
    assert_eq!((a, b, n), (0, 11, 11));
}

#[test]
fn long_text_window_centres_on_hits() {
    // 20 characters, hit at 10..12, window of 5: before = 2, after = 3.
    let text = "aaaaaaaaaaXYbbbbbbbb";
    let (s, spans, a, b, n) = build_search_snippet(text, &strings(&["xy"]), 5);
    assert_eq!((a, b, n), (8, 13, 20));
    assert_eq!(s, "…aaXYb…");
    assert_eq!(spans, vec![HighlightSpan { start: 3, end: 5 }]);
}

#[test]
fn reason_parts_are_deduplicated_and_blank_dropped() {
    let parts = strings(&["a", " ", "b", "a", "", "c", "b"]);
    assert_eq!(dedupe_reason_parts(parts), strings(&["a", "b", "c"]));
}

#[test]
fn rank_reason_labels_in_order() {
    let terms = strings(&["rust"]);
    let (boosts, summary) = rank_reason_labels(
        "文件名命中", "rust.md", "Rust", "/x/rust.md", &terms, true, true, true, true, 3, true, true,
    );
    assert_eq!(
        boosts,
        strings(&[
            "文件名命中",
            "文件名完整命中",
            "全文+语义共同命中",
            "已收藏优先",
            "最近打开 3 次",
            "历史扩展",
            "最近更新",
        ])
    );
    assert_eq!(
        summary,
        "文件名命中 · 文件名完整命中 · 全文+语义共同命中 · 已收藏优先 · 最近打开 3 次 · 历史扩展 · 最近更新"
    );
}

#[test]
fn rank_reason_labels_minimal() {
    let terms = strings(&["zzz"]);
    let (boosts, summary) = rank_reason_labels(
        "路径命中", "a.md", "A", "/p/a.md", &terms, true, false, true, false, 1, false, false,
    );
    assert_eq!(boosts, strings(&["路径命中", "语义召回", "最近打开"]));
    assert_eq!(summary, "路径命中 · 语义召回 · 最近打开");
    let (boosts, _) = rank_reason_labels(
        "标题命中", "a.md", "A", "/p/a.md", &terms, false, true, true, false, 0, false, false,
    );
    assert_eq!(boosts, strings(&["标题命中"]));
}

#[test]
fn favorite_target_key() {
    assert_eq!(
        favorite_result_target("/a/b.md", "  Head  ", Some(3), None),
        "result|/a/b.md|Head|3|"
    );
    assert_eq!(favorite_result_target("p", "", None, Some(12)), "result|p|||12");
}

#[test]
fn candidate_ids_keyword_first_then_new_semantic() {
    let merged = merge_candidate_chunk_ids(&strings(&["a", "b"]), &strings(&["b", "c", "a", "d"]));
    assert_eq!(merged, strings(&["a", "b", "c", "d"]));
}

#[test]
fn ranks_by_raw_order() {
    let ranks = assign_ranks(&strings(&["b", "a", "z"]), &strings(&["a", "b"]));
    assert_eq!(ranks, vec![(2, 1, 1), (1, 2, -1), (3, 3, 0)]);
}

#[test]
fn fallback_reason_and_mode() {
    assert_eq!(semantic_fallback_reason("boom", true, true), "boom");
    assert_eq!(semantic_fallback_reason("", false, true), "语义检索已关闭");
    assert_eq!(semantic_fallback_reason("", true, false), "语义模型不可用");
    assert_eq!(semantic_fallback_reason("", true, true), "");
    assert_eq!(search_mode(true), "hybrid");
    assert_eq!(search_mode(false), "fulltext");
}

#[test]
fn snippet_highlights_stay_inside_the_snippet() {
    let text = "the quick brown fox jumps over the lazy dog and keeps running far away";
    let terms = strings(&["fox", "dog"]);
    for max in [5usize, 12, 20, 40, 200] {
        let (snippet, spans, start, end, total) = build_search_snippet(text, &terms, max);
        let len = snippet.chars().count();
        assert!(start <= end && end <= total);
        for span in spans {
            assert!(span.start < span.end && span.end <= len, "{max}: {span:?} in {snippet}");
        }
    }
}
