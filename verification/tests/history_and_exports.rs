use seekmind::collections::{check_export_path, collection_markdown, CollectionItemView};
use seekmind::history::{derive_history_terms, split_words};
use seekmind::indexing::{begin_index_job, fulltext_repair_needed, IndexJobGate};
use seekmind::ranking::{recently_updated, result_field_and_origin, semantic_recall_limit};
use seekmind::sidecar::{fulltext_index_dir, legacy_fulltext_index_dir};

fn strings(v: &[&str]) -> Vec<String> {
    v.iter().map(|s| s.to_string()).collect()
}

fn searches(v: &[(&str, usize)]) -> Vec<(String, usize)> {
    v.iter().map(|(q, n)| (q.to_string(), *n)).collect()
}

#[test]
fn words_split_on_whitespace() {
    let words: Vec<String> = split_words("  rust\t tauri\nsqlite ").iter().map(|w| w.iter().collect()).collect();
    assert_eq!(words, strings(&["rust", "tauri", "sqlite"]));
    assert!(split_words(" \n ").is_empty());
}

#[test]
fn history_terms_by_weighted_count() {
    let history = searches(&[("rust tauri", 3), ("Rust sqlite", 0), ("a tauri", 1), ("中", 5)]);
    assert_eq!(derive_history_terms(&history, &strings(&["Tauri "])), strings(&["中", "rust"]));
}

#[test]
fn history_terms_ties_and_limit() {
    assert_eq!(derive_history_terms(&searches(&[("beta alpha", 2)]), &Vec::new()), strings(&["alpha", "beta"]));
    assert_eq!(
        derive_history_terms(&searches(&[("e1 d1 c1 b1 a1", 2)]), &Vec::new()),
        strings(&["a1", "b1", "c1", "d1"])
    );
    assert!(derive_history_terms(&searches(&[("once", 1)]), &Vec::new()).is_empty());
    assert!(derive_history_terms(&Vec::new(), &Vec::new()).is_empty());
}

#[test]
fn suggested_terms_are_never_query_terms() {
    let history = searches(&[("foo bar", 4), ("foo baz", 4)]);
    let terms = derive_history_terms(&history, &strings(&["FOO"]));
    assert_eq!(terms, strings(&["bar", "baz"]));
    assert!(!terms.contains(&"foo".to_string()));
}

#[test]
fn one_index_job_at_a_time() {
    let mut gate = IndexJobGate::new();
    assert!(!gate.is_running());
    assert_eq!(begin_index_job(&mut gate), Ok(()));
    assert_eq!(begin_index_job(&mut gate), Err("已有索引任务正在执行".to_string()));
    assert!(!gate.try_begin());
    gate.end();
    assert!(gate.try_begin());
    assert!(gate.is_running());
}

#[test]
fn fulltext_repair_decision() {
    assert!(fulltext_repair_needed(3, 0));
    assert!(!fulltext_repair_needed(0, 0));
    assert!(!fulltext_repair_needed(3, 3));
}

#[test]
fn fulltext_directories() {
    assert_eq!(fulltext_index_dir(Some("  /idx  ".to_string()), None), "/idx");
    assert_eq!(fulltext_index_dir(Some(" ".to_string()), Some("/d".to_string())), "/d/SeekMind/tantivy");
    assert_eq!(fulltext_index_dir(None, Some("/d".to_string())), "/d/SeekMind/tantivy");
    assert_eq!(fulltext_index_dir(None, None), "./SeekMind/tantivy");
    assert_eq!(legacy_fulltext_index_dir(Some("/d".to_string())), "/d/DocMind/tantivy");
    assert_eq!(legacy_fulltext_index_dir(None), "./DocMind/tantivy");
}

#[test]
fn search_result_helpers() {
    assert_eq!(semantic_recall_limit(0), 3);
    assert_eq!(semantic_recall_limit(10), 30);
    assert_eq!(semantic_recall_limit(usize::MAX), usize::MAX);
    let terms = strings(&["rust"]);
    assert_eq!(
        result_field_and_origin(false, true, "rust", "", "", "", &terms),
        ("semantic".to_string(), "语义命中".to_string())
    );
    assert_eq!(
        result_field_and_origin(true, true, "x", "Rust", "", "", &terms),
        ("heading".to_string(), "标题命中".to_string())
    );
    assert_eq!(
        result_field_and_origin(false, false, "x", "y", "z", "w", &terms),
        ("snippet".to_string(), "正文摘要命中".to_string())
    );
    assert!(recently_updated(1_000, 1_000 + 86_400));
    assert!(!recently_updated(1_000, 1_000 + 2_592_000));
    assert!(!recently_updated(0, 10));
    assert!(!recently_updated(50, 40));
}

fn item(title: &str, kind: &str, path: &str, title_path: &str, snippet: &str, note: &str) -> CollectionItemView {
    CollectionItemView {
        id: "i".to_string(),
        collection_id: "c".to_string(),
        item_type: kind.to_string(),
        document_id: String::new(),
        chunk_id: String::new(),
        qa_session_id: String::new(),
        qa_message_id: String::new(),
        title: title.to_string(),
        path: path.to_string(),
        title_path: title_path.to_string(),
        snippet: snippet.to_string(),
        note: note.to_string(),
        source_meta_json: String::new(),
        sort_order: 0,
        created_at: String::new(),
        updated_at: String::new(),
    }
}

#[test]
fn collection_markdown_export() {
    let items = vec![
        item(" Intro ", "chunk", "/d/a.md", "A > Intro", " first words ", " remember "),
        item("Second", "document", " ", "", "", ""),
    ];
    assert_eq!(
        collection_markdown("Topic", "  about it ", &items),
        "# Topic\n\n> about it\n\n\
         ## 1. Intro\n\n- 类型：chunk\n- 路径：/d/a.md\n- 定位：A > Intro\n\n摘录：\n\n> first words\n\n备注：\n\nremember\n\n\
         ## 2. Second\n\n- 类型：document\n\n"
    );
    assert_eq!(collection_markdown("Empty", " ", &Vec::new()), "# Empty\n\n");
}

#[test]
fn export_paths() {
    assert_eq!(check_export_path("  "), Err("导出路径不能为空".to_string()));
    assert_eq!(check_export_path(" /tmp/s.md "), Ok("/tmp/s.md".to_string()));
}

#[test]
fn reset_targets_in_order() {
    let targets = seekmind::reset::reset_target_dirs(
        Some("/data".to_string()),
        Some("/cache".to_string()),
        None,
        Some(" /emb/models ".to_string()),
    );
    let dirs: Vec<String> = targets.iter().map(|t| t.0.clone()).collect();
    assert_eq!(
        dirs,
        strings(&[
            "/data/SeekMind",
            "/data/SeekMindDev",
            "/data/SeekMind",
            "/cache/com.zhaoyang.SeekMind.dev",
            "/cache/com.zhaoyang.seekmind",
            "/data/SeekMind",
            "/emb",
        ])
    );
    assert_eq!(targets[0].1, "sqlite data root");
    assert_eq!(targets[6].1, "fastembed cache root");
}

#[test]
fn reset_removes_each_directory_once() {
    let targets = vec![
        ("/a".to_string(), "first".to_string()),
        ("/b".to_string(), "second".to_string()),
        ("/a".to_string(), "again".to_string()),
    ];
    let order = seekmind::reset::reset_removal_order(&targets);
    assert_eq!(order, vec![("/a".to_string(), "first".to_string()), ("/b".to_string(), "second".to_string())]);
    let none = seekmind::reset::reset_target_dirs(None, None, Some("/idx/t".to_string()), Some("  ".to_string()));
    let dirs: Vec<String> = none.iter().map(|t| t.0.clone()).collect();
    assert_eq!(dirs, strings(&["./SeekMind", "/idx"]));
}
