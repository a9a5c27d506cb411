use seekmind::qa_context::{
    augmented_query, build_location_label, build_prompt_block, build_qa_context,
    build_source_block, context_window, matches_scope, rank_order, recall_limit, select_hits,
    source_term_overlap, QaHit,
};

fn strings(v: &[&str]) -> Vec<String> {
    v.iter().map(|s| s.to_string()).collect()
}

fn hit(id: &str, path: &str, snippet: &str, key: u64, meets: bool) -> QaHit {
    QaHit {
        id: id.to_string(),
        file_name: "doc.md".to_string(),
        path: path.to_string(),
        title_path: String::new(),
        heading: String::new(),
        snippet: snippet.to_string(),
        score_key: key,
        meets_min_score: meets,
    }
}

#[test]
fn recall_limits() {
    assert_eq!(recall_limit(0), 20);
    assert_eq!(recall_limit(6), 20);
    assert_eq!(recall_limit(7), 21);
    assert_eq!(recall_limit(usize::MAX), usize::MAX);
}

#[test]
fn augmented_queries() {
    assert_eq!(augmented_query("  what is rust ", &Vec::new()), "what is rust");
    assert_eq!(augmented_query(" q ", &strings(&["tauri", "sqlite"])), "q tauri sqlite");
}

#[test]
fn scopes() {
    assert!(matches_scope("/a/b.md", &Vec::new()));
    assert!(matches_scope("/a/b.md", &strings(&["/x", "/a"])));
    assert!(!matches_scope("/a/b.md", &strings(&["/x"])));
}

#[test]
fn location_labels() {
    assert_eq!(build_location_label("Guide > Intro", "Intro", "g.md"), "Guide > Intro");
    assert_eq!(build_location_label("  ", "Intro", "g.md"), "Intro");
    assert_eq!(build_location_label("", " ", "g.md"), "g.md");
}

#[test]
fn prompt_blocks() {
    let block = build_prompt_block("S1", "g.md", "/d/g.md", "Intro", Some(" before "), " now ", Some("  "));
    assert_eq!(
        block,
        "[S1]\n文件: g.md\n路径: /d/g.md\n位置: Intro\n上下文:\n- 上一段: before\n- 当前段: now"
    );
    let block = build_prompt_block("S2", "f", "p", "l", None, "c", Some("after"));
    assert_eq!(block, "[S2]\n文件: f\n路径: p\n位置: l\n上下文:\n- 当前段: c\n- 下一段: after");
}

#[test]
fn term_overlap_weights() {
    let mut h = hit("1", "/d/rust-notes.md", "learn tauri here", 0, true);
    h.heading = "Rust".to_string();
    // "rust" is in the title text (3), "tauri" only in the body (1), "x" is too short (0).
    assert_eq!(source_term_overlap(&h, &strings(&["Rust", "tauri", "x", "none"])), 4);
    assert_eq!(source_term_overlap(&h, &Vec::new()), 0);
}

#[test]
fn ranking_is_stable_by_overlap_then_score() {
    let order = rank_order(&vec![1, 3, 1, 3], &vec![5, 1, 9, 1]);
    assert_eq!(order, vec![1, 3, 2, 0]);
}

#[test]
fn selection_skips_ineligible_and_repeated_chunks() {
    let hits = vec![
        hit("a", "/in/1.md", "", 9, true),
        hit("b", "/out/2.md", "", 8, true),
        hit("a", "/in/1.md", "", 7, true),
        hit("c", "/in/3.md", "", 6, false),
        hit("d", "/in/4.md", "", 5, true),
        hit("e", "/in/5.md", "", 4, true),
    ];
    let order = vec![0, 1, 2, 3, 4, 5];
    assert_eq!(select_hits(&hits, &order, &strings(&["/in"]), 2), vec![0, 4]);
    assert_eq!(select_hits(&hits, &order, &Vec::new(), 10), vec![0, 1, 4, 5]);
    let plan = build_qa_context(&hits, &Vec::new(), &strings(&["/in"]), 2);
    assert_eq!(plan.order, order);
    assert_eq!(plan.selected, vec![0, 4]);
    assert_eq!(plan.candidate_count, 6);
}

#[test]
fn session_terms_reorder_candidates() {
    let hits = vec![hit("a", "/p/a.md", "nothing", 9, true), hit("b", "/p/b.md", "about tauri", 1, true)];
    let plan = build_qa_context(&hits, &strings(&["tauri"]), &Vec::new(), 1);
    assert_eq!(plan.order, vec![1, 0]);
    assert_eq!(plan.selected, vec![1]);
}

#[test]
fn context_windows() {
    let ids = strings(&["c1", "c2", "c3"]);
    let snippets = strings(&["one", "two", "three"]);
    assert_eq!(
        context_window(&ids, &snippets, "c2", "x"),
        (Some("one".to_string()), "two".to_string(), Some("three".to_string()))
    );
    // The first chunk is its own previous paragraph.
    assert_eq!(
        context_window(&ids, &snippets, "c1", "x"),
        (Some("one".to_string()), "one".to_string(), Some("two".to_string()))
    );
    assert_eq!(context_window(&ids, &snippets, "c3", "x"), (Some("two".to_string()), "three".to_string(), None));
    assert_eq!(context_window(&ids, &snippets, "zz", "own"), (None, "own".to_string(), None));
}

#[test]
fn source_blocks() {
    let mut h = hit("c2", "/d/g.md", "two", 0, true);
    h.file_name = "g.md".to_string();
    h.heading = "Intro".to_string();
    let block = build_source_block(0, &h, &strings(&["c1", "c2"]), &strings(&["one", "two"]));
    assert_eq!(block.source_id, "S1");
    assert_eq!(
        block.block,
        "[S1]\n文件: g.md\n路径: /d/g.md\n位置: Intro\n上下文:\n- 上一段: one\n- 当前段: two"
    );
    assert_eq!(build_source_block(11, &h, &Vec::new(), &Vec::new()).source_id, "S12");
}

#[test]
fn evidence_respects_scope_score_and_limit() {
    let hits = vec![
        hit("c1", "/in/a.md", "x", 5, true),
        hit("c1", "/in/a.md", "x", 5, true),
        hit("c2", "/out/b.md", "y", 4, true),
        hit("c3", "/in/c.md", "z", 3, false),
        hit("c4", "/in/d.md", "w", 2, true),
        hit("c5", "/in/e.md", "v", 1, true),
    ];
    let order: Vec<usize> = (0..hits.len()).collect();
    let scopes = strings(&["/in"]);
    let kept = select_hits(&hits, &order, &scopes, 2);
    assert_eq!(kept, vec![0, 4]);
    let kept_zero = select_hits(&hits, &order, &scopes, 0);
    assert_eq!(kept_zero, vec![0]);
    let all = select_hits(&hits, &order, &scopes, 10);
    assert_eq!(all, vec![0, 4, 5]);
    for k in &all {
        assert!(hits[*k].meets_min_score && hits[*k].path.starts_with("/in"));
    }
}
