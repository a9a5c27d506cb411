use seekmind::cli::{
    build_document_content, default_queries, next_arg, normalize_queries, parse_benchmark_args,
    parse_sizes, parse_stress_args, parse_usize, resolve_queries, Command,
};
use seekmind::dirs::{list_index_dirs, sorted_paths, DocumentPathRow, IndexDirRow};

fn strings(v: &[&str]) -> Vec<String> {
    v.iter().map(|s| s.to_string()).collect()
}

#[test]
fn argument_values() {
    let args = strings(&["--limit", "5"]);
    assert_eq!(next_arg(&args, 1, "--limit"), Ok("5".to_string()));
    assert_eq!(next_arg(&args, 2, "--limit"), Err("missing value for --limit".to_string()));
    assert_eq!(parse_usize("42", "--limit"), Ok(42));
    assert_eq!(parse_usize("x", "--limit"), Err("invalid --limit: invalid digit found in string".to_string()));
    assert_eq!(parse_usize("", "--limit"), Err("invalid --limit: cannot parse integer from empty string".to_string()));
}

#[test]
fn benchmark_defaults_and_options() {
    match parse_benchmark_args(&Vec::new()).unwrap() {
        Command::Run(o) => {
            assert_eq!((o.output_path, o.limit, o.repeat, o.history_limit, o.queries_file), (None, 20, 3, 8, None));
            assert!(o.queries.is_empty());
        }
        Command::Help => panic!("expected a run"),
    }
    let args = strings(&["--output", "r.json", "--limit", "7", "--repeat", "0", "--history-limit", "-4", "--query", "a", "--query", "b", "--queries-file", "q.txt"]);
    match parse_benchmark_args(&args).unwrap() {
        Command::Run(o) => {
            assert_eq!(o.output_path, Some("r.json".to_string()));
            assert_eq!((o.limit, o.repeat, o.history_limit), (7, 1, 1));
            assert_eq!(o.queries, strings(&["a", "b"]));
            assert_eq!(o.queries_file, Some("q.txt".to_string()));
        }
        Command::Help => panic!("expected a run"),
    }
}

#[test]
fn benchmark_refusals() {
    assert!(matches!(parse_benchmark_args(&strings(&["--limit", "1", "-h"])), Ok(Command::Help)));
    assert_eq!(parse_benchmark_args(&strings(&["--bogus"])).unwrap_err(), "unknown arg: --bogus. use --help for usage");
    assert_eq!(parse_benchmark_args(&strings(&["--output"])).unwrap_err(), "missing value for --output");
    assert_eq!(
        parse_benchmark_args(&strings(&["--history-limit", "ten"])).unwrap_err(),
        "invalid --history-limit: invalid digit found in string"
    );
    assert_eq!(
        parse_benchmark_args(&strings(&["--repeat", "-1"])).unwrap_err(),
        "invalid --repeat: invalid digit found in string"
    );
}

#[test]
fn stress_defaults_and_options() {
    match parse_stress_args(&Vec::new(), "/tmp/ws".to_string()).unwrap() {
        Command::Run(o) => {
            assert_eq!(o.workspace, "/tmp/ws");
            assert_eq!(o.sizes, vec![1000, 5000, 10000]);
            assert_eq!((o.files_per_dir, o.file_words, o.query_limit, o.cleanup), (200, 260, 20, false));
            assert_eq!(o.output_path, None);
        }
        Command::Help => panic!("expected a run"),
    }
    let args = strings(&["--sizes", " 10, ,20 ", "--cleanup", "--workspace", "/w", "--file-words", "9", "--files-per-dir", "3", "--query-limit", "4", "--output", "o.md"]);
    match parse_stress_args(&args, "/tmp/ws".to_string()).unwrap() {
        Command::Run(o) => {
            assert_eq!(o.sizes, vec![10, 20]);
            assert!(o.cleanup);
            assert_eq!(o.workspace, "/w");
            assert_eq!((o.files_per_dir, o.file_words, o.query_limit), (3, 9, 4));
            assert_eq!(o.output_path, Some("o.md".to_string()));
        }
        Command::Help => panic!("expected a run"),
    }
}

#[test]
fn stress_refusals() {
    assert!(matches!(parse_stress_args(&strings(&["--help"]), String::new()), Ok(Command::Help)));
    assert_eq!(parse_stress_args(&strings(&["--x"]), String::new()).unwrap_err(), "unknown arg: --x");
    assert_eq!(
        parse_stress_args(&strings(&["--sizes", "1,two"]), String::new()).unwrap_err(),
        "invalid size two: invalid digit found in string"
    );
    assert_eq!(parse_stress_args(&strings(&["--file-words"]), String::new()).unwrap_err(), "missing value for --file-words");
    match parse_stress_args(&strings(&["--sizes", " , "]), String::new()).unwrap() {
        Command::Run(o) => assert_eq!(o.sizes, vec![1000, 5000, 10000]),
        Command::Help => panic!("expected a run"),
    }
}

#[test]
fn size_lists() {
    assert_eq!(parse_sizes("1, 2,,3"), Ok(vec![1, 2, 3]));
    assert_eq!(parse_sizes(""), Ok(Vec::new()));
    assert_eq!(parse_sizes("1,-2"), Err("invalid size -2: invalid digit found in string".to_string()));
}

#[test]
fn benchmark_queries() {
    assert_eq!(normalize_queries(strings(&[" a ", "", "b", "a", "  "])), strings(&["a", "b"]));
    assert_eq!(default_queries(), strings(&["设计", "系统", "WBS", "测试", "集成"]));
    assert_eq!(resolve_queries(&strings(&[" x ", "x"]), Some(strings(&["f"])), strings(&["h"])), strings(&["x"]));
    assert_eq!(resolve_queries(&Vec::new(), Some(strings(&["f", " f "])), strings(&["h"])), strings(&["f"]));
    assert_eq!(resolve_queries(&Vec::new(), Some(strings(&["  "])), strings(&["h"])), strings(&["h"]));
    assert_eq!(resolve_queries(&Vec::new(), None, Vec::new()), default_queries());
}

#[test]
fn generated_documents() {
    let doc = build_document_content(10, 2, 3);
    assert_eq!(
        doc,
        "SeekMind stress corpus size=10 file_index=2 topic=WBS\n\n\
         ## 段落 0\n切片 搜索 索引 \n\n\
         ## 段落 1\n搜索 索引 WBS \n\n\
         ## 段落 2\n索引 WBS 性能 \n\n\
         ## 段落 3\nWBS 性能 文档 \n\n"
    );
    let long = build_document_content(1, 0, 19);
    assert!(long.contains("\n"));
    assert_eq!(long.matches("## 段落").count(), 4);
}

#[test]
fn directory_paths_sort_by_length_then_bytes() {
    assert_eq!(sorted_paths(&strings(&["/b", "/a/c", "/a", "中"])), strings(&["/a", "/b", "中", "/a/c"]));
}

fn dir(path: &str, enabled: i64, status: &str) -> IndexDirRow {
    IndexDirRow { path: path.to_string(), enabled, docs: 0, chunks: 0, status: status.to_string() }
}

fn doc(path: &str, dir_path: &str, chunks: i64) -> DocumentPathRow {
    DocumentPathRow { path: path.to_string(), dir_path: dir_path.to_string(), chunks }
}

#[test]
fn directory_tree_counts_documents_upwards() {
    let explicit = vec![dir("/docs/", 1, "indexed"), dir("virtual://临时导入", 1, "")];
    let docs = vec![
        doc("/docs/a/b/x.md", "/docs", 3),
        doc("/docs/y.md", "/docs", 2),
        doc("/tmp/z.md", "virtual://临时导入", 1),
        doc("/other/q.md", "/other", 4),
    ];
    let rows = list_index_dirs(&explicit, &docs);
    let shape: Vec<(String, bool, usize, usize, String, bool)> = rows
        .iter()
        .map(|r| (r.path.clone(), r.enabled, r.docs, r.chunks, r.status.clone(), r.is_explicit))
        .collect();
    assert_eq!(
        shape,
        vec![
            ("/docs".to_string(), true, 2, 5, "indexed".to_string(), true),
            ("/docs/a".to_string(), true, 1, 3, "empty".to_string(), false),
            ("/docs/a/b".to_string(), true, 1, 3, "empty".to_string(), false),
            ("virtual://临时导入".to_string(), true, 1, 1, "indexed".to_string(), true),
        ]
    );
}

#[test]
fn directories_under_a_disabled_root_are_disabled() {
    let rows = list_index_dirs(&vec![dir("/d", 0, " ")], &vec![doc("/d/s/x.md", "/d", 1)]);
    let shape: Vec<(String, bool, String)> = rows.iter().map(|r| (r.path.clone(), r.enabled, r.status.clone())).collect();
    assert_eq!(
        shape,
        vec![("/d".to_string(), false, "indexed".to_string()), ("/d/s".to_string(), false, "empty".to_string())]
    );
    let empty = list_index_dirs(&vec![dir("/e", 1, "")], &Vec::new());
    assert_eq!((empty[0].docs, empty[0].status.as_str()), (0, "empty"));
}

#[test]
fn sample_views() {
    let dirs = seekmind::models::index_dirs();
    assert_eq!(dirs.len(), 2);
    assert_eq!((dirs[0].path.as_str(), dirs[0].docs, dirs[0].status.as_str()), ("/Users/zhaoyang/Documents", 842, "indexed"));
    assert_eq!((dirs[1].chunks, dirs[1].status.as_str()), (2_844, "indexing"));
    let failed = seekmind::models::failed_files();
    assert_eq!(failed[0].file, "扫描版合同.pdf");
    assert_eq!(failed[1].reason, "暂不支持旧版 .doc 格式");
    assert_eq!(failed[1].retry_count, 0);
}

#[test]
fn generated_corpus_layout() {
    let layout = seekmind::cli::corpus_layout(5, 2);
    let shape: Vec<(String, Vec<String>)> = layout;
    assert_eq!(
        shape,
        vec![
            ("section-001".to_string(), strings(&["doc-00000.md", "doc-00001.txt"])),
            ("section-002".to_string(), strings(&["doc-00002.html", "doc-00003.md"])),
            ("section-003".to_string(), strings(&["doc-00004.txt"])),
        ]
    );
    let empty = seekmind::cli::corpus_layout(0, 3);
    assert_eq!(empty, vec![("section-001".to_string(), Vec::new())]);
    let big = seekmind::cli::corpus_layout(123_456, 100_000);
    assert_eq!(big.len(), 2);
    assert_eq!(big[1].1[0], "doc-100000.txt");
}

#[test]
fn every_stored_directory_is_listed_as_explicit() {
    let explicit = vec![dir("/b/", 1, "indexed"), dir("/a", 0, ""), dir("/a/x", 1, "")];
    let docs = vec![doc("/a/x/y/f.md", "/a", 2), doc("/elsewhere/g.md", "/elsewhere", 1)];
    let rows = list_index_dirs(&explicit, &docs);
    for p in ["/a", "/a/x", "/b"] {
        assert!(rows.iter().any(|r| r.path == p && r.is_explicit), "{p} missing");
    }
    assert!(rows.iter().all(|r| r.path != "/elsewhere"));
    for r in rows.iter().filter(|r| !r.is_explicit) {
        assert!(r.docs >= 1, "{} holds no document", r.path);
        assert!(["/a", "/a/x", "/b"].iter().any(|root| r.path.starts_with(&format!("{root}/"))), "{} is under no root", r.path);
    }
}
