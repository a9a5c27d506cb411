use futures_util::future::AbortHandle;
use seekmind::cancel::{cancel, clear, register, JobRegistry};
use seekmind::indexing::{
    classify_failure, plan_import, rebuild_progress, repair_progress, virtual_import_dir_name,
    PathProbe, RunCounters,
};

fn strings(v: &[&str]) -> Vec<String> {
    v.iter().map(|s| s.to_string()).collect()
}

fn class(reason: &str, path: &str) -> (String, String) {
    classify_failure(reason, path)
}

#[test]
fn failure_categories() {
    assert_eq!(class("文件过大: x", "/a.md").1, "file_too_large");
    assert_eq!(class("暂不支持 PDF 解析", "/a.pdf").1, "unsupported_format");
    assert_eq!(class("Unsupported File Type", "/a").0, "不支持的格式");
    assert_eq!(class("Permission denied (os error 13)", "/a").1, "permission_denied");
    assert_eq!(class("No such file or directory", "/a").1, "file_missing");
    assert_eq!(class("Is a directory", "/a").1, "invalid_path");
    assert_eq!(class("operation timed out", "/a").1, "timeout");
    assert_eq!(class("sqlite busy", "/a").1, "database_error");
    assert_eq!(class("tantivy writer", "/a").1, "index_error");
    assert_eq!(class("IO error: broken", "/a").1, "io_error");
    assert_eq!(class("weird", "/a/b.PDF"), ("PDF 解析失败".to_string(), "parse_error".to_string()));
    assert_eq!(class("weird", "/a/b.md"), ("解析失败".to_string(), "parse_error".to_string()));
}

#[test]
fn repair_progress_percent() {
    assert_eq!(repair_progress(0, 0), 100);
    assert_eq!(repair_progress(1, 3), 33);
    assert_eq!(repair_progress(2, 3), 66);
    assert_eq!(repair_progress(5, 3), 100);
}

#[test]
fn rebuild_progress_rounds_to_nearest() {
    assert_eq!(rebuild_progress(0, 0), 100);
    assert_eq!(rebuild_progress(2, 3), 67);
    assert_eq!(rebuild_progress(1, 8), 13);
    assert_eq!(rebuild_progress(0, 5), 0);
    assert_eq!(rebuild_progress(5, 5), 100);
}

#[test]
fn run_counters_count_outcomes() {
    let mut c = RunCounters::start(3);
    c.record(true);
    c.record(false);
    c.record(true);
    assert_eq!(c, RunCounters { total: 3, processed: 3, succeeded: 2, failed: 1 });
}

#[test]
fn importing_paths() {
    let known = strings(&["/docs"]);
    let paths = strings(&["/docs/a.md", "/new", "/tmp/x.md", "/gone", "/tmp/y.exe", "", "/tmp/z.md"]);
    let probes = vec![
        PathProbe::File { supported: true },
        PathProbe::Dir,
        PathProbe::File { supported: true },
        PathProbe::Missing,
        PathProbe::File { supported: false },
        PathProbe::Missing,
        PathProbe::File { supported: true },
    ];
    let parents = strings(&["/docs", "/", "/tmp", "/", "/tmp", "", "/tmp"]);
    let plan = plan_import(known, &paths, &probes, &parents);
    assert_eq!(plan.added_dirs, strings(&["/new"]));
    assert_eq!(plan.skipped, strings(&["/gone"]));
    assert_eq!(plan.unsupported, strings(&["/tmp/y.exe"]));
    assert_eq!(plan.virtual_dir, "virtual://临时导入");
    let files: Vec<(String, String, bool)> = plan
        .imported_files
        .iter()
        .map(|f| (f.path.clone(), f.dir_path.clone(), f.is_virtual))
        .collect();
    assert_eq!(
        files,
        vec![
            ("/docs/a.md".to_string(), "/docs".to_string(), false),
            ("/tmp/x.md".to_string(), "virtual://临时导入".to_string(), true),
            ("/tmp/z.md".to_string(), "virtual://临时导入".to_string(), true),
        ]
    );
}

#[test]
fn importing_only_directories_uses_no_virtual_directory() {
    let plan = plan_import(Vec::new(), &strings(&["/a"]), &vec![PathProbe::Dir], &strings(&["/"]));
    assert_eq!(plan.added_dirs, strings(&["/a"]));
    assert_eq!(plan.virtual_dir, "");
    assert_eq!(virtual_import_dir_name(), "virtual://临时导入");
}

#[test]
fn a_file_below_a_directory_added_in_the_same_import_is_filed_there() {
    let plan = plan_import(
        Vec::new(),
        &strings(&["/new", "/new/a.md"]),
        &vec![PathProbe::Dir, PathProbe::File { supported: true }],
        &strings(&["/", "/new"]),
    );
    assert_eq!(plan.imported_files.len(), 1);
    assert_eq!(plan.imported_files[0].dir_path, "/new");
    assert!(!plan.imported_files[0].is_virtual);
}

#[test]
fn cancelling_a_registered_job_aborts_it_once() {
    let (handle, reg) = AbortHandle::new_pair();
    let mut jobs = JobRegistry::new();
    register(&mut jobs, "job-1".to_string(), handle);
    assert!(cancel(&mut jobs, "job-1"));
    assert!(reg.handle().is_aborted());
    assert!(!cancel(&mut jobs, "job-1"));
}

#[test]
fn cleared_jobs_are_not_aborted() {
    let (handle, reg) = AbortHandle::new_pair();
    let (other, other_reg) = AbortHandle::new_pair();
    let mut jobs = JobRegistry::new();
    register(&mut jobs, "a".to_string(), handle);
    register(&mut jobs, "b".to_string(), other);
    clear(&mut jobs, "a");
    assert!(!reg.handle().is_aborted());
    assert!(!cancel(&mut jobs, "a"));
    assert!(cancel(&mut jobs, "b"));
    assert!(other_reg.handle().is_aborted());
}

#[test]
fn every_imported_path_is_accounted_for_once() {
    let paths = strings(&["", "/docs", "/docs/a.md", "/gone", "/x.bin", "/loose.md"]);
    let probes = vec![
        PathProbe::Missing,
        PathProbe::Dir,
        PathProbe::File { supported: true },
        PathProbe::Missing,
        PathProbe::File { supported: false },
        PathProbe::File { supported: true },
    ];
    let parents = strings(&["", "/", "/docs", "/", "/", ""]);
    let plan = plan_import(Vec::new(), &paths, &probes, &parents);
    let accounted = plan.added_dirs.len() + plan.imported_files.len() + plan.skipped.len() + plan.unsupported.len();
    assert_eq!(accounted, 5);
    assert_eq!(plan.imported_files[0].dir_path, "/docs");
    assert_eq!(plan.imported_files[1].dir_path, "virtual://临时导入");
}
