use seekmind::paths::{
    extension, is_path_within_dir, is_virtual_directory, normalize_directory_path,
    normalize_import_path, owning_index_dir, parent_dir_path, resolve_preview_asset_path,
};

fn strings(v: &[&str]) -> Vec<String> {
    v.iter().map(|s| s.to_string()).collect()
}

#[test]
fn directory_paths_are_trimmed_without_trailing_slashes() {
    assert_eq!(normalize_directory_path("  /Users/me/docs///  "), "/Users/me/docs");
    assert_eq!(normalize_directory_path("/"), "");
    assert_eq!(normalize_import_path(" /a/b.md "), "/a/b.md");
}

#[test]
fn normalizing_twice_changes_nothing() {
    let once = normalize_directory_path(" /a/b/ ");
    assert_eq!(normalize_directory_path(&once), once);
}

#[test]
fn virtual_directories() {
    assert!(is_virtual_directory("virtual://imports/"));
    assert!(is_virtual_directory("  virtual://x"));
    assert!(!is_virtual_directory("/virtual://x"));
}

#[test]
fn containment_is_by_whole_components() {
    assert!(is_path_within_dir("/a/b/c.md", "/a/b"));
    assert!(is_path_within_dir("/a/b/", "/a/b"));
    assert!(is_path_within_dir("/a/b", "/a/b/"));
    assert!(!is_path_within_dir("/a/bc/d.md", "/a/b"));
    assert!(!is_path_within_dir("/a", "/a/b"));
}

#[test]
fn parent_directory_via_std_path() {
    assert_eq!(parent_dir_path("/a/b/c.md"), "/a/b");
    assert_eq!(parent_dir_path("c.md"), "");
    assert_eq!(parent_dir_path("/"), "");
}

#[test]
fn lowercase_extension_via_std_path() {
    assert_eq!(extension("/a/Report.PDF"), "pdf");
    assert_eq!(extension("/a/archive.tar.gz"), "gz");
    assert_eq!(extension("/a/.bashrc"), "");
    assert_eq!(extension("/a/Makefile"), "");
}

#[test]
fn owning_directory_is_the_longest_prefix() {
    let dirs = strings(&["/a", "/a/b", "/c"]);
    assert_eq!(owning_index_dir("/a/b/x.md", &dirs), Some("/a/b".to_string()));
    assert_eq!(owning_index_dir("/a/z.md", &dirs), Some("/a".to_string()));
    assert_eq!(owning_index_dir("/d/z.md", &dirs), None);
}

#[test]
fn preview_assets_resolve_relative_to_the_document() {
    assert_eq!(resolve_preview_asset_path("  img/a.png ", "/docs/note.md"), "/docs/img/a.png");
    assert_eq!(resolve_preview_asset_path("https://x/y.png", "/docs/note.md"), "https://x/y.png");
    assert_eq!(resolve_preview_asset_path("data:image/png;base64,AA", "/d/n.md"), "data:image/png;base64,AA");
    assert_eq!(resolve_preview_asset_path("/abs/p.png", "/docs/note.md"), "/abs/p.png");
    assert_eq!(resolve_preview_asset_path("   ", "/docs/note.md"), "");
}
