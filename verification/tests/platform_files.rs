use seekmind::clock::{format_modified, format_unix_ts, format_unix_ts_or_empty};
use seekmind::digest::{hash_file_bytes, hex_lower};
use seekmind::media::{
    base64_encode, check_file_to_open, image_mime_from_path, quick_look_unavailable,
    read_preview_image_data_url,
};
use seekmind::sidecar::{
    candidate_paths, candidate_paths_for_base_dir, executable_name, resolve_bundled_sidecar,
    sqlite_database_path, suffix_candidates, target_triple_suffix, CandidateProbe,
};

const PNG_MAGIC: [u8; 8] = [0x89, b'P', b'N', b'G', 0x0D, 0x0A, 0x1A, 0x0A];

#[test]
fn target_triples() {
    assert_eq!(target_triple_suffix("macos", "aarch64"), "aarch64-apple-darwin");
    assert_eq!(target_triple_suffix("linux", "x86_64"), "x86_64-unknown-linux-gnu");
    assert_eq!(target_triple_suffix("windows", "x86_64"), "x86_64-pc-windows-msvc");
    assert_eq!(target_triple_suffix("freebsd", "riscv64"), "riscv64-unknown-freebsd");
}

#[test]
fn executable_names() {
    assert_eq!(executable_name("parser", "windows"), "parser.exe");
    assert_eq!(executable_name("parser", "linux"), "parser");
    assert_eq!(
        suffix_candidates("parser", "linux", "x86_64"),
        vec!["parser-x86_64-unknown-linux-gnu".to_string(), "parser".to_string()]
    );
    assert_eq!(
        suffix_candidates("p", "windows", "aarch64"),
        vec!["p-aarch64-pc-windows-msvc.exe".to_string(), "p.exe".to_string()]
    );
}

#[test]
fn candidates_in_one_directory() {
    assert_eq!(
        candidate_paths_for_base_dir("/opt/app", "p", "linux", "x86_64"),
        vec![
            "/opt/app/p-x86_64-unknown-linux-gnu".to_string(),
            "/opt/app/p-x86_64-unknown-linux-gnu/p".to_string(),
            "/opt/app/p".to_string(),
            "/opt/app/p/p".to_string(),
        ]
    );
}

#[test]
fn candidates_from_exe_and_cwd() {
    let all = candidate_paths("p", "linux", "x86_64", Some("/opt/app/bin/seekmind".to_string()), Some("/work".to_string()));
    assert_eq!(all.len(), 24);
    assert_eq!(all[0], "/opt/app/bin/p-x86_64-unknown-linux-gnu");
    assert_eq!(all[4], "/opt/app/Resources/p-x86_64-unknown-linux-gnu");
    assert_eq!(all[8], "/opt/app/Resources/resources/p-x86_64-unknown-linux-gnu");
    assert_eq!(all[12], "/opt/app/Resources/app-resources/p-x86_64-unknown-linux-gnu");
    assert_eq!(all[16], "/work/src-tauri/resources/p-x86_64-unknown-linux-gnu");
    assert_eq!(all[23], "/work/src-tauri/app-resources/p/p");
    assert!(candidate_paths("p", "linux", "x86_64", None, None).is_empty());
}

#[test]
fn resolving_the_sidecar() {
    let cands = vec!["/a/p-x".to_string(), "/a/p".to_string(), "/b/p".to_string()];
    let none = CandidateProbe { is_file: false, is_dir: false, inner_exists: false };
    let dir = CandidateProbe { is_file: false, is_dir: true, inner_exists: true };
    let file = CandidateProbe { is_file: true, is_dir: false, inner_exists: false };
    assert_eq!(resolve_bundled_sidecar("p", "linux", &cands, &vec![none, dir, file]), Some("/a/p/p".to_string()));
    assert_eq!(resolve_bundled_sidecar("p", "linux", &cands, &vec![none, none, file]), Some("/b/p".to_string()));
    assert_eq!(resolve_bundled_sidecar("p", "linux", &cands, &vec![none, none, none]), None);
}

#[test]
fn database_location() {
    assert_eq!(sqlite_database_path(Some("/home/u/.local/share".to_string())), "/home/u/.local/share/SeekMind/SeekMind.sqlite");
    assert_eq!(sqlite_database_path(None), "./SeekMind/SeekMind.sqlite");
}

#[test]
fn timestamps_in_utc() {
    assert_eq!(format_unix_ts(0), "未知");
    assert_eq!(format_unix_ts(-5), "未知");
    assert_eq!(format_unix_ts(86_400), "1970-01-02 00:00:00");
    assert_eq!(format_unix_ts(1_700_000_000), "2023-11-14 22:13:20");
    assert_eq!(format_unix_ts(i64::MAX), "未知");
    assert_eq!(format_unix_ts_or_empty(0), "");
    assert_eq!(format_unix_ts_or_empty(61), "1970-01-01 00:01:01");
    assert_eq!(format_modified(Some(3_600)), "1970-01-01 01:00");
    assert_eq!(format_modified(None), "未知");
}

#[test]
fn content_hash_is_sha256_hex() {
    assert_eq!(
        hash_file_bytes(b"abc"),
        "ba7816bf8f01cfea414140de5dae2223b00361a396177a9cb410ff61f20015ad"
    );
    assert_eq!(
        hash_file_bytes(b""),
        "e3b0c44298fc1c149afbf4c8996fb92427ae41e4649b934ca495991b7852b855"
    );
    assert_eq!(hex_lower(&[0x00, 0x0f, 0xa5, 0xff]), "000fa5ff");
}

#[test]
fn base64_groups() {
    assert_eq!(base64_encode(b"Man"), "TWFu");
    assert_eq!(base64_encode(b"Ma"), "TWE=");
    assert_eq!(base64_encode(b"M"), "TQ==");
    assert_eq!(base64_encode(b""), "");
    assert_eq!(base64_encode(&[0xfb, 0xff, 0xfe]), "+//+");
    assert_eq!(base64_encode(b"hello world").len(), 16);
}

#[test]
fn image_types() {
    assert_eq!(image_mime_from_path("/x/pic.bin", &PNG_MAGIC), "image/png");
    assert_eq!(image_mime_from_path("/x/pic.JPG", b"not an image"), "image/jpeg");
    assert_eq!(image_mime_from_path("/x/pic.svg", b"<svg/>"), "image/svg+xml");
    assert_eq!(image_mime_from_path("/x/file", b"plain"), "application/octet-stream");
}

#[test]
fn preview_data_urls() {
    assert_eq!(
        read_preview_image_data_url(" /x/p.png ", Ok(PNG_MAGIC.to_vec())),
        Ok("data:image/png;base64,iVBORw0KGgo=".to_string())
    );
    assert_eq!(read_preview_image_data_url("  ", Ok(Vec::new())), Err("图片路径不能为空".to_string()));
    assert_eq!(
        read_preview_image_data_url("/x/p.png", Err("denied".to_string())),
        Err("读取图片失败: denied".to_string())
    );
    assert_eq!(
        read_preview_image_data_url("/x/notes.txt", Ok(b"hello".to_vec())),
        Err("不是可预览的图片类型: application/octet-stream".to_string())
    );
}

#[test]
fn files_to_open() {
    assert_eq!(check_file_to_open(" ", true), Err("文件路径不能为空".to_string()));
    assert_eq!(check_file_to_open("/x/a.md", false), Err("文件不存在: /x/a.md".to_string()));
    assert_eq!(check_file_to_open("/x/a.md", true), Ok(()));
    assert_eq!(quick_look_unavailable(), "Quick Look 仅在 macOS 上可用");
}

fn decode_base64(text: &str) -> Vec<u8> {
    let value = |c: u8| -> u32 {
        match c {
            b'A'..=b'Z' => (c - b'A') as u32,
            b'a'..=b'z' => (c - b'a') as u32 + 26,
            b'0'..=b'9' => (c - b'0') as u32 + 52,
            b'+' => 62,
            b'/' => 63,
            _ => 0,
        }
    };
    let mut out = Vec::new();
    for group in text.as_bytes().chunks(4) {
        let v = group.iter().fold(0u32, |acc, c| acc * 64 + value(*c));
        out.push((v >> 16) as u8);
        if group[2] != b'=' {
            out.push((v >> 8) as u8);
        }
        if group[3] != b'=' {
            out.push(v as u8);
        }
    }
    out
}

#[test]
fn base64_decodes_back_to_its_bytes() {
    for bytes in [Vec::new(), vec![0u8], vec![255, 1], vec![9, 8, 7], (0u8..=200).collect::<Vec<u8>>()] {
        let text = base64_encode(&bytes);
        assert_eq!(decode_base64(&text), bytes);
        assert!(text.chars().all(|c| c.is_ascii_alphanumeric() || c == '+' || c == '/' || c == '='));
        assert!(text.char_indices().all(|(i, c)| c != '=' || i + 2 >= text.len()));
    }
}
