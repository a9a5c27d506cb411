use seekmind::converter::{
    converted_file_name, office_converter_candidates, office_converter_config, office_converter_path,
    office_output_key,
};

fn strings(v: &[&str]) -> Vec<String> {
    v.iter().map(|s| s.to_string()).collect()
}

#[test]
fn converter_candidates_by_platform() {
    assert_eq!(office_converter_candidates(None, "linux", None, None), strings(&["soffice", "libreoffice"]));
    assert_eq!(
        office_converter_candidates(Some("/opt/lo".to_string()), "macos", None, None),
        strings(&[
            "/opt/lo",
            "soffice",
            "libreoffice",
            "/Applications/LibreOffice.app/Contents/MacOS/soffice",
            "/Applications/LibreOffice.app/Contents/MacOS/libreoffice",
        ])
    );
    assert_eq!(
        office_converter_candidates(None, "windows", Some("C:\\PF".to_string()), None),
        strings(&["soffice.exe", "libreoffice.exe", "C:\\PF\\LibreOffice\\program\\soffice.exe"])
    );
}

#[test]
fn first_working_converter() {
    let cands = strings(&[" ", "soffice", "libreoffice"]);
    assert_eq!(office_converter_path(&cands, &vec![true, false, true]), Some("libreoffice".to_string()));
    assert_eq!(office_converter_path(&cands, &vec![true, false, false]), None);
}

#[test]
fn converter_config() {
    assert_eq!(
        office_converter_config(Some("soffice".to_string())),
        (true, true, "soffice".to_string(), "ready".to_string())
    );
    assert_eq!(
        office_converter_config(None),
        (true, false, String::new(), "LibreOffice / soffice not found".to_string())
    );
}

#[test]
fn conversion_output_names() {
    assert_eq!(office_output_key(b"abc"), "ba7816bf8f01cfea");
    assert_eq!(converted_file_name("report", "..TXT"), "report.txt");
    assert_eq!(converted_file_name("slides", "html"), "slides.html");
}
