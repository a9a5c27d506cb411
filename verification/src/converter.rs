//! The office suite that converts `.doc`, `.ppt` and `.pptx` files to text:
//! where it is looked for, which one is used, and where its output goes.
use vstd::prelude::*;
use crate::digest::{hex_lower, hex_of, sha256, sha256_bytes};
use crate::sidecar::{opt_view, views};
use crate::text::{append_str, chars_of, lowercase, lowercase_str, str_eq, string_of, trim, trim_str};

verus! {

/// The places the converter is looked for: the configured program first,
/// then the usual names and install locations of the operating system.
pub open spec fn converter_candidates_of(
    setting: Option<Seq<char>>,
    os: Seq<char>,
    program_files: Option<Seq<char>>,
    program_files_x86: Option<Seq<char>>,
) -> Seq<Seq<char>> {
    let first = match setting { Some(s) => seq![s], None => Seq::empty() };
    let rest = if os == "windows"@ {
        seq!["soffice.exe"@, "libreoffice.exe"@]
            + match program_files { Some(p) => seq![p + "\\LibreOffice\\program\\soffice.exe"@], None => Seq::empty() }
            + match program_files_x86 { Some(p) => seq![p + "\\LibreOffice\\program\\soffice.exe"@], None => Seq::empty() }
    } else if os == "macos"@ {
        seq![
            "soffice"@,
            "libreoffice"@,
            "/Applications/LibreOffice.app/Contents/MacOS/soffice"@,
            "/Applications/LibreOffice.app/Contents/MacOS/libreoffice"@,
        ]
    } else {
        seq!["soffice"@, "libreoffice"@]
    };
    first + rest
}

fn push_str_to(out: &mut Vec<String>, s: String)
    ensures
        views(final(out)@) == views(old(out)@).push(s@),
{
    out.push(s);
    assert(views(out@) =~= views(old(out)@).push(s@));
}

/// The candidate converters (see `converter_candidates_of`).
pub fn office_converter_candidates(
    setting: Option<String>,
    os: &str,
    program_files: Option<String>,
    program_files_x86: Option<String>,
) -> (r: Vec<String>)
    ensures
        views(r@) == converter_candidates_of(opt_view(setting), os@, opt_view(program_files), opt_view(program_files_x86)),
{
    let ghost pf = opt_view(program_files);
    let ghost px = opt_view(program_files_x86);
    let mut out: Vec<String> = Vec::new();
    if let Some(s) = setting {
        push_str_to(&mut out, s);
    }
    let ghost first = views(out@);
    if str_eq(os, "windows") {
        push_str_to(&mut out, "soffice.exe".to_owned());
        push_str_to(&mut out, "libreoffice.exe".to_owned());
        if let Some(p) = &program_files {
            let mut c = chars_of(p.as_str());
            append_str(&mut c, "\\LibreOffice\\program\\soffice.exe");
            push_str_to(&mut out, string_of(c.as_slice()));
        }
        let ghost mid = views(out@);
        assert(mid =~= first + seq!["soffice.exe"@, "libreoffice.exe"@]
            + match pf { Some(p) => seq![p + "\\LibreOffice\\program\\soffice.exe"@], None => Seq::<Seq<char>>::empty() });
        if let Some(p) = &program_files_x86 {
            let mut c = chars_of(p.as_str());
            append_str(&mut c, "\\LibreOffice\\program\\soffice.exe");
            push_str_to(&mut out, string_of(c.as_slice()));
        }
        assert(views(out@) =~= mid
            + match px { Some(p) => seq![p + "\\LibreOffice\\program\\soffice.exe"@], None => Seq::<Seq<char>>::empty() });
    } else if str_eq(os, "macos") {
        push_str_to(&mut out, "soffice".to_owned());
        push_str_to(&mut out, "libreoffice".to_owned());
        push_str_to(&mut out, "/Applications/LibreOffice.app/Contents/MacOS/soffice".to_owned());
        push_str_to(&mut out, "/Applications/LibreOffice.app/Contents/MacOS/libreoffice".to_owned());
    } else {
        push_str_to(&mut out, "soffice".to_owned());
        push_str_to(&mut out, "libreoffice".to_owned());
    }
    assert(views(out@) =~= converter_candidates_of(opt_view(setting), os@, pf, px));
    out
}

/// The converter used: the first candidate that is not blank and answered
/// `--version` successfully (`answered[k]` says so of candidate `k`).
pub open spec fn working_converter(cands: Seq<Seq<char>>, answered: Seq<bool>, k: int) -> Option<Seq<char>>
    decreases cands.len() - k,
{
    if k < 0 || k >= cands.len() || k >= answered.len() {
        None
    } else if trim(cands[k]).len() > 0 && answered[k] {
        Some(cands[k])
    } else {
        working_converter(cands, answered, k + 1)
    }
}

/// `office_converter_path` (see `working_converter`); a blank candidate is
/// never run, whatever `answered` says of it.
pub fn office_converter_path(candidates: &Vec<String>, answered: &Vec<bool>) -> (r: Option<String>)
    requires
        answered@.len() == candidates@.len(),
    ensures
        opt_view(r) == working_converter(views(candidates@), answered@, 0),
{
    let ghost cv = views(candidates@);
    let mut k: usize = 0;
    while k < candidates.len()
        invariant
            k <= candidates@.len() == answered@.len(),
            cv == views(candidates@),
            working_converter(cv, answered@, 0) == working_converter(cv, answered@, k as int),
        decreases candidates@.len() - k,
    {
        if !trim_str(candidates[k].as_str()).as_str().is_empty() && answered[k] {
            return Some(candidates[k].clone());
        }
        k += 1;
    }
    None
}

/// What the runtime view says of the converter: always enabled; available
/// with its program when one was found.
pub fn office_converter_config(bin: Option<String>) -> (r: (bool, bool, String, String))
    ensures
        r.0,
        r.1 == (bin is Some && opt_view(bin).unwrap().len() > 0),
        r.2@ == match bin { Some(b) => b@, None => Seq::empty() },
        r.3@ == if r.1 { "ready"@ } else { "LibreOffice / soffice not found"@ },
{
    let b = match bin {
        Some(b) => b,
        None => String::new(),
    };
    let available = !b.as_str().is_empty();
    let message = if available { "ready".to_owned() } else { "LibreOffice / soffice not found".to_owned() };
    (true, available, b, message)
}

/// The folder key of a converted document: the first eight bytes of the
/// SHA-256 of its path, in hexadecimal.
pub fn office_output_key(path_bytes: &[u8]) -> (r: String)
    ensures
        r@ == hex_of(sha256(path_bytes@).take(8)),
        r@.len() == 16,
{
    let d = sha256_bytes(path_bytes);
    let mut head: Vec<u8> = Vec::new();
    let mut i: usize = 0;
    while i < 8
        invariant
            i <= 8,
            d@.len() == 32,
            d@ == sha256(path_bytes@),
            head@ == d@.take(i as int),
        decreases 8 - i,
    {
        head.push(d[i]);
        i += 1;
        assert(head@ =~= d@.take(i as int));
    }
    hex_lower(head.as_slice())
}

/// The name of the converted file: the document's stem and the target
/// extension, without leading dots and lowercased.
pub open spec fn converted_name(stem: Seq<char>, target_ext: Seq<char>) -> Seq<char> {
    stem + "."@ + lowercase(strip_dots(target_ext))
}

/// `s` without its leading dots.
pub open spec fn strip_dots(s: Seq<char>) -> Seq<char>
    decreases s.len(),
{
    if s.len() > 0 && s[0] == '.' { strip_dots(s.drop_first()) } else { s }
}

/// The file name an office conversion to `target_ext` produces for a
/// document with the stem `stem` (see `converted_name`).
pub fn converted_file_name(stem: &str, target_ext: &str) -> (r: String)
    ensures
        r@ == converted_name(stem@, target_ext@),
{
    let cs = chars_of(target_ext);
    let mut i: usize = 0;
    assert(cs@.skip(0) =~= cs@);
    while i < cs.len() && cs[i] == '.'
        invariant
            i <= cs@.len(),
            cs@ == target_ext@,
            strip_dots(target_ext@) == strip_dots(cs@.skip(i as int)),
        decreases cs@.len() - i,
    {
        proof {
            assert(cs@.skip(i as int).drop_first() =~= cs@.skip(i + 1));
        }
        i += 1;
    }
    let ext = string_of(crate::text::copy_range(cs.as_slice(), i, cs.len()).as_slice());
    assert(ext@ =~= cs@.skip(i as int));
    let lowered = lowercase_str(ext.as_str());
    let mut out = chars_of(stem);
    append_str(&mut out, ".");
    append_str(&mut out, lowered.as_str());
    string_of(out.as_slice())
}

} // verus!
