//! Where the bundled sidecar executables are looked for, and where the
//! database lives.
use vstd::prelude::*;
use crate::paths::{join_path, parent_of, path_join, path_parent};
use crate::text::{concat_str, str_eq, trim, trim_str};

verus! {

/// The target triple that names sidecar builds for an operating system and
/// architecture.
pub open spec fn triple_for(os: Seq<char>, arch: Seq<char>) -> Seq<char> {
    if os == "macos"@ && arch == "aarch64"@ {
        "aarch64-apple-darwin"@
    } else if os == "macos"@ && arch == "x86_64"@ {
        "x86_64-apple-darwin"@
    } else if os == "linux"@ && arch == "x86_64"@ {
        "x86_64-unknown-linux-gnu"@
    } else if os == "linux"@ && arch == "aarch64"@ {
        "aarch64-unknown-linux-gnu"@
    } else if os == "windows"@ && arch == "x86_64"@ {
        "x86_64-pc-windows-msvc"@
    } else if os == "windows"@ && arch == "aarch64"@ {
        "aarch64-pc-windows-msvc"@
    } else {
        arch + "-unknown-"@ + os
    }
}

/// The target triple of `os` and `arch` (see `triple_for`).
pub fn target_triple_suffix(os: &str, arch: &str) -> (r: String)
    ensures
        r@ == triple_for(os@, arch@),
{
    let mac = str_eq(os, "macos");
    let linux = str_eq(os, "linux");
    let windows = str_eq(os, "windows");
    let arm = str_eq(arch, "aarch64");
    let x64 = str_eq(arch, "x86_64");
    if mac && arm {
        "aarch64-apple-darwin".to_owned()
    } else if mac && x64 {
        "x86_64-apple-darwin".to_owned()
    } else if linux && x64 {
        "x86_64-unknown-linux-gnu".to_owned()
    } else if linux && arm {
        "aarch64-unknown-linux-gnu".to_owned()
    } else if windows && x64 {
        "x86_64-pc-windows-msvc".to_owned()
    } else if windows && arm {
        "aarch64-pc-windows-msvc".to_owned()
    } else {
        let a = concat_str(arch, "-unknown-");
        let r = concat_str(a.as_str(), os);
        r
    }
}

/// The file name of an executable: `.exe` is added on Windows.
pub open spec fn exe_name(base: Seq<char>, os: Seq<char>) -> Seq<char> {
    if os == "windows"@ { base + ".exe"@ } else { base }
}

/// The executable file name for `base_name` on `os`.
pub fn executable_name(base_name: &str, os: &str) -> (r: String)
    ensures
        r@ == exe_name(base_name@, os@),
{
    if str_eq(os, "windows") {
        concat_str(base_name, ".exe")
    } else {
        base_name.to_owned()
    }
}

/// The names a sidecar may have: with the target triple first, then plain.
pub open spec fn name_candidates(base: Seq<char>, os: Seq<char>, arch: Seq<char>) -> Seq<Seq<char>> {
    seq![exe_name(base + "-"@ + triple_for(os, arch), os), exe_name(base, os)]
}

/// The file names under which the sidecar `base_name` is looked for.
pub fn suffix_candidates(base_name: &str, os: &str, arch: &str) -> (r: Vec<String>)
    ensures
        r@.len() == 2,
        r@[0]@ == name_candidates(base_name@, os@, arch@)[0],
        r@[1]@ == name_candidates(base_name@, os@, arch@)[1],
{
    let executable = executable_name(base_name, os);
    let triple = target_triple_suffix(os, arch);
    let dashed = concat_str(base_name, "-");
    let suffixed = concat_str(dashed.as_str(), triple.as_str());
    let suffixed_executable = executable_name(suffixed.as_str(), os);
    let mut candidates: Vec<String> = Vec::new();
    candidates.push(suffixed_executable);
    candidates.push(executable);
    candidates
}

/// The candidate paths in one base directory: each name, and the executable
/// inside a directory of that name.
pub open spec fn dir_candidates(dir: Seq<char>, base: Seq<char>, os: Seq<char>, arch: Seq<char>) -> Seq<Seq<char>> {
    let names = name_candidates(base, os, arch);
    seq![
        path_join(dir, names[0]),
        path_join(path_join(dir, names[0]), exe_name(base, os)),
        path_join(dir, names[1]),
        path_join(path_join(dir, names[1]), exe_name(base, os)),
    ]
}

/// The candidate paths of the sidecar `base_name` in `base_dir`.
pub fn candidate_paths_for_base_dir(base_dir: &str, base_name: &str, os: &str, arch: &str) -> (r: Vec<String>)
    ensures
        r@.len() == 4,
        forall|i: int| 0 <= i < 4 ==> #[trigger] r@[i]@ == dir_candidates(base_dir@, base_name@, os@, arch@)[i],
        views(r@) == dir_candidates(base_dir@, base_name@, os@, arch@),
{
    let names = suffix_candidates(base_name, os, arch);
    let exe = executable_name(base_name, os);
    let mut paths: Vec<String> = Vec::new();
    let mut k: usize = 0;
    while k < 2
        invariant
            names@.len() == 2,
            names@[0]@ == name_candidates(base_name@, os@, arch@)[0],
            names@[1]@ == name_candidates(base_name@, os@, arch@)[1],
            exe@ == exe_name(base_name@, os@),
            k <= 2,
            paths@.len() == 2 * k,
            forall|i: int| 0 <= i < 2 * k ==> #[trigger] paths@[i]@ == dir_candidates(base_dir@, base_name@, os@, arch@)[i],
        decreases 2 - k,
    {
        let named = join_path(base_dir, names[k].as_str());
        let inner = join_path(named.as_str(), exe.as_str());
        paths.push(named);
        paths.push(inner);
        k += 1;
    }
    assert(views(paths@) =~= dir_candidates(base_dir@, base_name@, os@, arch@));
    paths
}

/// All candidate paths, in the order they are tried: next to the executable,
/// in the bundle's resources, then under the working directory.
pub open spec fn all_candidates(
    base: Seq<char>,
    os: Seq<char>,
    arch: Seq<char>,
    exe: Option<Seq<char>>,
    cwd: Option<Seq<char>>,
) -> Seq<Seq<char>> {
    let from_exe = match exe {
        Some(e) => match path_parent(e) {
            Some(parent) => {
                let near = dir_candidates(parent, base, os, arch);
                match path_parent(parent) {
                    Some(root) => {
                        let res = path_join(root, "Resources"@);
                        near + dir_candidates(res, base, os, arch) + dir_candidates(
                            path_join(res, "resources"@),
                            base,
                            os,
                            arch,
                        ) + dir_candidates(path_join(res, "app-resources"@), base, os, arch)
                    },
                    None => near,
                }
            },
            None => Seq::empty(),
        },
        None => Seq::empty(),
    };
    let from_cwd = match cwd {
        Some(c) => dir_candidates(path_join(path_join(c, "src-tauri"@), "resources"@), base, os, arch)
            + dir_candidates(path_join(path_join(c, "src-tauri"@), "app-resources"@), base, os, arch),
        None => Seq::empty(),
    };
    from_exe + from_cwd
}

fn extend_strings(out: &mut Vec<String>, more: Vec<String>)
    ensures
        final(out)@.len() == old(out)@.len() + more@.len(),
        forall|i: int| 0 <= i < old(out)@.len() ==> #[trigger] final(out)@[i]@ == old(out)@[i]@,
        forall|i: int| 0 <= i < more@.len() ==> #[trigger] final(out)@[old(out)@.len() + i]@ == more@[i]@,
        views(final(out)@) == views(old(out)@) + views(more@),
{
    let ghost start = out@;
    let mut k: usize = 0;
    while k < more.len()
        invariant
            k <= more@.len(),
            out@.len() == start.len() + k,
            forall|i: int| 0 <= i < start.len() ==> #[trigger] out@[i]@ == start[i]@,
            forall|i: int| 0 <= i < k ==> #[trigger] out@[start.len() + i]@ == more@[i]@,
        decreases more@.len() - k,
    {
        out.push(more[k].clone());
        k += 1;
    }
    assert forall|j: int| 0 <= j < out@.len() implies #[trigger] views(out@)[j] == (views(start) + views(more@))[j] by {
        if j >= start.len() {
            let i = j - start.len();
            assert(out@[start.len() + i]@ == more@[i]@);
        }
    }
    assert(views(out@) =~= views(start) + views(more@));
}

/// The view of an optional string.
pub open spec fn opt_view(o: Option<String>) -> Option<Seq<char>> {
    match o {
        Some(s) => Some(s@),
        None => None,
    }
}

/// The views of a list of strings.
pub open spec fn views(v: Seq<String>) -> Seq<Seq<char>> {
    v.map_values(|s: String| s@)
}

/// The candidate paths of the sidecar `base_name`, from the path of the
/// running executable and the working directory, when they are known.
pub fn candidate_paths(
    base_name: &str,
    os: &str,
    arch: &str,
    current_exe: Option<String>,
    current_dir: Option<String>,
) -> (r: Vec<String>)
    ensures
        views(r@) == all_candidates(
            base_name@,
            os@,
            arch@,
            opt_view(current_exe),
            opt_view(current_dir),
        ),
{
    let ghost exe_v = opt_view(current_exe);
    let ghost cwd_v = opt_view(current_dir);
    let mut paths: Vec<String> = Vec::new();
    let ghost mut expect: Seq<Seq<char>> = Seq::empty();
    if let Some(exe) = &current_exe {
        if let Some(parent) = parent_of(exe.as_str()) {
            extend_strings(&mut paths, candidate_paths_for_base_dir(parent.as_str(), base_name, os, arch));
            proof { expect = dir_candidates(parent@, base_name@, os@, arch@); }
            assert(views(paths@) =~= expect);
            if let Some(root) = parent_of(parent.as_str()) {
                let resources = join_path(root.as_str(), "Resources");
                extend_strings(&mut paths, candidate_paths_for_base_dir(resources.as_str(), base_name, os, arch));
                proof { expect = expect + dir_candidates(resources@, base_name@, os@, arch@); }
                assert(views(paths@) =~= expect);
                let inner = join_path(resources.as_str(), "resources");
                extend_strings(&mut paths, candidate_paths_for_base_dir(inner.as_str(), base_name, os, arch));
                proof { expect = expect + dir_candidates(inner@, base_name@, os@, arch@); }
                assert(views(paths@) =~= expect);
                let app = join_path(resources.as_str(), "app-resources");
                extend_strings(&mut paths, candidate_paths_for_base_dir(app.as_str(), base_name, os, arch));
                proof { expect = expect + dir_candidates(app@, base_name@, os@, arch@); }
                assert(views(paths@) =~= expect);
            }
        }
    }
    if let Some(cwd) = &current_dir {
        let tauri = join_path(cwd.as_str(), "src-tauri");
        let resources = join_path(tauri.as_str(), "resources");
        extend_strings(&mut paths, candidate_paths_for_base_dir(resources.as_str(), base_name, os, arch));
        proof { expect = expect + dir_candidates(resources@, base_name@, os@, arch@); }
        assert(views(paths@) =~= expect);
        let app = join_path(tauri.as_str(), "app-resources");
        extend_strings(&mut paths, candidate_paths_for_base_dir(app.as_str(), base_name, os, arch));
        proof { expect = expect + dir_candidates(app@, base_name@, os@, arch@); }
        assert(views(paths@) =~= expect);
    }
    assert(views(paths@) =~= all_candidates(base_name@, os@, arch@, exe_v, cwd_v));
    paths
}

/// What the file system says about one candidate path.
#[derive(Debug, Clone, Copy)]
pub struct CandidateProbe {
    /// The path is a file.
    pub is_file: bool,
    /// The path is a directory.
    pub is_dir: bool,
    /// The executable exists inside the path, taken as a directory.
    pub inner_exists: bool,
}

/// The sidecar found among `cands[k..]`: the first candidate that is a file,
/// or that is a directory holding the executable (then that executable).
pub open spec fn resolved_from(
    cands: Seq<Seq<char>>,
    probes: Seq<CandidateProbe>,
    exe: Seq<char>,
    k: int,
) -> Option<Seq<char>>
    decreases cands.len() - k,
{
    if k < 0 || k >= cands.len() || k >= probes.len() {
        None
    } else if probes[k].is_file {
        Some(cands[k])
    } else if probes[k].is_dir && probes[k].inner_exists {
        Some(path_join(cands[k], exe))
    } else {
        resolved_from(cands, probes, exe, k + 1)
    }
}

/// The bundled sidecar `base_name`, given the candidate paths (see
/// `candidate_paths`) and what the file system says about each.
pub fn resolve_bundled_sidecar(
    base_name: &str,
    os: &str,
    candidates: &Vec<String>,
    probes: &Vec<CandidateProbe>,
) -> (r: Option<String>)
    requires
        probes@.len() == candidates@.len(),
    ensures
        opt_view(r) == resolved_from(views(candidates@), probes@, exe_name(base_name@, os@), 0),
{
    let exe = executable_name(base_name, os);
    let ghost cv = views(candidates@);
    let mut k: usize = 0;
    while k < candidates.len()
        invariant
            k <= candidates@.len() == probes@.len(),
            cv == views(candidates@),
            exe@ == exe_name(base_name@, os@),
            resolved_from(cv, probes@, exe@, 0) == resolved_from(cv, probes@, exe@, k as int),
        decreases candidates@.len() - k,
    {
        let p = probes[k];
        if p.is_file {
            return Some(candidates[k].clone());
        }
        if p.is_dir && p.inner_exists {
            return Some(join_path(candidates[k].as_str(), exe.as_str()));
        }
        k += 1;
    }
    None
}

/// The user's data directory, or the working directory when there is none.
pub open spec fn data_base(data_dir: Option<Seq<char>>) -> Seq<char> {
    match data_dir {
        Some(d) => d,
        None => "."@,
    }
}

/// The SQLite database file: `SeekMind/SeekMind.sqlite` under the user's data
/// directory.
pub open spec fn database_file(data_dir: Option<Seq<char>>) -> Seq<char> {
    path_join(path_join(data_base(data_dir), "SeekMind"@), "SeekMind.sqlite"@)
}

fn data_base_dir(data_dir: Option<String>) -> (r: String)
    ensures
        r@ == data_base(opt_view(data_dir)),
{
    match data_dir {
        Some(d) => d,
        None => ".".to_owned(),
    }
}

fn database_path(data_dir: Option<String>) -> (r: String)
    ensures
        r@ == database_file(opt_view(data_dir)),
{
    let base = data_base_dir(data_dir);
    let dir = join_path(base.as_str(), "SeekMind");
    join_path(dir.as_str(), "SeekMind.sqlite")
}

/// The path of the SQLite database (see `database_file`).
pub fn sqlite_database_path(data_dir: Option<String>) -> (r: String)
    ensures
        r@ == database_file(opt_view(data_dir)),
{
    database_path(data_dir)
}

/// Where the full-text index lives when no directory is configured:
/// `SeekMind/tantivy` under the user's data directory.
pub open spec fn default_fulltext_dir_of(data_dir: Option<Seq<char>>) -> Seq<char> {
    path_join(path_join(data_base(data_dir), "SeekMind"@), "tantivy"@)
}

/// The directory of the full-text index: the configured one when it is set
/// and not blank (trimmed), else the default one.
pub open spec fn fulltext_dir_of(setting: Option<Seq<char>>, data_dir: Option<Seq<char>>) -> Seq<char> {
    let configured = match setting {
        Some(s) => trim(s).len() > 0,
        None => false,
    };
    if configured {
        trim(setting.unwrap())
    } else {
        default_fulltext_dir_of(data_dir)
    }
}

/// The directory of the full-text index (see `fulltext_dir_of`) from the
/// setting and the user's data directory.
pub fn fulltext_index_dir(setting: Option<String>, data_dir: Option<String>) -> (r: String)
    ensures
        r@ == fulltext_dir_of(opt_view(setting), opt_view(data_dir)),
{
    if let Some(s) = &setting {
        let t = trim_str(s.as_str());
        if !t.as_str().is_empty() {
            return t;
        }
    }
    default_fulltext_index_dir(data_dir)
}

/// The default directory of the full-text index (see `default_fulltext_dir_of`).
pub fn default_fulltext_index_dir(data_dir: Option<String>) -> (r: String)
    ensures
        r@ == default_fulltext_dir_of(opt_view(data_dir)),
{
    let base = data_base_dir(data_dir);
    let dir = join_path(base.as_str(), "SeekMind");
    join_path(dir.as_str(), "tantivy")
}

/// Where older versions kept the full-text index.
pub open spec fn legacy_fulltext_dir_of(data_dir: Option<Seq<char>>) -> Seq<char> {
    path_join(path_join(match data_dir { Some(d) => d, None => "."@ }, "DocMind"@), "tantivy"@)
}

/// `legacy_fulltext_index_dir` (see `legacy_fulltext_dir_of`).
pub fn legacy_fulltext_index_dir(data_dir: Option<String>) -> (r: String)
    ensures
        r@ == legacy_fulltext_dir_of(opt_view(data_dir)),
{
    let base = match data_dir {
        Some(d) => d,
        None => ".".to_owned(),
    };
    let dir = join_path(base.as_str(), "DocMind");
    join_path(dir.as_str(), "tantivy")
}

} // verus!
