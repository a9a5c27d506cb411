//! Path strings: normalization, containment, virtual directories and the
//! components that `std::path::Path` splits off.
use vstd::prelude::*;
use crate::text::{chars_of, has_prefix, lowercase, starts_with, string_of, trim, trim_chars, trim_end_char, trim_end_char_chars, string_views};

verus! {

/// What `Path::parent` gives for the path `p`. It follows the path rules
/// (separators, roots, prefixes) of the platform the crate is built for.
pub uninterp spec fn path_parent(p: Seq<char>) -> Option<Seq<char>>;

/// What `Path::file_name` gives for the path `p`. It follows the path rules
/// (separators, roots, prefixes) of the platform the crate is built for.
pub uninterp spec fn path_file_name(p: Seq<char>) -> Option<Seq<char>>;

/// The position of the last `c` in `s`, or -1.
pub open spec fn last_index_of(s: Seq<char>, c: char) -> int
    decreases s.len(),
{
    if s.len() == 0 {
        -1
    } else if s.last() == c {
        s.len() - 1
    } else {
        last_index_of(s.drop_last(), c)
    }
}

/// The extension of a file name as `Path::extension` documents it: none when
/// the name has no dot, or when its only dot begins it; otherwise the part after
/// the last dot.
pub open spec fn name_extension(name: Seq<char>) -> Option<Seq<char>> {
    let k = last_index_of(name, '.');
    if k <= 0 {
        None
    } else {
        Some(name.skip(k + 1))
    }
}

/// What `Path::extension` gives for the path `p`: the extension of its file
/// name, none when it has no file name.
pub open spec fn path_extension(p: Seq<char>) -> Option<Seq<char>> {
    match path_file_name(p) {
        Some(n) => name_extension(n),
        None => None,
    }
}

/// What `Path::join` gives for `base` and `rest`. It follows the path rules
/// (separators, roots, prefixes) of the platform the crate is built for.
pub uninterp spec fn path_join(base: Seq<char>, rest: Seq<char>) -> Seq<char>;

/// Whether `Path::is_absolute` holds for `p`. It follows the path rules
/// (separators, roots, prefixes) of the platform the crate is built for.
pub uninterp spec fn path_is_absolute(p: Seq<char>) -> bool;

/// `Path::parent`: the path without its final component, if it has one
/// (so a strictly shorter string).
#[verifier::external_body]
pub(crate) fn parent_of(path: &str) -> (r: Option<String>)
    ensures
        match r {
            Some(s) => path_parent(path@) == Some(s@),
            None => path_parent(path@) is None,
        },
        r matches Some(s) ==> s@.len() < path@.len(),
{
    std::path::Path::new(path).parent().map(|p| p.to_string_lossy().into_owned())
}

/// `Path::file_name`: the final component, unless it is `..`.
#[verifier::external_body]
pub(crate) fn file_name_of(path: &str) -> (r: Option<String>)
    ensures
        match r {
            Some(s) => path_file_name(path@) == Some(s@),
            None => path_file_name(path@) is None,
        },
{
    std::path::Path::new(path).file_name().map(|p| p.to_string_lossy().into_owned())
}

/// `Path::extension`: the part of the file name after its last dot, none
/// when there is no file name, no dot, or only a leading dot (see
/// `path_extension`).
#[verifier::external_body]
pub(crate) fn extension_of_path(path: &str) -> (r: Option<String>)
    ensures
        match r {
            Some(s) => path_extension(path@) == Some(s@),
            None => path_extension(path@) is None,
        },
{
    std::path::Path::new(path).extension().map(|p| p.to_string_lossy().into_owned())
}

/// `Path::join`: `rest` appended to `base` (or `rest` alone when absolute).
#[verifier::external_body]
pub(crate) fn join_path(base: &str, rest: &str) -> (r: String)
    ensures
        r@ == path_join(base@, rest@),
{
    std::path::Path::new(base).join(rest).to_string_lossy().into_owned()
}

/// `Path::is_absolute`.
#[verifier::external_body]
pub(crate) fn is_absolute_path(path: &str) -> (r: bool)
    ensures
        r == path_is_absolute(path@),
{
    std::path::Path::new(path).is_absolute()
}

/// A directory path trimmed and without trailing slashes.
pub open spec fn normalized_dir(path: Seq<char>) -> Seq<char> {
    trim_end_char(trim(path), '/')
}

fn normalize_dir_chars(path: &str) -> (r: Vec<char>)
    ensures
        r@ == normalized_dir(path@),
{
    let t = trim_chars(chars_of(path).as_slice());
    trim_end_char_chars(t.as_slice(), '/')
}

/// `normalize_directory_path`: trimmed, trailing '/' removed.
pub fn normalize_directory_path(path: &str) -> (r: String)
    ensures
        r@ == normalized_dir(path@),
{
    string_of(normalize_dir_chars(path).as_slice())
}

/// `normalize_import_path`: trimmed, trailing '/' removed.
pub fn normalize_import_path(path: &str) -> (r: String)
    ensures
        r@ == normalized_dir(path@),
{
    normalize_directory_path(path)
}

/// The directory is the virtual directory of imported files.
pub open spec fn is_virtual(path: Seq<char>) -> bool {
    starts_with(normalized_dir(path), "virtual://"@)
}

/// `is_virtual_directory`.
pub fn is_virtual_directory(path: &str) -> (r: bool)
    ensures
        r == is_virtual(path@),
{
    let n = normalize_dir_chars(path);
    has_prefix(n.as_slice(), chars_of("virtual://").as_slice())
}

/// `path` is the directory `dir` or lies below it.
pub open spec fn within_dir(path: Seq<char>, dir: Seq<char>) -> bool {
    let p = normalized_dir(path);
    let d = normalized_dir(dir);
    p == d || starts_with(p, d.push('/'))
}

/// `is_path_within_dir`.
pub fn is_path_within_dir(path: &str, dir: &str) -> (r: bool)
    ensures
        r == within_dir(path@, dir@),
{
    let p = normalize_dir_chars(path);
    let d = normalize_dir_chars(dir);
    if crate::text::chars_eq(p.as_slice(), d.as_slice()) {
        return true;
    }
    let mut ds = d.clone();
    ds.push('/');
    has_prefix(p.as_slice(), ds.as_slice())
}

/// The parent directory of `path`, or "" when it has none.
pub open spec fn parent_or_empty(path: Seq<char>) -> Seq<char> {
    match path_parent(path) {
        Some(p) => p,
        None => Seq::empty(),
    }
}

/// `parent_dir_path`.
pub fn parent_dir_path(path: &str) -> (r: String)
    ensures
        r@ == parent_or_empty(path@),
        r@.len() < path@.len() || r@.len() == 0,
{
    match parent_of(path) {
        Some(p) => p,
        None => String::new(),
    }
}

/// The lowercase extension of `path`, or "".
pub open spec fn extension_lower(path: Seq<char>) -> Seq<char> {
    match path_extension(path) {
        Some(e) => lowercase(e),
        None => lowercase(Seq::empty()),
    }
}

/// `extension`: the lowercase extension of a path ("" when it has none).
pub fn extension(path: &str) -> (r: String)
    ensures
        r@ == extension_lower(path@),
{
    let e = extension_of_path(path);
    match e {
        Some(x) => {
            let r = crate::text::lowercase_str(x.as_str());
            proof {
                assert(path_extension(path@) == Some(x@));
            }
            r
        },
        None => {
            let empty = String::new();
            let r = crate::text::lowercase_str(empty.as_str());
            proof {
                assert(empty@ =~= Seq::<char>::empty());
            }
            r
        },
    }
}

/// Index of the enabled directory that owns `path`: the longest one that is
/// a prefix of it (the last of several equally long ones).
pub open spec fn owner_index(path: Seq<char>, dirs: Seq<Seq<char>>) -> Option<int>
    decreases dirs.len(),
{
    if dirs.len() == 0 {
        None
    } else {
        let rest = owner_index(path, dirs.drop_last());
        let i = dirs.len() - 1;
        if starts_with(path, dirs[i]) && match rest {
            Some(j) => dirs[j].len() <= dirs[i].len(),
            None => true,
        } {
            Some(i)
        } else {
            rest
        }
    }
}

proof fn lemma_owner_index_bound(path: Seq<char>, dirs: Seq<Seq<char>>)
    ensures
        match owner_index(path, dirs) {
            Some(j) => 0 <= j < dirs.len(),
            None => true,
        },
    decreases dirs.len(),
{
    if dirs.len() > 0 {
        lemma_owner_index_bound(path, dirs.drop_last());
        let rest = owner_index(path, dirs.drop_last());
        match rest {
            Some(j) => {
                assert(dirs.drop_last()[j] == dirs[j]);
            },
            None => {},
        }
    }
}

/// The index directory that a file belongs to (`retry_failed_file`): the
/// longest enabled directory whose path is a prefix of the file's path.
pub fn owning_index_dir(path: &str, dirs: &[String]) -> (r: Option<String>)
    ensures
        match owner_index(path@, string_views(dirs@)) {
            Some(j) => r is Some && r->0@ == string_views(dirs@)[j],
            None => r is None,
        },
{
    let ghost dv = string_views(dirs@);
    let p = chars_of(path);
    let mut best: Option<usize> = None;
    let mut best_len: usize = 0;
    let mut i: usize = 0;
    while i < dirs.len()
        invariant
            i <= dirs@.len(),
            dv == string_views(dirs@),
            p@ == path@,
            best == match owner_index(path@, dv.take(i as int)) {
                Some(j) => Some(j as usize),
                None => None::<usize>,
            },
            match owner_index(path@, dv.take(i as int)) {
                Some(j) => 0 <= j < i && best_len == dv[j].len(),
                None => true,
            },
        decreases dirs@.len() - i,
    {
        let d = chars_of(dirs[i].as_str());
        proof {
            let t = dv.take(i + 1);
            assert(t.drop_last() =~= dv.take(i as int));
            assert(t[i as int] == d@);
            lemma_owner_index_bound(path@, dv.take(i as int));
            match owner_index(path@, dv.take(i as int)) {
                Some(j) => {
                    assert(t[j] == dv[j]);
                },
                None => {},
            }
        }
        if has_prefix(p.as_slice(), d.as_slice()) && (match best {
            Some(_) => best_len <= d.len(),
            None => true,
        }) {
            best = Some(i);
            best_len = d.len();
        }
        i += 1;
    }
    proof {
        assert(dv.take(dirs@.len() as int) =~= dv);
    }
    match best {
        Some(j) => Some(dirs[j].clone()),
        None => None,
    }
}

/// Where a preview block's asset lives: URLs, data and absolute paths as
/// they are; other paths relative to the document's directory.
pub open spec fn resolved_asset(asset: Seq<char>, document_path: Seq<char>) -> Seq<char> {
    let cleaned = trim(asset);
    if cleaned.len() == 0 {
        Seq::empty()
    } else if starts_with(cleaned, "http://"@) || starts_with(cleaned, "https://"@) || starts_with(
        cleaned,
        "data:"@,
    ) || starts_with(cleaned, "blob:"@) || starts_with(cleaned, "file:"@) || path_is_absolute(
        cleaned,
    ) {
        cleaned
    } else {
        path_join(
            match path_parent(document_path) {
                Some(p) => p,
                None => document_path,
            },
            cleaned,
        )
    }
}

/// `resolve_preview_asset_path`.
pub fn resolve_preview_asset_path(asset_path: &str, document_path: &str) -> (r: String)
    ensures
        r@ == resolved_asset(asset_path@, document_path@),
{
    let c = trim_chars(chars_of(asset_path).as_slice());
    if c.len() == 0 {
        return String::new();
    }
    let cs = string_of(c.as_slice());
    if has_prefix(c.as_slice(), chars_of("http://").as_slice()) || has_prefix(
        c.as_slice(),
        chars_of("https://").as_slice(),
    ) || has_prefix(c.as_slice(), chars_of("data:").as_slice()) || has_prefix(
        c.as_slice(),
        chars_of("blob:").as_slice(),
    ) || has_prefix(c.as_slice(), chars_of("file:").as_slice()) || is_absolute_path(cs.as_str()) {
        return cs;
    }
    let base = match parent_of(document_path) {
        Some(p) => p,
        None => document_path.to_owned(),
    };
    join_path(base.as_str(), cs.as_str())
}

} // verus!
