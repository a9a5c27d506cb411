//! Resetting the local storage: which directories are removed, each once.
use vstd::prelude::*;
use crate::paths::{join_path, parent_of, path_join, path_parent};
use crate::sidecar::{database_file, fulltext_dir_of, fulltext_index_dir, opt_view, sqlite_database_path};
use crate::text::{trim, trim_str};

verus! {

/// A directory to remove and what it holds.
pub type ResetTarget = (Seq<char>, Seq<char>);

/// A target for a directory that may be missing.
pub open spec fn opt_target(dir: Option<Seq<char>>, label: Seq<char>) -> Seq<ResetTarget> {
    match dir {
        Some(d) => seq![(d, label)],
        None => Seq::empty(),
    }
}

/// The embedding cache root: the parent of the configured cache directory
/// (the directory itself when it has none), when one is configured.
pub open spec fn fastembed_target(setting: Option<Seq<char>>) -> Seq<ResetTarget> {
    match setting {
        Some(s) => if trim(s).len() > 0 {
            match path_parent(trim(s)) {
                Some(p) => seq![(p, "fastembed cache root"@)],
                None => seq![(trim(s), "fastembed cache root"@)],
            }
        } else {
            Seq::empty()
        },
        None => Seq::empty(),
    }
}

/// The directories a reset removes, in order: the database's folder, the
/// data and cache folders of earlier versions, the full-text index's
/// folder, and the embedding cache root.
pub open spec fn reset_targets_of(
    data_dir: Option<Seq<char>>,
    cache_dir: Option<Seq<char>>,
    fulltext_setting: Option<Seq<char>>,
    fastembed_setting: Option<Seq<char>>,
) -> Seq<ResetTarget> {
    opt_target(path_parent(database_file(data_dir)), "sqlite data root"@)
        + match data_dir {
            Some(d) => seq![
                (path_join(d, "SeekMindDev"@), "legacy dev data root"@),
                (path_join(d, "SeekMind"@), "legacy release data root"@),
            ],
            None => Seq::empty(),
        }
        + match cache_dir {
            Some(c) => seq![
                (path_join(c, "com.zhaoyang.SeekMind.dev"@), "legacy dev tantivy cache root"@),
                (path_join(c, "com.zhaoyang.seekmind"@), "legacy release tantivy cache root"@),
            ],
            None => Seq::empty(),
        }
        + opt_target(
            path_parent(fulltext_dir_of(fulltext_setting, data_dir)),
            "active tantivy cache root"@,
        )
        + fastembed_target(fastembed_setting)
}

/// The targets as plain values.
pub open spec fn targets_view(v: Seq<(String, String)>) -> Seq<ResetTarget> {
    v.map_values(|t: (String, String)| (t.0@, t.1@))
}

fn push_target(out: &mut Vec<(String, String)>, dir: String, label: &str)
    ensures
        targets_view(final(out)@) == targets_view(old(out)@).push((dir@, label@)),
{
    out.push((dir, label.to_owned()));
    assert(targets_view(out@) =~= targets_view(old(out)@).push((dir@, label@)));
}

fn push_opt_target(out: &mut Vec<(String, String)>, dir: Option<String>, label: &str)
    ensures
        targets_view(final(out)@) == targets_view(old(out)@) + opt_target(opt_view(dir), label@),
{
    match dir {
        Some(d) => {
            push_target(out, d, label);
            assert(targets_view(out@) =~= targets_view(old(out)@) + opt_target(opt_view(Some(d)), label@));
        },
        None => {
            assert(targets_view(old(out)@) + Seq::<ResetTarget>::empty() =~= targets_view(old(out)@));
        },
    }
}

/// The directories a reset removes, from the user's data and cache
/// directories and the full-text and embedding cache settings (see
/// `reset_targets_of`).
pub fn reset_target_dirs(
    data_dir: Option<String>,
    cache_dir: Option<String>,
    fulltext_setting: Option<String>,
    fastembed_setting: Option<String>,
) -> (r: Vec<(String, String)>)
    ensures
        targets_view(r@) == reset_targets_of(
            opt_view(data_dir),
            opt_view(cache_dir),
            opt_view(fulltext_setting),
            opt_view(fastembed_setting),
        ),
{
    let ghost dv = opt_view(data_dir);
    let ghost cv = opt_view(cache_dir);
    let mut out: Vec<(String, String)> = Vec::new();
    let db = sqlite_database_path(data_dir.clone());
    push_opt_target(&mut out, parent_of(db.as_str()), "sqlite data root");
    let ghost a = targets_view(out@);
    if let Some(d) = &data_dir {
        push_target(&mut out, join_path(d.as_str(), "SeekMindDev"), "legacy dev data root");
        push_target(&mut out, join_path(d.as_str(), "SeekMind"), "legacy release data root");
    }
    let ghost b = targets_view(out@);
    assert(b =~= a + match dv {
        Some(d) => seq![
            (path_join(d, "SeekMindDev"@), "legacy dev data root"@),
            (path_join(d, "SeekMind"@), "legacy release data root"@),
        ],
        None => Seq::<ResetTarget>::empty(),
    });
    if let Some(c) = &cache_dir {
        push_target(&mut out, join_path(c.as_str(), "com.zhaoyang.SeekMind.dev"), "legacy dev tantivy cache root");
        push_target(&mut out, join_path(c.as_str(), "com.zhaoyang.seekmind"), "legacy release tantivy cache root");
    }
    let ghost c2 = targets_view(out@);
    assert(c2 =~= b + match cv {
        Some(c) => seq![
            (path_join(c, "com.zhaoyang.SeekMind.dev"@), "legacy dev tantivy cache root"@),
            (path_join(c, "com.zhaoyang.seekmind"@), "legacy release tantivy cache root"@),
        ],
        None => Seq::<ResetTarget>::empty(),
    });
    let index_dir = fulltext_index_dir(fulltext_setting, data_dir);
    push_opt_target(&mut out, parent_of(index_dir.as_str()), "active tantivy cache root");
    let ghost d2 = targets_view(out@);
    match &fastembed_setting {
        Some(s) => {
            let t = trim_str(s.as_str());
            if !t.as_str().is_empty() {
                match parent_of(t.as_str()) {
                    Some(p) => push_target(&mut out, p, "fastembed cache root"),
                    None => push_target(&mut out, t, "fastembed cache root"),
                }
            } else {
                assert(targets_view(out@) =~= d2 + fastembed_target(opt_view(fastembed_setting)));
            }
        },
        None => {
            assert(targets_view(out@) =~= d2 + fastembed_target(opt_view(fastembed_setting)));
        },
    }
    assert(targets_view(out@) =~= d2 + fastembed_target(opt_view(fastembed_setting)));
    out
}

/// The targets with each directory kept once, at its first place.
pub open spec fn unique_targets(t: Seq<ResetTarget>) -> Seq<ResetTarget>
    decreases t.len(),
{
    if t.len() == 0 {
        Seq::empty()
    } else {
        let prev = unique_targets(t.drop_last());
        if exists|k: int| 0 <= k < prev.len() && prev[k].0 == t.last().0 { prev } else { prev.push(t.last()) }
    }
}

/// The directories a reset removes, each once (see `unique_targets`).
pub fn reset_removal_order(targets: &Vec<(String, String)>) -> (r: Vec<(String, String)>)
    ensures
        targets_view(r@) == unique_targets(targets_view(targets@)),
{
    let ghost tv = targets_view(targets@);
    let mut out: Vec<(String, String)> = Vec::new();
    let mut i: usize = 0;
    while i < targets.len()
        invariant
            i <= targets@.len(),
            tv == targets_view(targets@),
            targets_view(out@) == unique_targets(tv.take(i as int)),
        decreases targets@.len() - i,
    {
        proof {
            assert(tv.take(i + 1).drop_last() =~= tv.take(i as int));
            assert(tv.take(i + 1).last() == tv[i as int]);
        }
        let ghost ov = targets_view(out@);
        let mut j: usize = 0;
        let mut seen = false;
        while j < out.len() && !seen
            invariant
                j <= out@.len(),
                i < targets@.len(),
                ov == targets_view(out@),
                seen ==> j > 0 && ov[j - 1].0 == targets@[i as int].0@,
                !seen ==> forall|k: int| 0 <= k < j ==> ov[k].0 != targets@[i as int].0@,
            decreases out@.len() - j,
        {
            if out[j].0 == targets[i].0 {
                seen = true;
            }
            j += 1;
        }
        if !seen {
            push_target(&mut out, targets[i].0.clone(), targets[i].1.as_str());
        }
        i += 1;
    }
    assert(tv.take(targets@.len() as int) =~= tv);
    out
}

/// Every directory of the targets is removed, and none twice.
pub proof fn law_each_directory_removed_once(t: Seq<ResetTarget>)
    ensures
        forall|i: int, j: int| 0 <= i < j < unique_targets(t).len() ==> unique_targets(t)[i].0 != unique_targets(t)[j].0,
        forall|k: int| 0 <= k < t.len() ==> exists|m: int| 0 <= m < unique_targets(t).len() && unique_targets(t)[m].0 == (#[trigger] t[k]).0,
    decreases t.len(),
{
    if t.len() > 0 {
        let s = t.drop_last();
        law_each_directory_removed_once(s);
        let prev = unique_targets(s);
        let u = unique_targets(t);
        assert forall|k: int| 0 <= k < t.len() implies exists|m: int| 0 <= m < u.len() && u[m].0 == (#[trigger] t[k]).0 by {
            if k < s.len() {
                assert(s[k] == t[k]);
                let m = choose|m: int| 0 <= m < prev.len() && prev[m].0 == (#[trigger] s[k]).0;
                assert(u[m] == prev[m]);
            } else if exists|q: int| 0 <= q < prev.len() && prev[q].0 == t.last().0 {
                let q = choose|q: int| 0 <= q < prev.len() && prev[q].0 == t.last().0;
                assert(u[q] == prev[q]);
            } else {
                assert(u[prev.len() as int] == t.last());
            }
        }
    }
}

} // verus!
