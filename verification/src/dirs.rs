//! The tree of index directories shown to the user: explicit directories,
//! the virtual import directory, and every directory between a document
//! and the index directory holding it, with document and chunk counts.
use vstd::prelude::*;
use crate::models::IndexDirView;
use crate::paths::{is_path_within_dir, is_virtual, is_virtual_directory, normalize_directory_path, normalized_dir, within_dir};
use crate::text::{chars_of, str_eq, string_views, trim, trim_str};

verus! {

// ---------------------------------------------------------------------------
// Ordering of paths: by UTF-8 length, then by code points
// ---------------------------------------------------------------------------

/// The number of UTF-8 bytes of a character.
pub open spec fn utf8_width(c: char) -> nat {
    if (c as u32) < 0x80 {
        1
    } else if (c as u32) < 0x800 {
        2
    } else if (c as u32) < 0x10000 {
        3
    } else {
        4
    }
}

/// The number of UTF-8 bytes of a string (`String::len`).
pub open spec fn utf8_len(s: Seq<char>) -> nat
    decreases s.len(),
{
    if s.len() == 0 {
        0
    } else {
        utf8_len(s.drop_last()) + utf8_width(s.last())
    }
}

/// `a` sorts before `b` character by character (the order of `str`).
pub open spec fn lex_lt(a: Seq<char>, b: Seq<char>) -> bool
    decreases a.len(),
{
    if a.len() == 0 {
        b.len() > 0
    } else if b.len() == 0 {
        false
    } else if a[0] != b[0] {
        a[0] < b[0]
    } else {
        lex_lt(a.drop_first(), b.drop_first())
    }
}

/// Paths are listed shorter first (in bytes), then in string order.
pub open spec fn path_before(a: Seq<char>, b: Seq<char>) -> bool {
    utf8_len(a) < utf8_len(b) || (utf8_len(a) == utf8_len(b) && lex_lt(a, b))
}

pub proof fn lemma_lex_irrefl(a: Seq<char>)
    ensures
        !lex_lt(a, a),
    decreases a.len(),
{
    if a.len() > 0 {
        lemma_lex_irrefl(a.drop_first());
    }
}

pub proof fn lemma_lex_trans(a: Seq<char>, b: Seq<char>, c: Seq<char>)
    requires
        lex_lt(a, b),
        lex_lt(b, c),
    ensures
        lex_lt(a, c),
    decreases a.len(),
{
    if a.len() > 0 && b.len() > 0 && c.len() > 0 && a[0] == b[0] && b[0] == c[0] {
        lemma_lex_trans(a.drop_first(), b.drop_first(), c.drop_first());
    }
}

pub proof fn lemma_lex_total(a: Seq<char>, b: Seq<char>)
    ensures
        a == b || lex_lt(a, b) || lex_lt(b, a),
    decreases a.len(),
{
    if a.len() > 0 && b.len() > 0 && a[0] == b[0] {
        lemma_lex_total(a.drop_first(), b.drop_first());
        if a.drop_first() == b.drop_first() {
            assert(a =~= seq![a[0]] + a.drop_first());
            assert(b =~= seq![b[0]] + b.drop_first());
        }
    } else if a.len() == 0 && b.len() == 0 {
        assert(a =~= b);
    }
}

proof fn lemma_lex_asym(a: Seq<char>, b: Seq<char>)
    requires
        lex_lt(a, b),
    ensures
        !lex_lt(b, a),
{
    if lex_lt(b, a) {
        lemma_lex_trans(a, b, a);
        lemma_lex_irrefl(a);
    }
}

/// `path_before` is a strict total order.
pub proof fn lemma_path_order(a: Seq<char>, b: Seq<char>, c: Seq<char>)
    ensures
        !path_before(a, a),
        path_before(a, b) ==> !path_before(b, a),
        path_before(a, b) && path_before(b, c) ==> path_before(a, c),
        a == b || path_before(a, b) || path_before(b, a),
{
    lemma_lex_irrefl(a);
    lemma_lex_total(a, b);
    if path_before(a, b) && utf8_len(a) == utf8_len(b) {
        lemma_lex_asym(a, b);
    }
    if path_before(a, b) && path_before(b, c) && utf8_len(a) == utf8_len(b) && utf8_len(b) == utf8_len(c) {
        lemma_lex_trans(a, b, c);
    }
}

fn utf8_len_of(s: &[char]) -> (r: u128)
    ensures
        r == utf8_len(s@),
{
    let mut total: u128 = 0;
    let mut i: usize = 0;
    while i < s.len()
        invariant
            i <= s@.len(),
            total == utf8_len(s@.take(i as int)),
            total <= 4 * i,
        decreases s@.len() - i,
    {
        let c = s[i];
        let w: u128 = if (c as u32) < 0x80 { 1 } else if (c as u32) < 0x800 { 2 } else if (c as u32) < 0x10000 { 3 } else { 4 };
        assert(s@.take(i + 1).drop_last() =~= s@.take(i as int));
        total = total + w;
        i += 1;
    }
    assert(s@.take(i as int) =~= s@);
    total
}

pub(crate) fn lex_less(a: &[char], b: &[char]) -> (r: bool)
    ensures
        r == lex_lt(a@, b@),
{
    let mut i: usize = 0;
    assert(a@.skip(0) =~= a@);
    assert(b@.skip(0) =~= b@);
    while i < a.len() && i < b.len() && a[i] == b[i]
        invariant
            i <= a@.len(),
            i <= b@.len(),
            lex_lt(a@, b@) == lex_lt(a@.skip(i as int), b@.skip(i as int)),
        decreases a@.len() - i,
    {
        assert(a@.skip(i as int).drop_first() =~= a@.skip(i + 1));
        assert(b@.skip(i as int).drop_first() =~= b@.skip(i + 1));
        i += 1;
    }
    if i == a.len() {
        i < b.len()
    } else if i == b.len() {
        false
    } else {
        a[i] < b[i]
    }
}

fn before(a: &str, b: &str) -> (r: bool)
    ensures
        r == path_before(a@, b@),
{
    let ac = chars_of(a);
    let bc = chars_of(b);
    let la = utf8_len_of(ac.as_slice());
    let lb = utf8_len_of(bc.as_slice());
    la < lb || (la == lb && lex_less(ac.as_slice(), bc.as_slice()))
}

// ---------------------------------------------------------------------------
// Insertion sort by path
// ---------------------------------------------------------------------------

/// Where `x` goes in `s`: before the first element it sorts before.
pub open spec fn insert_pos(s: Seq<Seq<char>>, x: Seq<char>, k: int) -> int
    decreases s.len() - k,
{
    if k < 0 || k >= s.len() {
        s.len() as int
    } else if path_before(x, s[k]) {
        k
    } else {
        insert_pos(s, x, k + 1)
    }
}

/// The paths sorted by `path_before` (insertion sort; equal paths keep
/// their order).
pub open spec fn sort_paths(s: Seq<Seq<char>>) -> Seq<Seq<char>>
    decreases s.len(),
{
    if s.len() == 0 {
        s
    } else {
        let t = sort_paths(s.drop_last());
        t.insert(insert_pos(t, s.last(), 0), s.last())
    }
}

proof fn lemma_insert_pos_bounds(s: Seq<Seq<char>>, x: Seq<char>, k: int)
    requires
        0 <= k <= s.len(),
    ensures
        k <= insert_pos(s, x, k) <= s.len(),
        forall|j: int| k <= j < insert_pos(s, x, k) ==> !path_before(x, #[trigger] s[j]),
        insert_pos(s, x, k) < s.len() ==> path_before(x, s[insert_pos(s, x, k)]),
    decreases s.len() - k,
{
    if k < s.len() && !path_before(x, s[k]) {
        lemma_insert_pos_bounds(s, x, k + 1);
    }
}

fn find_insert_pos(v: &Vec<String>, x: &str) -> (r: usize)
    ensures
        r as int == insert_pos(string_views(v@), x@, 0),
{
    let ghost sv = string_views(v@);
    let mut k: usize = 0;
    while k < v.len() && !before(x, v[k].as_str())
        invariant
            k <= v@.len(),
            sv == string_views(v@),
            insert_pos(sv, x@, 0) == insert_pos(sv, x@, k as int),
        decreases v@.len() - k,
    {
        k += 1;
    }
    k
}

/// Sorts paths (see `sort_paths`).
pub fn sorted_paths(paths: &Vec<String>) -> (r: Vec<String>)
    ensures
        string_views(r@) == sort_paths(string_views(paths@)),
{
    let ghost pv = string_views(paths@);
    let mut out: Vec<String> = Vec::new();
    let mut i: usize = 0;
    while i < paths.len()
        invariant
            i <= paths@.len(),
            pv == string_views(paths@),
            string_views(out@) == sort_paths(pv.take(i as int)),
        decreases paths@.len() - i,
    {
        proof {
            assert(pv.take(i + 1).drop_last() =~= pv.take(i as int));
            assert(pv.take(i + 1).last() == paths@[i as int]@);
        }
        let k = find_insert_pos(&out, paths[i].as_str());
        proof {
            lemma_insert_pos_bounds(string_views(out@), paths@[i as int]@, 0);
        }
        let ghost before_out = string_views(out@);
        out.insert(k, paths[i].clone());
        assert(string_views(out@) =~= before_out.insert(k as int, paths@[i as int]@));
        i += 1;
    }
    assert(pv.take(i as int) =~= pv);
    out
}

/// A sorted list stays sorted when an element is put at its place.
proof fn lemma_sorted_insert(s: Seq<Seq<char>>, x: Seq<char>)
    requires
        forall|a: int, b: int| 0 <= a < b < s.len() ==> !path_before(#[trigger] s[b], #[trigger] s[a]),
    ensures
        ({
            let t = s.insert(insert_pos(s, x, 0), x);
            forall|a: int, b: int| 0 <= a < b < t.len() ==> !path_before(#[trigger] t[b], #[trigger] t[a])
        }),
{
    let p = insert_pos(s, x, 0);
    lemma_insert_pos_bounds(s, x, 0);
    let t = s.insert(p, x);
    assert forall|a: int, b: int| 0 <= a < b < t.len() implies !path_before(#[trigger] t[b], #[trigger] t[a]) by {
        if a < p && b == p {
            lemma_path_order(x, s[a], s[a]);
        } else if a == p && b > p {
            lemma_path_order(s[b - 1], x, s[p]);
            if p < s.len() && b - 1 > p {
                lemma_path_order(s[b - 1], s[p], x);
            }
        } else if a < p && b > p {
            assert(t[a] == s[a] && t[b] == s[b - 1]);
        } else if b < p {
            assert(t[a] == s[a] && t[b] == s[b]);
        } else {
            assert(t[a] == s[a - 1] && t[b] == s[b - 1]);
        }
    }
}

/// The sorted paths are in order.
pub proof fn lemma_sort_paths_sorted(s: Seq<Seq<char>>)
    ensures
        forall|a: int, b: int| 0 <= a < b < sort_paths(s).len() ==> !path_before(
            #[trigger] sort_paths(s)[b],
            #[trigger] sort_paths(s)[a],
        ),
        sort_paths(s).len() == s.len(),
    decreases s.len(),
{
    if s.len() > 0 {
        lemma_sort_paths_sorted(s.drop_last());
        lemma_sorted_insert(sort_paths(s.drop_last()), s.last());
        lemma_insert_pos_bounds(sort_paths(s.drop_last()), s.last(), 0);
    }
}

// ---------------------------------------------------------------------------
// Aggregation
// ---------------------------------------------------------------------------

/// A directory of the tree as plain values.
pub struct NodeView {
    pub path: Seq<char>,
    pub enabled: bool,
    pub docs: nat,
    pub chunks: nat,
    pub status: Seq<char>,
    pub explicit: bool,
}

/// The plain view of a directory row.
pub open spec fn node_view(n: IndexDirView) -> NodeView {
    NodeView {
        path: n.path@,
        enabled: n.enabled,
        docs: n.docs as nat,
        chunks: n.chunks as nat,
        status: n.status@,
        explicit: n.is_explicit,
    }
}

/// The plain views of directory rows.
pub open spec fn nodes_view(v: Seq<IndexDirView>) -> Seq<NodeView> {
    v.map_values(|n: IndexDirView| node_view(n))
}

/// The position of the directory `p` among `nodes`, if it is there.
pub open spec fn find_path(nodes: Seq<NodeView>, p: Seq<char>, k: int) -> Option<int>
    decreases nodes.len() - k,
{
    if k < 0 || k >= nodes.len() {
        None
    } else if nodes[k].path == p {
        Some(k)
    } else {
        find_path(nodes, p, k + 1)
    }
}

/// No directory occurs twice.
pub open spec fn unique_paths(nodes: Seq<NodeView>) -> bool {
    forall|i: int, j: int| 0 <= i < j < nodes.len() ==> nodes[i].path != nodes[j].path
}

/// One more document of `chunks` chunks counted in the directory `p`; a new
/// directory starts with the given flags and status.
pub open spec fn count_in(
    nodes: Seq<NodeView>,
    p: Seq<char>,
    enabled: bool,
    status: Seq<char>,
    explicit: bool,
    chunks: nat,
) -> Seq<NodeView> {
    match find_path(nodes, p, 0) {
        Some(i) => nodes.update(i, NodeView { docs: nodes[i].docs + 1, chunks: nodes[i].chunks + chunks, ..nodes[i] }),
        None => nodes.push(NodeView { path: p, enabled, docs: 1, chunks, status, explicit }),
    }
}

/// An explicit directory set (or reset) from its row.
pub open spec fn set_explicit(nodes: Seq<NodeView>, p: Seq<char>, enabled: bool, status: Seq<char>) -> Seq<NodeView> {
    let n = NodeView { path: p, enabled, docs: 0, chunks: 0, status, explicit: true };
    match find_path(nodes, p, 0) {
        Some(i) => nodes.update(i, n),
        None => nodes.push(n),
    }
}

/// The explicit directories of the rows (path, enabled, status), paths
/// normalized; a later row of the same directory replaces an earlier one.
pub open spec fn explicit_nodes(rows: Seq<(Seq<char>, bool, Seq<char>)>) -> Seq<NodeView>
    decreases rows.len(),
{
    if rows.len() == 0 {
        Seq::empty()
    } else {
        let r = rows.last();
        set_explicit(explicit_nodes(rows.drop_last()), normalized_dir(r.0), r.1, r.2)
    }
}

/// The parent of a normalized directory, normalized ("" when it has none).
pub open spec fn parent_norm(p: Seq<char>) -> Seq<char> {
    normalized_dir(crate::paths::parent_or_empty(p))
}

/// A document of `chunks` chunks counted in `current` and each directory
/// above it, up to the index directory `root`.
pub open spec fn walk(nodes: Seq<NodeView>, current: Seq<char>, root: Seq<char>, chunks: nat) -> Seq<NodeView>
    decreases current.len(),
{
    if !within_dir(current, root) && current != root {
        nodes
    } else {
        let counted = count_in(nodes, current, false, "empty"@, false, chunks);
        let parent = parent_norm(current);
        if current == root || parent.len() == 0 || parent == current || parent.len() >= current.len() {
            counted
        } else {
            walk(counted, parent, root, chunks)
        }
    }
}

/// A document (path, the directory it was indexed under, chunks) counted
/// under each index directory in `roots` that holds it: a virtual directory
/// holds the documents indexed under it, any other the documents below it.
pub open spec fn count_document(
    nodes: Seq<NodeView>,
    roots: Seq<Seq<char>>,
    doc_path: Seq<char>,
    doc_dir: Seq<char>,
    chunks: nat,
) -> Seq<NodeView>
    decreases roots.len(),
{
    if roots.len() == 0 {
        nodes
    } else {
        let prev = count_document(nodes, roots.drop_last(), doc_path, doc_dir, chunks);
        let root = roots.last();
        if is_virtual(root) {
            if doc_dir == root { count_in(prev, root, true, "indexed"@, true, chunks) } else { prev }
        } else if within_dir(doc_path, root) {
            walk(prev, parent_norm(doc_path), root, chunks)
        } else {
            prev
        }
    }
}

/// All documents (path, directory, chunks) counted, in order; a document
/// without a path or a parent directory counts nowhere.
pub open spec fn count_documents(
    nodes: Seq<NodeView>,
    roots: Seq<Seq<char>>,
    docs: Seq<(Seq<char>, Seq<char>, nat)>,
) -> Seq<NodeView>
    decreases docs.len(),
{
    if docs.len() == 0 {
        nodes
    } else {
        let prev = count_documents(nodes, roots, docs.drop_last());
        let d = docs.last();
        let path = normalized_dir(d.0);
        if path.len() == 0 || parent_norm(path).len() == 0 {
            prev
        } else {
            count_document(prev, roots, path, d.1, d.2)
        }
    }
}

proof fn lemma_find_path(nodes: Seq<NodeView>, p: Seq<char>, k: int)
    requires
        0 <= k,
    ensures
        match find_path(nodes, p, k) {
            Some(i) => k <= i < nodes.len() && nodes[i].path == p && forall|j: int| k <= j < i ==> nodes[j].path != p,
            None => forall|j: int| k <= j < nodes.len() ==> nodes[j].path != p,
        },
    decreases nodes.len() - k,
{
    if k < nodes.len() && nodes[k].path != p {
        lemma_find_path(nodes, p, k + 1);
    }
}

fn find_node(nodes: &Vec<IndexDirView>, p: &str) -> (r: Option<usize>)
    ensures
        match find_path(nodes_view(nodes@), p@, 0) {
            Some(i) => r is Some && r.unwrap() as int == i,
            None => r is None,
        },
{
    let ghost nv = nodes_view(nodes@);
    let key = p.to_owned();
    let mut k: usize = 0;
    while k < nodes.len() && !(nodes[k].path == key)
        invariant
            k <= nodes@.len(),
            nv == nodes_view(nodes@),
            key@ == p@,
            find_path(nv, p@, 0) == find_path(nv, p@, k as int),
        decreases nodes@.len() - k,
    {
        k += 1;
    }
    if k < nodes.len() { Some(k) } else { None }
}

fn new_node(p: &str, enabled: bool, docs: usize, chunks: usize, status: &str, explicit: bool) -> (r: IndexDirView)
    ensures
        node_view(r) == (NodeView { path: p@, enabled, docs: docs as nat, chunks: chunks as nat, status: status@, explicit }),
{
    IndexDirView { path: p.to_owned(), enabled, docs, chunks, status: status.to_owned(), is_explicit: explicit }
}

fn set_explicit_exec(nodes: &mut Vec<IndexDirView>, p: &str, enabled: bool, status: &str)
    requires
        unique_paths(nodes_view(old(nodes)@)),
    ensures
        nodes_view(final(nodes)@) == set_explicit(nodes_view(old(nodes)@), p@, enabled, status@),
        unique_paths(nodes_view(final(nodes)@)),
        final(nodes)@.len() >= old(nodes)@.len(),
        forall|k: int| 0 <= k < final(nodes)@.len() ==> (k < old(nodes)@.len() && #[trigger] final(nodes)@[k] == old(nodes)@[k])
            || (final(nodes)@[k].docs == 0 && final(nodes)@[k].chunks == 0),
{
    let ghost before = nodes_view(nodes@);
    proof {
        lemma_find_path(before, p@, 0);
    }
    let n = new_node(p, enabled, 0, 0, status, true);
    let ghost nv = node_view(n);
    assert(nv == NodeView { path: p@, enabled, docs: 0, chunks: 0, status: status@, explicit: true });
    match find_node(nodes, p) {
        Some(i) => {
            nodes.set(i, n);
            assert(nodes_view(nodes@) =~= before.update(i as int, nv));
            assert(set_explicit(before, p@, enabled, status@) == before.update(i as int, nv));
        },
        None => {
            nodes.push(n);
            assert(nodes_view(nodes@) =~= before.push(nv));
            assert(set_explicit(before, p@, enabled, status@) == before.push(nv));
        },
    }
}

/// A stored index directory.
#[derive(Debug, Clone)]
pub struct IndexDirRow {
    pub path: String,
    pub enabled: i64,
    pub docs: i64,
    pub chunks: i64,
    pub status: String,
}

/// (path, enabled, status) of stored index directories.
pub open spec fn dir_rows_view(rows: Seq<IndexDirRow>) -> Seq<(Seq<char>, bool, Seq<char>)> {
    rows.map_values(|r: IndexDirRow| (r.path@, r.enabled != 0, r.status@))
}

fn explicit_nodes_exec(rows: &Vec<IndexDirRow>) -> (r: Vec<IndexDirView>)
    ensures
        nodes_view(r@) == explicit_nodes(dir_rows_view(rows@)),
        unique_paths(nodes_view(r@)),
        forall|i: int| 0 <= i < r@.len() ==> (#[trigger] r@[i]).docs == 0 && r@[i].chunks == 0,
{
    let ghost rv = dir_rows_view(rows@);
    let mut nodes: Vec<IndexDirView> = Vec::new();
    let mut i: usize = 0;
    while i < rows.len()
        invariant
            i <= rows@.len(),
            rv == dir_rows_view(rows@),
            nodes_view(nodes@) == explicit_nodes(rv.take(i as int)),
            unique_paths(nodes_view(nodes@)),
            forall|k: int| 0 <= k < nodes@.len() ==> (#[trigger] nodes@[k]).docs == 0 && nodes@[k].chunks == 0,
        decreases rows@.len() - i,
    {
        proof {
            assert(rv.take(i + 1).drop_last() =~= rv.take(i as int));
            assert(rv.take(i + 1).last() == rv[i as int]);
        }
        let p = normalize_directory_path(rows[i].path.as_str());
        let ghost before = nodes@;
        set_explicit_exec(&mut nodes, p.as_str(), rows[i].enabled != 0, rows[i].status.as_str());
        proof {
            assert forall|k: int| 0 <= k < nodes@.len() implies (#[trigger] nodes@[k]).docs == 0 && nodes@[k].chunks == 0 by {
                if k < before.len() && nodes@[k] == before[k] {
                    assert(before[k].docs == 0);
                }
            }
        }
        i += 1;
    }
    assert(rv.take(i as int) =~= rv);
    nodes
}

proof fn lemma_trim_end_char_len(s: Seq<char>, c: char)
    ensures
        crate::text::trim_end_char(s, c).len() <= s.len(),
    decreases s.len(),
{
    if s.len() > 0 && s.last() == c {
        lemma_trim_end_char_len(s.drop_last(), c);
    }
}

proof fn lemma_normalized_len(s: Seq<char>)
    ensures
        normalized_dir(s).len() <= s.len(),
{
    crate::text::lemma_trim_shape(s);
    lemma_trim_end_char_len(trim(s), '/');
}

fn count_into(nodes: &mut Vec<IndexDirView>, p: &str, enabled: bool, status: &str, explicit: bool, c: usize)
    requires
        unique_paths(nodes_view(old(nodes)@)),
        forall|k: int| 0 <= k < old(nodes)@.len() && (#[trigger] old(nodes)@[k]).path@ == p@
            ==> old(nodes)@[k].docs < usize::MAX && old(nodes)@[k].chunks + c <= usize::MAX,
    ensures
        nodes_view(final(nodes)@) == count_in(nodes_view(old(nodes)@), p@, enabled, status@, explicit, c as nat),
        unique_paths(nodes_view(final(nodes)@)),
        final(nodes)@.len() >= old(nodes)@.len(),
        forall|k: int| 0 <= k < old(nodes)@.len() ==> (#[trigger] final(nodes)@[k]).path@ == old(nodes)@[k].path@ && (
            if old(nodes)@[k].path@ == p@ {
                final(nodes)@[k].docs == old(nodes)@[k].docs + 1 && final(nodes)@[k].chunks == old(nodes)@[k].chunks + c
            } else {
                final(nodes)@[k].docs == old(nodes)@[k].docs && final(nodes)@[k].chunks == old(nodes)@[k].chunks
            }),
        forall|k: int| old(nodes)@.len() <= k < final(nodes)@.len() ==> (#[trigger] final(nodes)@[k]).path@ == p@
            && final(nodes)@[k].docs == 1 && final(nodes)@[k].chunks == c,
{
    let ghost before = nodes_view(nodes@);
    proof {
        lemma_find_path(before, p@, 0);
        assert forall|k: int| 0 <= k < nodes@.len() implies before[k] == node_view(#[trigger] nodes@[k]) by {}
    }
    match find_node(nodes, p) {
        Some(i) => {
            let mut n = IndexDirView {
                path: nodes[i].path.clone(),
                enabled: nodes[i].enabled,
                docs: nodes[i].docs,
                chunks: nodes[i].chunks,
                status: nodes[i].status.clone(),
                is_explicit: nodes[i].is_explicit,
            };
            assert(find_path(before, p@, 0) == Some(i as int));
            assert(before[i as int] == node_view(nodes@[i as int]));
            assert(nodes@[i as int].path@ == p@);
            n.docs = n.docs + 1;
            n.chunks = n.chunks + c;
            let ghost nv = node_view(n);
            let ghost old_nodes = nodes@;
            nodes.set(i, n);
            proof {
                assert(nodes_view(nodes@) =~= before.update(i as int, nv));
                assert forall|k: int| 0 <= k < old_nodes.len() && k != i implies old_nodes[k].path@ != p@ by {
                    assert(before[k] == node_view(old_nodes[k]));
                    if k < i {
                        assert(before[k].path != before[i as int].path);
                    } else {
                        assert(before[i as int].path != before[k].path);
                    }
                }
                assert forall|a: int, b: int| 0 <= a < b < nodes_view(nodes@).len() implies nodes_view(nodes@)[a].path
                    != nodes_view(nodes@)[b].path by {
                    assert(before[a].path != before[b].path);
                }
            }
        },
        None => {
            let n = new_node(p, enabled, 1, c, status, explicit);
            let ghost nv = node_view(n);
            nodes.push(n);
            proof {
                assert(nodes_view(nodes@) =~= before.push(nv));
                assert forall|a: int, b: int| 0 <= a < b < nodes_view(nodes@).len() implies nodes_view(nodes@)[a].path
                    != nodes_view(nodes@)[b].path by {
                    if b < before.len() {
                        assert(before[a].path != before[b].path);
                    }
                }
            }
        },
    }
}

fn parent_norm_exec(p: &str) -> (r: String)
    ensures
        r@ == parent_norm(p@),
        r@.len() < p@.len() || r@.len() == 0,
{
    let raw = crate::paths::parent_dir_path(p);
    let r = normalize_directory_path(raw.as_str());
    proof {
        lemma_normalized_len(raw@);
    }
    r
}

/// Counts a document in `start_dir` and the directories above it, up to
/// `root` (see `walk`).
fn walk_exec(nodes: &mut Vec<IndexDirView>, start_dir: String, root: &str, c: usize)
    requires
        unique_paths(nodes_view(old(nodes)@)),
        forall|k: int| 0 <= k < old(nodes)@.len() ==> (#[trigger] old(nodes)@[k]).docs < usize::MAX
            && old(nodes)@[k].chunks + c <= usize::MAX,
    ensures
        nodes_view(final(nodes)@) == walk(nodes_view(old(nodes)@), start_dir@, root@, c as nat),
        unique_paths(nodes_view(final(nodes)@)),
        final(nodes)@.len() >= old(nodes)@.len(),
        forall|k: int| 0 <= k < old(nodes)@.len() ==> (#[trigger] final(nodes)@[k]).path@ == old(nodes)@[k].path@
            && final(nodes)@[k].docs <= old(nodes)@[k].docs + 1 && final(nodes)@[k].chunks <= old(nodes)@[k].chunks + c,
        forall|k: int| old(nodes)@.len() <= k < final(nodes)@.len() ==> (#[trigger] final(nodes)@[k]).docs == 1
            && final(nodes)@[k].chunks == c,
{
    let ghost start = nodes@;
    let ghost sv = nodes_view(start);
    let mut current = start_dir;
    let mut done = false;
    while !done
        invariant
            start == old(nodes)@,
            sv == nodes_view(start),
            unique_paths(nodes_view(nodes@)),
            nodes@.len() >= start.len(),
            forall|k: int| 0 <= k < start.len() ==> (#[trigger] start[k]).docs < usize::MAX && start[k].chunks + c <= usize::MAX,
            done ==> nodes_view(nodes@) == walk(sv, start_dir@, root@, c as nat),
            !done ==> walk(sv, start_dir@, root@, c as nat) == walk(nodes_view(nodes@), current@, root@, c as nat),
            forall|k: int| 0 <= k < start.len() ==> (#[trigger] nodes@[k]).path@ == start[k].path@
                && nodes@[k].docs <= start[k].docs + (if !done && nodes@[k].path@.len() <= current@.len() { 0int } else { 1int })
                && nodes@[k].chunks <= start[k].chunks + (if !done && nodes@[k].path@.len() <= current@.len() { 0int } else { c as int }),
            forall|k: int| start.len() <= k < nodes@.len() ==> (#[trigger] nodes@[k]).docs == 1 && nodes@[k].chunks == c
                && (!done ==> nodes@[k].path@.len() > current@.len()),
        decreases (if done { 0int } else { current@.len() as int + 1 }),
    {
        if !is_path_within_dir(current.as_str(), root) && !str_eq(current.as_str(), root) {
            done = true;
        } else {
            let ghost before = nodes@;
            let ghost cur = current@;
            proof {
                assert forall|k: int| 0 <= k < before.len() && (#[trigger] before[k]).path@ == cur implies before[k].docs
                    < usize::MAX && before[k].chunks + c <= usize::MAX by {
                    if k >= start.len() {
                        assert(before[k].path@.len() > cur.len());
                    } else {
                        assert(start[k].docs < usize::MAX);
                    }
                }
            }
            count_into(nodes, current.as_str(), false, "empty", false, c);
            proof {
                assert(walk(nodes_view(before), cur, root@, c as nat) == if cur == root@ || parent_norm(cur).len() == 0
                    || parent_norm(cur) == cur || parent_norm(cur).len() >= cur.len() {
                    nodes_view(nodes@)
                } else {
                    walk(nodes_view(nodes@), parent_norm(cur), root@, c as nat)
                });
            }
            if str_eq(current.as_str(), root) {
                done = true;
            } else {
                let parent = parent_norm_exec(current.as_str());
                if parent.as_str().is_empty() || str_eq(parent.as_str(), current.as_str()) {
                    done = true;
                } else {
                    current = parent;
                    proof {
                        assert forall|k: int| start.len() <= k < nodes@.len() implies (#[trigger] nodes@[k]).path@.len()
                            > current@.len() by {
                            if k < before.len() {
                                assert(before[k].path@.len() > cur.len());
                            } else {
                                assert(nodes@[k].path@ == cur);
                            }
                        }
                    }
                }
            }
        }
    }
}

fn count_document_exec(nodes: &mut Vec<IndexDirView>, roots: &Vec<String>, doc_path: &str, doc_dir: &str, c: usize)
    requires
        unique_paths(nodes_view(old(nodes)@)),
        roots@.len() * c <= usize::MAX,
        forall|k: int| 0 <= k < old(nodes)@.len() ==> (#[trigger] old(nodes)@[k]).docs + roots@.len() <= usize::MAX
            && old(nodes)@[k].chunks + roots@.len() * c <= usize::MAX,
    ensures
        nodes_view(final(nodes)@) == count_document(nodes_view(old(nodes)@), string_views(roots@), doc_path@, doc_dir@, c as nat),
        unique_paths(nodes_view(final(nodes)@)),
        final(nodes)@.len() >= old(nodes)@.len(),
        forall|k: int| 0 <= k < old(nodes)@.len() ==> (#[trigger] final(nodes)@[k]).docs <= old(nodes)@[k].docs + roots@.len()
            && final(nodes)@[k].chunks <= old(nodes)@[k].chunks + roots@.len() * c,
        forall|k: int| old(nodes)@.len() <= k < final(nodes)@.len() ==> (#[trigger] final(nodes)@[k]).docs <= roots@.len()
            && final(nodes)@[k].chunks <= roots@.len() * c,
{
    let ghost start = nodes@;
    let ghost sv = nodes_view(start);
    let ghost rv = string_views(roots@);
    let ghost big_r = roots@.len();
    let mut r: usize = 0;
    while r < roots.len()
        invariant
            r <= roots@.len() == big_r,
            start == old(nodes)@,
            sv == nodes_view(start),
            rv == string_views(roots@),
            big_r * c <= usize::MAX,
            unique_paths(nodes_view(nodes@)),
            nodes@.len() >= start.len(),
            nodes_view(nodes@) == count_document(sv, rv.take(r as int), doc_path@, doc_dir@, c as nat),
            forall|k: int| 0 <= k < start.len() ==> (#[trigger] start[k]).docs + big_r <= usize::MAX
                && start[k].chunks + big_r * c <= usize::MAX,
            forall|k: int| 0 <= k < start.len() ==> (#[trigger] nodes@[k]).docs <= start[k].docs + r
                && nodes@[k].chunks <= start[k].chunks + r * c,
            forall|k: int| start.len() <= k < nodes@.len() ==> (#[trigger] nodes@[k]).docs <= r
                && nodes@[k].chunks <= r * c,
        decreases roots@.len() - r,
    {
        proof {
            assert(rv.take(r + 1).drop_last() =~= rv.take(r as int));
            assert(rv.take(r + 1).last() == roots@[r as int]@);
            assert((r + 1) * c == r * c + c) by (nonlinear_arith);
            assert((r + 1) * c <= big_r * c) by (nonlinear_arith)
                requires
                    r + 1 <= big_r,
            ;
        }
        let ghost before = nodes@;
        proof {
            assert forall|k: int| 0 <= k < nodes@.len() implies (#[trigger] nodes@[k]).docs < usize::MAX
                && nodes@[k].chunks + c <= usize::MAX by {
                if k < start.len() {
                    assert(start[k].docs + big_r <= usize::MAX);
                }
            }
        }
        let root = roots[r].as_str();
        if is_virtual_directory(root) {
            if str_eq(doc_dir, root) {
                count_into(nodes, root, true, "indexed", true, c);
            }
        } else if is_path_within_dir(doc_path, root) {
            let parent = parent_norm_exec(doc_path);
            walk_exec(nodes, parent, root, c);
        }
        proof {
            assert forall|k: int| 0 <= k < start.len() implies (#[trigger] nodes@[k]).docs <= start[k].docs + (r + 1)
                && nodes@[k].chunks <= start[k].chunks + (r + 1) * c by {
                assert(before[k].docs <= start[k].docs + r);
            }
            assert forall|k: int| start.len() <= k < nodes@.len() implies (#[trigger] nodes@[k]).docs <= r + 1
                && nodes@[k].chunks <= (r + 1) * c by {
                if k < before.len() {
                    assert(before[k].docs <= r);
                }
            }
        }
        r += 1;
    }
    assert(rv.take(r as int) =~= rv);
}

/// A stored document: its path, the directory it was indexed under, and
/// its number of chunks.
#[derive(Debug, Clone)]
pub struct DocumentPathRow {
    pub path: String,
    pub dir_path: String,
    pub chunks: i64,
}

/// (path, directory, chunks) of stored documents.
pub open spec fn doc_rows_view(rows: Seq<DocumentPathRow>) -> Seq<(Seq<char>, Seq<char>, nat)> {
    rows.map_values(|d: DocumentPathRow| (d.path@, d.dir_path@, (d.chunks as usize) as nat))
}

/// The chunks of all documents.
pub open spec fn chunk_total(docs: Seq<(Seq<char>, Seq<char>, nat)>) -> nat
    decreases docs.len(),
{
    if docs.len() == 0 {
        0
    } else {
        chunk_total(docs.drop_last()) + docs.last().2
    }
}

proof fn lemma_chunk_total_prefix(docs: Seq<(Seq<char>, Seq<char>, nat)>, i: int)
    requires
        0 <= i <= docs.len(),
    ensures
        chunk_total(docs.take(i)) <= chunk_total(docs),
    decreases docs.len() - i,
{
    if i < docs.len() {
        lemma_chunk_total_prefix(docs, i + 1);
        assert(docs.take(i + 1).drop_last() =~= docs.take(i));
    } else {
        assert(docs.take(i) =~= docs);
    }
}

fn count_documents_exec(nodes: &mut Vec<IndexDirView>, roots: &Vec<String>, docs: &Vec<DocumentPathRow>)
    requires
        unique_paths(nodes_view(old(nodes)@)),
        forall|k: int| 0 <= k < old(nodes)@.len() ==> (#[trigger] old(nodes)@[k]).docs == 0 && old(nodes)@[k].chunks == 0,
        docs@.len() * roots@.len() <= usize::MAX,
        chunk_total(doc_rows_view(docs@)) * roots@.len() <= usize::MAX,
    ensures
        nodes_view(final(nodes)@) == count_documents(nodes_view(old(nodes)@), string_views(roots@), doc_rows_view(docs@)),
        unique_paths(nodes_view(final(nodes)@)),
{
    let ghost dv = doc_rows_view(docs@);
    let ghost sv = nodes_view(nodes@);
    let ghost big_r = roots@.len();
    let ghost big_d = docs@.len();
    let mut i: usize = 0;
    while i < docs.len()
        invariant
            i <= docs@.len() == big_d,
            big_r == roots@.len(),
            dv == doc_rows_view(docs@),
            sv == nodes_view(old(nodes)@),
            big_d * big_r <= usize::MAX,
            chunk_total(dv) * big_r <= usize::MAX,
            unique_paths(nodes_view(nodes@)),
            nodes_view(nodes@) == count_documents(sv, string_views(roots@), dv.take(i as int)),
            forall|k: int| 0 <= k < nodes@.len() ==> (#[trigger] nodes@[k]).docs <= i * big_r
                && nodes@[k].chunks <= chunk_total(dv.take(i as int)) * big_r,
        decreases docs@.len() - i,
    {
        proof {
            assert(dv.take(i + 1).drop_last() =~= dv.take(i as int));
            assert(dv.take(i + 1).last() == dv[i as int]);
            lemma_chunk_total_prefix(dv, i + 1);
        }
        let d = &docs[i];
        let c: usize = d.chunks as usize;
        let ghost ct = chunk_total(dv.take(i as int));
        proof {
            assert(c as nat == dv[i as int].2);
            assert(chunk_total(dv.take(i + 1)) == ct + c);
            assert(i * big_r + big_r <= usize::MAX) by (nonlinear_arith)
                requires
                    i + 1 <= big_d,
                    big_d * big_r <= usize::MAX,
            ;
            assert((ct + c) * big_r <= chunk_total(dv) * big_r) by (nonlinear_arith)
                requires
                    ct + c <= chunk_total(dv),
            ;
            assert(ct * big_r + big_r * c <= usize::MAX) by (nonlinear_arith)
                requires
                    (ct + c) * big_r <= chunk_total(dv) * big_r,
                    chunk_total(dv) * big_r <= usize::MAX,
            ;
            assert(big_r * c <= usize::MAX) by (nonlinear_arith)
                requires
                    ct * big_r + big_r * c <= usize::MAX,
            ;
        }
        let path = normalize_directory_path(d.path.as_str());
        if !path.as_str().is_empty() {
            let parent = parent_norm_exec(path.as_str());
            if !parent.as_str().is_empty() {
                let ghost before = nodes@;
                proof {
                    assert forall|k: int| 0 <= k < nodes@.len() implies (#[trigger] nodes@[k]).docs + roots@.len() <= usize::MAX
                        && nodes@[k].chunks + roots@.len() * c <= usize::MAX by {
                        assert(nodes@[k].docs <= i * big_r);
                        assert(nodes@[k].chunks <= ct * big_r);
                    }
                }
                count_document_exec(nodes, roots, path.as_str(), d.dir_path.as_str(), c);
                proof {
                    assert forall|k: int| 0 <= k < nodes@.len() implies (#[trigger] nodes@[k]).docs <= (i + 1) * big_r
                        && nodes@[k].chunks <= chunk_total(dv.take(i + 1)) * big_r by {
                        assert((i + 1) * big_r == i * big_r + big_r) by (nonlinear_arith);
                        assert((ct + c) * big_r == ct * big_r + big_r * c) by (nonlinear_arith);
                        if k < before.len() {
                            assert(before[k].docs <= i * big_r);
                            assert(before[k].chunks <= ct * big_r);
                        } else {
                            assert(big_r <= (i + 1) * big_r) by (nonlinear_arith);
                            assert(big_r * c <= (ct + c) * big_r) by (nonlinear_arith);
                        }
                    }
                }
            }
        }
        proof {
            assert forall|k: int| 0 <= k < nodes@.len() implies (#[trigger] nodes@[k]).docs <= (i + 1) * big_r
                && nodes@[k].chunks <= chunk_total(dv.take(i + 1)) * big_r by {
                assert(i * big_r <= (i + 1) * big_r) by (nonlinear_arith);
                assert(ct * big_r <= (ct + c) * big_r) by (nonlinear_arith);
            }
        }
        i += 1;
    }
    assert(dv.take(i as int) =~= dv);
}

/// The paths of directories.
pub open spec fn node_paths(nodes: Seq<NodeView>) -> Seq<Seq<char>> {
    nodes.map_values(|n: NodeView| n.path)
}

/// The directory with path `p` (the first one, if any).
pub open spec fn node_at(nodes: Seq<NodeView>, p: Seq<char>) -> NodeView {
    match find_path(nodes, p, 0) {
        Some(i) => nodes[i],
        None => NodeView { path: p, enabled: false, docs: 0, chunks: 0, status: Seq::empty(), explicit: false },
    }
}

/// The directories in path order.
pub open spec fn sorted_nodes(nodes: Seq<NodeView>) -> Seq<NodeView> {
    sort_paths(node_paths(nodes)).map_values(|p: Seq<char>| node_at(nodes, p))
}

/// Whether the directory `p` is enabled in `t`; false when it is not there.
pub open spec fn enabled_in(t: Seq<NodeView>, p: Seq<char>) -> bool {
    match find_path(t, p, 0) {
        Some(j) => t[j].enabled,
        None => false,
    }
}

/// The `i`-th directory settled: a directory that is not explicit is enabled
/// as its parent is, and a blank status becomes "indexed" or "empty" by
/// whether it holds documents.
pub open spec fn settled(t: Seq<NodeView>, i: int) -> NodeView {
    let n = t[i];
    NodeView {
        enabled: if n.explicit { n.enabled } else { enabled_in(t, parent_norm(n.path)) },
        status: if trim(n.status).len() == 0 {
            if n.docs > 0 { "indexed"@ } else { "empty"@ }
        } else {
            n.status
        },
        ..n
    }
}

/// The first `n` directories settled, in order (each sees the directories
/// settled before it).
pub open spec fn settle(s: Seq<NodeView>, n: nat) -> Seq<NodeView>
    decreases n,
{
    if n == 0 || n > s.len() {
        s
    } else {
        let t = settle(s, (n - 1) as nat);
        t.update(n - 1, settled(t, n - 1))
    }
}

/// The directory tree of the stored index directories and documents.
pub open spec fn index_dir_tree(rows: Seq<(Seq<char>, bool, Seq<char>)>, docs: Seq<(Seq<char>, Seq<char>, nat)>) -> Seq<NodeView> {
    let explicit = explicit_nodes(rows);
    let roots = sort_paths(rows.map_values(|r: (Seq<char>, bool, Seq<char>)| normalized_dir(r.0)));
    let counted = count_documents(explicit, roots, docs);
    let sorted = sorted_nodes(counted);
    settle(sorted, sorted.len())
}

fn copy_dir(n: &IndexDirView) -> (r: IndexDirView)
    ensures
        node_view(r) == node_view(*n),
{
    IndexDirView {
        path: n.path.clone(),
        enabled: n.enabled,
        docs: n.docs,
        chunks: n.chunks,
        status: n.status.clone(),
        is_explicit: n.is_explicit,
    }
}

proof fn lemma_settle_len(s: Seq<NodeView>, n: nat)
    ensures
        settle(s, n).len() == s.len(),
        forall|k: int| 0 <= k < s.len() ==> (#[trigger] settle(s, n)[k]).path == s[k].path,
    decreases n,
{
    if n > 0 && n <= s.len() {
        lemma_settle_len(s, (n - 1) as nat);
    }
}

proof fn lemma_find_path_same_paths(a: Seq<NodeView>, b: Seq<NodeView>, p: Seq<char>, k: int)
    requires
        a.len() == b.len(),
        forall|j: int| 0 <= j < a.len() ==> (#[trigger] a[j]).path == b[j].path,
    ensures
        find_path(a, p, k) == find_path(b, p, k),
    decreases a.len() - k,
{
    if 0 <= k < a.len() && a[k].path != p {
        lemma_find_path_same_paths(a, b, p, k + 1);
    }
}

proof fn lemma_sort_paths_contains(s: Seq<Seq<char>>, y: Seq<char>)
    ensures
        sort_paths(s).contains(y) <==> s.contains(y),
    decreases s.len(),
{
    if s.len() > 0 {
        let t = sort_paths(s.drop_last());
        lemma_sort_paths_contains(s.drop_last(), y);
        lemma_insert_pos_bounds(t, s.last(), 0);
        let p = insert_pos(t, s.last(), 0);
        let u = t.insert(p, s.last());
        if u.contains(y) {
            let k = choose|k: int| 0 <= k < u.len() && u[k] == y;
            if k < p {
                assert(t[k] == y);
            } else if k > p {
                assert(t[k - 1] == y);
            }
            if y != s.last() {
                assert(t.contains(y));
                let m = choose|m: int| 0 <= m < s.drop_last().len() && s.drop_last()[m] == y;
                assert(s[m] == y);
            } else {
                assert(s[s.len() - 1] == y);
            }
        }
        if s.contains(y) {
            let k = choose|k: int| 0 <= k < s.len() && s[k] == y;
            if k == s.len() - 1 {
                assert(u[p] == y);
            } else {
                assert(s.drop_last()[k] == y);
                assert(t.contains(y));
                let m = choose|m: int| 0 <= m < t.len() && t[m] == y;
                if m < p {
                    assert(u[m] == y);
                } else {
                    assert(u[m + 1] == y);
                }
            }
        }
    }
}

/// No path occurs twice.
pub open spec fn distinct_paths(s: Seq<Seq<char>>) -> bool {
    forall|a: int, b: int| 0 <= a < b < s.len() ==> s[a] != s[b]
}

proof fn lemma_sort_paths_distinct(s: Seq<Seq<char>>)
    requires
        distinct_paths(s),
    ensures
        distinct_paths(sort_paths(s)),
    decreases s.len(),
{
    if s.len() > 0 {
        let x = s.last();
        assert(distinct_paths(s.drop_last()));
        lemma_sort_paths_distinct(s.drop_last());
        let t = sort_paths(s.drop_last());
        lemma_sort_paths_contains(s.drop_last(), x);
        if s.drop_last().contains(x) {
            let m = choose|m: int| 0 <= m < s.drop_last().len() && s.drop_last()[m] == x;
            assert(s[m] == s[s.len() - 1]);
        }
        lemma_insert_pos_bounds(t, x, 0);
        let p = insert_pos(t, x, 0);
        let u = t.insert(p, x);
        assert forall|a: int, b: int| 0 <= a < b < u.len() implies u[a] != u[b] by {
            if a == p {
                assert(u[b] == t[b - 1]);
            } else if b == p {
                assert(u[a] == t[a]);
            } else {
                let ta = if a < p { a } else { a - 1 };
                let tb = if b < p { b } else { b - 1 };
                assert(u[a] == t[ta] && u[b] == t[tb]);
            }
        }
    }
}

/// The tree of index directories
/// (see `index_dir_tree`) of the stored index directories and documents.
pub fn list_index_dirs(explicit_rows: &Vec<IndexDirRow>, document_rows: &Vec<DocumentPathRow>) -> (r: Vec<IndexDirView>)
    requires
        document_rows@.len() * explicit_rows@.len() <= usize::MAX,
        chunk_total(doc_rows_view(document_rows@)) * explicit_rows@.len() <= usize::MAX,
    ensures
        nodes_view(r@) == index_dir_tree(dir_rows_view(explicit_rows@), doc_rows_view(document_rows@)),
        forall|a: int, b: int| 0 <= a < b < r@.len() ==> path_before(#[trigger] r@[a].path@, #[trigger] r@[b].path@),
{
    let ghost rv = dir_rows_view(explicit_rows@);
    let mut nodes = explicit_nodes_exec(explicit_rows);
    let mut explicit_paths: Vec<String> = Vec::new();
    let mut i: usize = 0;
    while i < explicit_rows.len()
        invariant
            i <= explicit_rows@.len(),
            rv == dir_rows_view(explicit_rows@),
            explicit_paths@.len() == i,
            forall|q: int| 0 <= q < i ==> (#[trigger] explicit_paths@[q])@ == normalized_dir(rv[q].0),
        decreases explicit_rows@.len() - i,
    {
        let p = normalize_directory_path(explicit_rows[i].path.as_str());
        explicit_paths.push(p);
        i += 1;
    }
    assert(string_views(explicit_paths@) =~= rv.map_values(|r: (Seq<char>, bool, Seq<char>)| normalized_dir(r.0)));
    let roots = sorted_paths(&explicit_paths);
    proof {
        lemma_sort_paths_sorted(string_views(explicit_paths@));
    }
    count_documents_exec(&mut nodes, &roots, document_rows);
    let ghost counted = nodes_view(nodes@);
    // Directories in path order.
    let mut paths: Vec<String> = Vec::new();
    let mut k: usize = 0;
    while k < nodes.len()
        invariant
            k <= nodes@.len(),
            counted == nodes_view(nodes@),
            paths@.len() == k,
            forall|q: int| 0 <= q < k ==> (#[trigger] paths@[q])@ == counted[q].path,
        decreases nodes@.len() - k,
    {
        paths.push(nodes[k].path.clone());
        k += 1;
    }
    assert(string_views(paths@) =~= node_paths(counted));
    let order = sorted_paths(&paths);
    let ghost sp = sort_paths(node_paths(counted));
    proof {
        assert(distinct_paths(node_paths(counted)));
        lemma_sort_paths_distinct(node_paths(counted));
        lemma_sort_paths_sorted(node_paths(counted));
        assert forall|a: int, b: int| 0 <= a < b < sp.len() implies path_before(#[trigger] sp[a], #[trigger] sp[b]) by {
            lemma_path_order(sp[a], sp[b], sp[b]);
        }
    }
    let mut out: Vec<IndexDirView> = Vec::new();
    let mut j: usize = 0;
    while j < order.len()
        invariant
            j <= order@.len(),
            counted == nodes_view(nodes@),
            string_views(order@) == sp,
            out@.len() == j,
            forall|q: int| 0 <= q < j ==> node_view(#[trigger] out@[q]) == node_at(counted, sp[q]),
        decreases order@.len() - j,
    {
        proof {
            lemma_find_path(counted, order@[j as int]@, 0);
        }
        assert(order@[j as int]@ == sp[j as int]);
        match find_node(&nodes, order[j].as_str()) {
            Some(idx) => {
                let n = copy_dir(&nodes[idx]);
                assert(counted[idx as int] == node_view(nodes@[idx as int]));
                assert(node_view(n) == node_at(counted, sp[j as int]));
                out.push(n);
            },
            None => {
                let empty = String::new();
                let n = new_node(order[j].as_str(), false, 0, 0, empty.as_str(), false);
                assert(node_view(n) == node_at(counted, sp[j as int]));
                out.push(n);
            },
        }
        j += 1;
    }
    assert(nodes_view(out@) =~= sp.map_values(|p: Seq<char>| node_at(counted, p)));
    // Settle flags and statuses in path order.
    let ghost sorted = nodes_view(out@);
    proof {
        assert forall|q: int| 0 <= q < sp.len() implies (#[trigger] node_at(counted, sp[q])).path == sp[q] by {
            lemma_find_path(counted, sp[q], 0);
        }
    }
    let mut m: usize = 0;
    while m < out.len()
        invariant
            m <= out@.len() == sorted.len(),
            nodes_view(out@) == settle(sorted, m as nat),
        decreases out@.len() - m,
    {
        proof {
            lemma_settle_len(sorted, m as nat);
        }
        let ghost t = nodes_view(out@);
        proof {
            let pp = parent_norm(t[m as int].path);
            lemma_find_path(t, pp, 0);
        }
        let enabled = if out[m].is_explicit {
            out[m].enabled
        } else {
            let parent = parent_norm_exec(out[m].path.as_str());
            match find_node(&out, parent.as_str()) {
                Some(q) => out[q].enabled,
                None => false,
            }
        };
        let status = if trim_str(out[m].status.as_str()).as_str().is_empty() {
            if out[m].docs > 0 { "indexed".to_owned() } else { "empty".to_owned() }
        } else {
            out[m].status.clone()
        };
        let n = IndexDirView {
            path: out[m].path.clone(),
            enabled,
            docs: out[m].docs,
            chunks: out[m].chunks,
            status,
            is_explicit: out[m].is_explicit,
        };
        proof {
            lemma_find_path(t, parent_norm(t[m as int].path), 0);
        }
        assert(node_view(n) == settled(t, m as int));
        out.set(m, n);
        m += 1;
        assert(nodes_view(out@) =~= t.update(m - 1, settled(t, m - 1)));
    }
    proof {
        lemma_settle_len(sorted, out@.len() as nat);
        assert forall|a: int, b: int| 0 <= a < b < out@.len() implies path_before(#[trigger] out@[a].path@, #[trigger] out@[b].path@) by {
            assert(nodes_view(out@)[a].path == sorted[a].path);
            assert(nodes_view(out@)[b].path == sorted[b].path);
            assert(sorted[a].path == sp[a]);
            assert(sorted[b].path == sp[b]);
        }
    }
    out
}


/// `b` keeps the first `a.len()` directories of `a` in place, with their paths
/// and whether they are explicit.
pub open spec fn keeps_dirs(a: Seq<NodeView>, b: Seq<NodeView>) -> bool {
    &&& b.len() >= a.len()
    &&& forall|i: int| 0 <= i < a.len() ==> (#[trigger] b[i]).path == a[i].path && b[i].explicit == a[i].explicit
}

/// Whether `t` lists the directory `p` as an explicit index directory.
pub open spec fn listed_explicit(t: Seq<NodeView>, p: Seq<char>) -> bool {
    exists|k: int| 0 <= k < t.len() && (#[trigger] t[k]).path == p && t[k].explicit
}

proof fn lemma_count_in_keeps(nodes: Seq<NodeView>, p: Seq<char>, enabled: bool, status: Seq<char>, explicit: bool, chunks: nat)
    ensures
        keeps_dirs(nodes, count_in(nodes, p, enabled, status, explicit, chunks)),
{
    lemma_find_path(nodes, p, 0);
}

proof fn lemma_walk_keeps(nodes: Seq<NodeView>, current: Seq<char>, root: Seq<char>, chunks: nat)
    ensures
        keeps_dirs(nodes, walk(nodes, current, root, chunks)),
    decreases current.len(),
{
    if within_dir(current, root) || current == root {
        let counted = count_in(nodes, current, false, "empty"@, false, chunks);
        lemma_count_in_keeps(nodes, current, false, "empty"@, false, chunks);
        let parent = parent_norm(current);
        if !(current == root || parent.len() == 0 || parent == current || parent.len() >= current.len()) {
            lemma_walk_keeps(counted, parent, root, chunks);
        }
    }
}

proof fn lemma_count_document_keeps(
    nodes: Seq<NodeView>,
    roots: Seq<Seq<char>>,
    doc_path: Seq<char>,
    doc_dir: Seq<char>,
    chunks: nat,
)
    ensures
        keeps_dirs(nodes, count_document(nodes, roots, doc_path, doc_dir, chunks)),
    decreases roots.len(),
{
    if roots.len() > 0 {
        let prev = count_document(nodes, roots.drop_last(), doc_path, doc_dir, chunks);
        lemma_count_document_keeps(nodes, roots.drop_last(), doc_path, doc_dir, chunks);
        let root = roots.last();
        if is_virtual(root) {
            lemma_count_in_keeps(prev, root, true, "indexed"@, true, chunks);
        } else {
            lemma_walk_keeps(prev, parent_norm(doc_path), root, chunks);
        }
    }
}

proof fn lemma_count_documents_keeps(
    nodes: Seq<NodeView>,
    roots: Seq<Seq<char>>,
    docs: Seq<(Seq<char>, Seq<char>, nat)>,
)
    ensures
        keeps_dirs(nodes, count_documents(nodes, roots, docs)),
    decreases docs.len(),
{
    if docs.len() > 0 {
        let prev = count_documents(nodes, roots, docs.drop_last());
        lemma_count_documents_keeps(nodes, roots, docs.drop_last());
        let d = docs.last();
        let path = normalized_dir(d.0);
        lemma_count_document_keeps(prev, roots, path, d.1, d.2);
    }
}

proof fn lemma_explicit_nodes_listed(rows: Seq<(Seq<char>, bool, Seq<char>)>)
    ensures
        forall|k: int| 0 <= k < explicit_nodes(rows).len() ==> (#[trigger] explicit_nodes(rows)[k]).explicit,
        forall|q: int| 0 <= q < rows.len() ==> listed_explicit(explicit_nodes(rows), normalized_dir(#[trigger] rows[q].0)),
    decreases rows.len(),
{
    if rows.len() > 0 {
        let prev = explicit_nodes(rows.drop_last());
        lemma_explicit_nodes_listed(rows.drop_last());
        let r = rows.last();
        let p = normalized_dir(r.0);
        let cur = explicit_nodes(rows);
        lemma_find_path(prev, p, 0);
        assert(keeps_dirs(prev, cur));
        assert forall|q: int| 0 <= q < rows.len() implies listed_explicit(cur, normalized_dir(#[trigger] rows[q].0)) by {
            if q == rows.len() - 1 {
                match find_path(prev, p, 0) {
                    Some(i) => {
                        assert(cur[i].path == p && cur[i].explicit);
                    },
                    None => {
                        assert(cur[prev.len() as int].path == p && cur[prev.len() as int].explicit);
                    },
                }
            } else {
                assert(rows.drop_last()[q] == rows[q]);
                let k = choose|k: int| 0 <= k < prev.len() && (#[trigger] prev[k]).path == normalized_dir(rows[q].0) && prev[k].explicit;
                assert(cur[k].path == prev[k].path);
            }
        }
    }
}

proof fn lemma_settle_keeps(s: Seq<NodeView>, n: nat)
    ensures
        settle(s, n).len() == s.len(),
        forall|k: int| 0 <= k < s.len() ==> (#[trigger] settle(s, n)[k]).path == s[k].path && settle(s, n)[k].explicit == s[k].explicit
            && settle(s, n)[k].docs == s[k].docs,
    decreases n,
{
    if n > 0 && n <= s.len() {
        lemma_settle_keeps(s, (n - 1) as nat);
    }
}

/// Every stored index directory is listed, as an explicit index directory, by its
/// normalized path, whatever documents are stored.
pub proof fn law_stored_dirs_are_listed(
    rows: Seq<(Seq<char>, bool, Seq<char>)>,
    docs: Seq<(Seq<char>, Seq<char>, nat)>,
)
    ensures
        forall|q: int| 0 <= q < rows.len() ==> listed_explicit(index_dir_tree(rows, docs), normalized_dir(#[trigger] rows[q].0)),
{
    let explicit = explicit_nodes(rows);
    let roots = sort_paths(rows.map_values(|r: (Seq<char>, bool, Seq<char>)| normalized_dir(r.0)));
    let counted = count_documents(explicit, roots, docs);
    let sorted = sorted_nodes(counted);
    let tree = settle(sorted, sorted.len());
    lemma_explicit_nodes_listed(rows);
    lemma_count_documents_keeps(explicit, roots, docs);
    lemma_settle_keeps(sorted, sorted.len());
    assert forall|q: int| 0 <= q < rows.len() implies listed_explicit(tree, normalized_dir(#[trigger] rows[q].0)) by {
        let p = normalized_dir(rows[q].0);
        let i = choose|k: int| 0 <= k < explicit.len() && (#[trigger] explicit[k]).path == p && explicit[k].explicit;
        assert(counted[i].path == p);
        assert(node_paths(counted)[i] == p);
        lemma_sort_paths_contains(node_paths(counted), p);
        let j = choose|j: int| 0 <= j < sort_paths(node_paths(counted)).len() && sort_paths(node_paths(counted))[j] == p;
        lemma_find_path(counted, p, 0);
        let i0 = find_path(counted, p, 0).unwrap();
        assert(i0 <= i);
        assert(counted[i0].explicit == explicit[i0].explicit);
        assert(sorted[j] == node_at(counted, p));
        assert(sorted[j].path == p && sorted[j].explicit);
        assert(tree[j].path == p && tree[j].explicit);
    }
}


/// `p` is one of the index directories `roots` or lies below one.
pub open spec fn covered(p: Seq<char>, roots: Seq<Seq<char>>) -> bool {
    exists|r: int| 0 <= r < roots.len() && (within_dir(p, roots[r]) || p == roots[r])
}

/// Every directory of `nodes` is explicit, or holds a document and is covered
/// by `roots`.
pub open spec fn accounted(nodes: Seq<NodeView>, roots: Seq<Seq<char>>) -> bool {
    forall|k: int| 0 <= k < nodes.len() ==> (#[trigger] nodes[k]).explicit
        || (nodes[k].docs >= 1 && covered(nodes[k].path, roots))
}

proof fn lemma_count_in_accounted(
    nodes: Seq<NodeView>,
    roots: Seq<Seq<char>>,
    p: Seq<char>,
    enabled: bool,
    status: Seq<char>,
    explicit: bool,
    chunks: nat,
)
    requires
        accounted(nodes, roots),
        explicit || covered(p, roots),
    ensures
        accounted(count_in(nodes, p, enabled, status, explicit, chunks), roots),
{
    lemma_find_path(nodes, p, 0);
    let r = count_in(nodes, p, enabled, status, explicit, chunks);
    assert forall|k: int| 0 <= k < r.len() implies (#[trigger] r[k]).explicit
        || (r[k].docs >= 1 && covered(r[k].path, roots)) by {
        if k < nodes.len() {
            assert(nodes[k].explicit || (nodes[k].docs >= 1 && covered(nodes[k].path, roots)));
        }
    }
}

proof fn lemma_walk_accounted(nodes: Seq<NodeView>, roots: Seq<Seq<char>>, current: Seq<char>, root: Seq<char>, chunks: nat)
    requires
        accounted(nodes, roots),
        roots.contains(root),
    ensures
        accounted(walk(nodes, current, root, chunks), roots),
    decreases current.len(),
{
    if within_dir(current, root) || current == root {
        let ri = choose|ri: int| 0 <= ri < roots.len() && roots[ri] == root;
        assert(covered(current, roots));
        lemma_count_in_accounted(nodes, roots, current, false, "empty"@, false, chunks);
        let counted = count_in(nodes, current, false, "empty"@, false, chunks);
        let parent = parent_norm(current);
        if !(current == root || parent.len() == 0 || parent == current || parent.len() >= current.len()) {
            lemma_walk_accounted(counted, roots, parent, root, chunks);
        }
    }
}

proof fn lemma_count_document_accounted(
    nodes: Seq<NodeView>,
    all_roots: Seq<Seq<char>>,
    roots: Seq<Seq<char>>,
    doc_path: Seq<char>,
    doc_dir: Seq<char>,
    chunks: nat,
)
    requires
        accounted(nodes, all_roots),
        forall|k: int| 0 <= k < roots.len() ==> all_roots.contains(#[trigger] roots[k]),
    ensures
        accounted(count_document(nodes, roots, doc_path, doc_dir, chunks), all_roots),
    decreases roots.len(),
{
    if roots.len() > 0 {
        let init = roots.drop_last();
        assert forall|k: int| 0 <= k < init.len() implies all_roots.contains(#[trigger] init[k]) by {
            assert(init[k] == roots[k]);
        }
        lemma_count_document_accounted(nodes, all_roots, init, doc_path, doc_dir, chunks);
        let prev = count_document(nodes, init, doc_path, doc_dir, chunks);
        let root = roots.last();
        assert(all_roots.contains(roots[roots.len() - 1]));
        if is_virtual(root) {
            lemma_count_in_accounted(prev, all_roots, root, true, "indexed"@, true, chunks);
        } else {
            lemma_walk_accounted(prev, all_roots, parent_norm(doc_path), root, chunks);
        }
    }
}

proof fn lemma_count_documents_accounted(
    nodes: Seq<NodeView>,
    roots: Seq<Seq<char>>,
    docs: Seq<(Seq<char>, Seq<char>, nat)>,
)
    requires
        accounted(nodes, roots),
    ensures
        accounted(count_documents(nodes, roots, docs), roots),
    decreases docs.len(),
{
    if docs.len() > 0 {
        lemma_count_documents_accounted(nodes, roots, docs.drop_last());
        let prev = count_documents(nodes, roots, docs.drop_last());
        let d = docs.last();
        let path = normalized_dir(d.0);
        assert forall|k: int| 0 <= k < roots.len() implies roots.contains(#[trigger] roots[k]) by {}
        lemma_count_document_accounted(prev, roots, roots, path, d.1, d.2);
    }
}

/// Every directory the tree lists is a stored index directory, or lies below
/// one (or is one) and holds at least one document: no directory appears
/// without a reason.
pub proof fn law_listed_dirs_are_accounted_for(
    rows: Seq<(Seq<char>, bool, Seq<char>)>,
    docs: Seq<(Seq<char>, Seq<char>, nat)>,
)
    ensures
        ({
            let tree = index_dir_tree(rows, docs);
            let roots = rows.map_values(|r: (Seq<char>, bool, Seq<char>)| normalized_dir(r.0));
            forall|k: int| 0 <= k < tree.len() ==> (#[trigger] tree[k]).explicit
                || (tree[k].docs >= 1 && covered(tree[k].path, roots))
        }),
{
    let explicit = explicit_nodes(rows);
    let plain = rows.map_values(|r: (Seq<char>, bool, Seq<char>)| normalized_dir(r.0));
    let roots = sort_paths(plain);
    let counted = count_documents(explicit, roots, docs);
    let sorted = sorted_nodes(counted);
    let tree = settle(sorted, sorted.len());
    lemma_explicit_nodes_listed(rows);
    lemma_count_documents_accounted(explicit, roots, docs);
    lemma_settle_keeps(sorted, sorted.len());
    assert forall|k: int| 0 <= k < tree.len() implies (#[trigger] tree[k]).explicit
        || (tree[k].docs >= 1 && covered(tree[k].path, plain)) by {
        let p = sort_paths(node_paths(counted))[k];
        lemma_sort_paths_contains(node_paths(counted), p);
        let i = choose|i: int| 0 <= i < node_paths(counted).len() && node_paths(counted)[i] == p;
        assert(counted[i].path == p);
        lemma_find_path(counted, p, 0);
        let i0 = find_path(counted, p, 0).unwrap();
        assert(sorted[k] == counted[i0]);
        assert(tree[k].path == p && tree[k].explicit == counted[i0].explicit && tree[k].docs == counted[i0].docs);
        if !counted[i0].explicit {
            assert(covered(p, roots));
            let r = choose|r: int| 0 <= r < roots.len() && (within_dir(p, roots[r]) || p == roots[r]);
            lemma_sort_paths_contains(plain, roots[r]);
            let q = choose|q: int| 0 <= q < plain.len() && plain[q] == roots[r];
            assert(within_dir(p, plain[q]) || p == plain[q]);
        }
    }
}

} // verus!
