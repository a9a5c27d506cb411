//! The evidence of an answer: which search hits are kept, in what order, and
//! the prompt block written for each.
use vstd::prelude::*;
use crate::text::{append_str, chars_of, contains, contains_chars, join, lower_chars, lowercase, starts_with, string_of, string_views, trim, trim_chars, trim_str};

verus! {

broadcast use vstd::seq_lib::group_to_multiset_ensures;

/// How many hits are recalled for a context of `limit` chunks: three per
/// chunk (at least one chunk), and no fewer than twenty.
pub open spec fn recall_limit_of(limit: nat) -> nat {
    let l = if limit < 1 { 1 } else { limit };
    let m = if l * 3 > usize::MAX { usize::MAX as nat } else { l * 3 };
    if m < 20 { 20 } else { m }
}

/// The number of hits recalled (see `recall_limit_of`).
pub fn recall_limit(limit: usize) -> (r: usize)
    ensures
        r == recall_limit_of(limit as nat),
{
    let l = if limit < 1 { 1 } else { limit };
    let m = if l > usize::MAX / 3 { usize::MAX } else { l * 3 };
    if m < 20 { 20 } else { m }
}

/// The query searched for a question: the trimmed question, then the
/// session's terms after a space, when there are any.
pub open spec fn augmented(question: Seq<char>, terms: Seq<Seq<char>>) -> Seq<char> {
    if terms.len() == 0 {
        trim(question)
    } else {
        trim(question) + " "@ + join(terms, " "@)
    }
}

/// The query searched for a question (see `augmented`).
pub fn augmented_query(question: &str, session_terms: &Vec<String>) -> (r: String)
    ensures
        r@ == augmented(question@, string_views(session_terms@)),
{
    let q = trim_str(question);
    if session_terms.len() == 0 {
        return q;
    }
    let parts = crate::search::char_vecs_of(session_terms.as_slice());
    assert(parts@.map_values(|p: Vec<char>| p@) =~= string_views(session_terms@));
    let sep = chars_of(" ");
    let joined = crate::text::join_chars(&parts, sep.as_slice());
    let mut out = chars_of(q.as_str());
    append_str(&mut out, " ");
    crate::text::append_chars(&mut out, joined.as_slice());
    string_of(out.as_slice())
}

/// A path is in scope: there is no scope, or it starts with one of the
/// non-blank (trimmed) scope paths.
pub open spec fn in_scope(path: Seq<char>, scopes: Seq<Seq<char>>) -> bool {
    scopes.len() == 0 || exists|i: int|
        0 <= i < scopes.len() && trim(#[trigger] scopes[i]).len() > 0 && starts_with(path, trim(scopes[i]))
}

/// `matches_scope` (see `in_scope`).
pub fn matches_scope(path: &str, scope_paths: &Vec<String>) -> (r: bool)
    ensures
        r == in_scope(path@, string_views(scope_paths@)),
{
    if scope_paths.len() == 0 {
        return true;
    }
    let p = chars_of(path);
    let ghost sv = string_views(scope_paths@);
    let mut i: usize = 0;
    while i < scope_paths.len()
        invariant
            i <= scope_paths@.len(),
            sv == string_views(scope_paths@),
            p@ == path@,
            forall|k: int| 0 <= k < i ==> !(trim(#[trigger] sv[k]).len() > 0 && starts_with(path@, trim(sv[k]))),
        decreases scope_paths@.len() - i,
    {
        let t = trim_chars(chars_of(scope_paths[i].as_str()).as_slice());
        if t.len() > 0 && crate::text::has_prefix(p.as_slice(), t.as_slice()) {
            assert(trim(sv[i as int]).len() > 0 && starts_with(path@, trim(sv[i as int])));
            return true;
        }
        i += 1;
    }
    false
}

/// Where a source sits: its title path, else its heading, else its file
/// name (the first that is not blank).
pub open spec fn location_of(title_path: Seq<char>, heading: Seq<char>, file_name: Seq<char>) -> Seq<char> {
    if trim(title_path).len() > 0 {
        title_path
    } else if trim(heading).len() > 0 {
        heading
    } else {
        file_name
    }
}

/// `build_location_label` (see `location_of`).
pub fn build_location_label(title_path: &str, heading: &str, file_name: &str) -> (r: String)
    ensures
        r@ == location_of(title_path@, heading@, file_name@),
{
    if trim_chars(chars_of(title_path).as_slice()).len() > 0 {
        title_path.to_owned()
    } else if trim_chars(chars_of(heading).as_slice()).len() > 0 {
        heading.to_owned()
    } else {
        file_name.to_owned()
    }
}

/// A neighbouring paragraph is shown when given and not blank.
pub open spec fn shown(p: Option<Seq<char>>) -> bool {
    match p {
        Some(t) => trim(t).len() > 0,
        None => false,
    }
}

/// The lines of a prompt block: the source id, file, path, location, the
/// previous paragraph when shown, the current one, the next when shown.
pub open spec fn prompt_lines(
    source_id: Seq<char>,
    file_name: Seq<char>,
    path: Seq<char>,
    location: Seq<char>,
    previous: Option<Seq<char>>,
    current: Seq<char>,
    next: Option<Seq<char>>,
) -> Seq<Seq<char>> {
    let head = seq![
        "["@ + source_id + "]"@,
        "文件: "@ + file_name,
        "路径: "@ + path,
        "位置: "@ + location,
        "上下文:"@,
    ];
    let with_prev = if shown(previous) { head.push("- 上一段: "@ + trim(previous.unwrap())) } else { head };
    let with_cur = with_prev.push("- 当前段: "@ + trim(current));
    if shown(next) { with_cur.push("- 下一段: "@ + trim(next.unwrap())) } else { with_cur }
}

fn labelled(label: &str, text: &str) -> (r: Vec<char>)
    ensures
        r@ == label@ + text@,
{
    let mut v = chars_of(label);
    append_str(&mut v, text);
    v
}

/// `build_prompt_block`: the prompt lines (see `prompt_lines`) joined with
/// line breaks.
pub fn build_prompt_block(
    source_id: &str,
    file_name: &str,
    path: &str,
    location: &str,
    previous: Option<&str>,
    current: &str,
    next: Option<&str>,
) -> (r: String)
    ensures
        r@ == join(
            prompt_lines(
                source_id@,
                file_name@,
                path@,
                location@,
                match previous { Some(p) => Some(p@), None => None },
                current@,
                match next { Some(n) => Some(n@), None => None },
            ),
            "\n"@,
        ),
{
    let ghost pv: Option<Seq<char>> = match previous { Some(p) => Some(p@), None => None };
    let ghost nv: Option<Seq<char>> = match next { Some(n) => Some(n@), None => None };
    let mut lines: Vec<Vec<char>> = Vec::new();
    let mut first = chars_of("[");
    append_str(&mut first, source_id);
    append_str(&mut first, "]");
    lines.push(first);
    lines.push(labelled("文件: ", file_name));
    lines.push(labelled("路径: ", path));
    lines.push(labelled("位置: ", location));
    lines.push(chars_of("上下文:"));
    let ghost mut expect: Seq<Seq<char>> = seq![
        "["@ + source_id@ + "]"@,
        "文件: "@ + file_name@,
        "路径: "@ + path@,
        "位置: "@ + location@,
        "上下文:"@,
    ];
    assert(lines@.map_values(|l: Vec<char>| l@) =~= expect);
    if let Some(p) = previous {
        let t = trim_str(p);
        if !t.as_str().is_empty() {
            lines.push(labelled("- 上一段: ", t.as_str()));
            proof {
                expect = expect.push("- 上一段: "@ + trim(p@));
            }
            assert(lines@.map_values(|l: Vec<char>| l@) =~= expect);
        }
    }
    let c = trim_str(current);
    lines.push(labelled("- 当前段: ", c.as_str()));
    proof {
        expect = expect.push("- 当前段: "@ + trim(current@));
    }
    assert(lines@.map_values(|l: Vec<char>| l@) =~= expect);
    if let Some(n) = next {
        let t = trim_str(n);
        if !t.as_str().is_empty() {
            lines.push(labelled("- 下一段: ", t.as_str()));
            proof {
                expect = expect.push("- 下一段: "@ + trim(n@));
            }
            assert(lines@.map_values(|l: Vec<char>| l@) =~= expect);
        }
    }
    assert(expect =~= prompt_lines(source_id@, file_name@, path@, location@, pv, current@, nv));
    let sep = chars_of("\n");
    let joined = crate::text::join_chars(&lines, sep.as_slice());
    string_of(joined.as_slice())
}

/// A term too short to count: fewer than two bytes in UTF-8 (empty, or one
/// ASCII character).
pub open spec fn short_term(t: Seq<char>) -> bool {
    t.len() == 0 || (t.len() == 1 && (t[0] as u32) < 0x80)
}

/// The weight of one session term for a source: three when it occurs in the
/// lowercased title text, one when only in the lowercased body text.
pub open spec fn term_weight(term: Seq<char>, title: Seq<char>, body: Seq<char>) -> nat {
    let t = lowercase(trim(term));
    if short_term(t) {
        0
    } else if contains(title, t) {
        3
    } else if contains(body, t) {
        1
    } else {
        0
    }
}

/// The sum of the weights of the terms.
pub open spec fn overlap_sum(terms: Seq<Seq<char>>, title: Seq<char>, body: Seq<char>) -> nat
    decreases terms.len(),
{
    if terms.len() == 0 {
        0
    } else {
        overlap_sum(terms.drop_last(), title, body) + term_weight(terms.last(), title, body)
    }
}

/// The title text of a source: file name, title path and heading, lowercased.
pub open spec fn title_text(file_name: Seq<char>, title_path: Seq<char>, heading: Seq<char>) -> Seq<char> {
    lowercase(file_name + " "@ + title_path + " "@ + heading)
}

/// The body text of a source: the title fields, the path and the snippet,
/// lowercased.
pub open spec fn body_text(
    file_name: Seq<char>,
    title_path: Seq<char>,
    heading: Seq<char>,
    path: Seq<char>,
    snippet: Seq<char>,
) -> Seq<char> {
    lowercase(file_name + " "@ + title_path + " "@ + heading + " "@ + path + " "@ + snippet)
}

/// A search hit offered as evidence.
#[derive(Debug, Clone)]
pub struct QaHit {
    pub id: String,
    pub file_name: String,
    pub path: String,
    pub title_path: String,
    pub heading: String,
    pub snippet: String,
    /// A key that orders hits as their scores do (higher is better).
    pub score_key: u64,
    /// The score reaches the minimum retrieval score of the settings.
    pub meets_min_score: bool,
}

/// How well a hit matches the session's terms (see `overlap_sum`).
pub open spec fn hit_overlap(h: QaHit, terms: Seq<Seq<char>>) -> nat {
    if terms.len() == 0 {
        0
    } else {
        overlap_sum(
            terms,
            title_text(h.file_name@, h.title_path@, h.heading@),
            body_text(h.file_name@, h.title_path@, h.heading@, h.path@, h.snippet@),
        )
    }
}

fn joined_with_spaces(parts: &Vec<&str>) -> (r: Vec<char>)
    ensures
        r@ == join(parts@.map_values(|p: &str| p@), " "@),
{
    let mut cs: Vec<Vec<char>> = Vec::new();
    let mut i: usize = 0;
    while i < parts.len()
        invariant
            i <= parts@.len(),
            cs@.len() == i,
            forall|j: int| 0 <= j < i ==> (#[trigger] cs@[j])@ == parts@[j]@,
        decreases parts@.len() - i,
    {
        cs.push(chars_of(parts[i]));
        i += 1;
    }
    assert(cs@.map_values(|p: Vec<char>| p@) =~= parts@.map_values(|p: &str| p@));
    let sep = chars_of(" ");
    crate::text::join_chars(&cs, sep.as_slice())
}

fn is_short_term(t: &Vec<char>) -> (r: bool)
    ensures
        r == short_term(t@),
{
    t.len() == 0 || (t.len() == 1 && (t[0] as u32) < 0x80)
}

/// `source_term_overlap` (see `hit_overlap`).
pub fn source_term_overlap(hit: &QaHit, terms: &Vec<String>) -> (r: usize)
    requires
        terms@.len() < usize::MAX / 3,
    ensures
        r == hit_overlap(*hit, string_views(terms@)),
{
    if terms.len() == 0 {
        return 0;
    }
    let mut tp: Vec<&str> = Vec::new();
    tp.push(hit.file_name.as_str());
    tp.push(hit.title_path.as_str());
    tp.push(hit.heading.as_str());
    let t_joined = joined_with_spaces(&tp);
    proof {
        reveal_with_fuel(join, 4);
        assert(tp@.map_values(|p: &str| p@) =~= seq![hit.file_name@, hit.title_path@, hit.heading@]);
        assert(t_joined@ =~= hit.file_name@ + " "@ + hit.title_path@ + " "@ + hit.heading@);
    }
    let title = lower_chars(t_joined.as_slice());
    let mut bp: Vec<&str> = Vec::new();
    bp.push(hit.file_name.as_str());
    bp.push(hit.title_path.as_str());
    bp.push(hit.heading.as_str());
    bp.push(hit.path.as_str());
    bp.push(hit.snippet.as_str());
    let b_joined = joined_with_spaces(&bp);
    proof {
        reveal_with_fuel(join, 6);
        assert(bp@.map_values(|p: &str| p@) =~= seq![hit.file_name@, hit.title_path@, hit.heading@, hit.path@, hit.snippet@]);
        assert(b_joined@ =~= hit.file_name@ + " "@ + hit.title_path@ + " "@ + hit.heading@ + " "@ + hit.path@ + " "@ + hit.snippet@);
    }
    let body = lower_chars(b_joined.as_slice());
    let ghost tv = string_views(terms@);
    let mut total: usize = 0;
    let mut i: usize = 0;
    while i < terms.len()
        invariant
            i <= terms@.len() < usize::MAX / 3,
            tv == string_views(terms@),
            total == overlap_sum(tv.take(i as int), title@, body@),
            total <= 3 * i,
        decreases terms@.len() - i,
    {
        let t = lower_chars(trim_chars(chars_of(terms[i].as_str()).as_slice()).as_slice());
        let w: usize = if is_short_term(&t) {
            0
        } else if contains_chars(title.as_slice(), t.as_slice()) {
            3
        } else if contains_chars(body.as_slice(), t.as_slice()) {
            1
        } else {
            0
        };
        proof {
            assert(tv.take(i + 1).drop_last() =~= tv.take(i as int));
            assert(tv.take(i + 1).last() == terms@[i as int]@);
        }
        total = total + w;
        i += 1;
    }
    assert(tv.take(i as int) =~= tv);
    total
}

/// `a` comes before `b` in the evidence order: more overlap first, then the
/// higher score, then the earlier hit.
pub open spec fn ranks_before(ov: Seq<usize>, keys: Seq<u64>, a: usize, b: usize) -> bool {
    ov[a as int] > ov[b as int] || (ov[a as int] == ov[b as int] && (keys[a as int] > keys[b as int]
        || (keys[a as int] == keys[b as int] && a < b)))
}

/// The indices `0 .. n`.
pub open spec fn index_range(n: nat) -> Seq<usize> {
    Seq::new(n, |k: int| k as usize)
}

/// The hit indices ordered by `ranks_before` (a stable sort by overlap and
/// score, best first).
pub fn rank_order(ov: &Vec<usize>, keys: &Vec<u64>) -> (r: Vec<usize>)
    requires
        ov@.len() == keys@.len(),
    ensures
        r@.len() == ov@.len(),
        r@.to_multiset() == index_range(ov@.len()).to_multiset(),
        forall|a: int, b: int| 0 <= a < b < r@.len() ==> ranks_before(ov@, keys@, #[trigger] r@[a], #[trigger] r@[b]),
        forall|a: int| 0 <= a < r@.len() ==> (#[trigger] r@[a]) < ov@.len(),
{
    let n = ov.len();
    let mut out: Vec<usize> = Vec::new();
    let mut i: usize = 0;
    while i < n
        invariant
            i <= n == ov@.len() == keys@.len(),
            out@.len() == i,
            out@.to_multiset() == index_range(i as nat).to_multiset(),
            forall|a: int| 0 <= a < out@.len() ==> (#[trigger] out@[a]) < i,
            forall|a: int, b: int| 0 <= a < b < out@.len() ==> ranks_before(ov@, keys@, #[trigger] out@[a], #[trigger] out@[b]),
        decreases n - i,
    {
        let mut j: usize = 0;
        while j < out.len() && !(ov[i] > ov[out[j]] || (ov[i] == ov[out[j]] && keys[i] > keys[out[j]]))
            invariant
                i < n == ov@.len() == keys@.len(),
                j <= out@.len() == i,
                forall|a: int| 0 <= a < out@.len() ==> (#[trigger] out@[a]) < i,
                forall|k: int| 0 <= k < j ==> ranks_before(ov@, keys@, #[trigger] out@[k], i),
            decreases out@.len() - j,
        {
            j += 1;
        }
        let ghost old_out = out@;
        proof {
            if j < old_out.len() {
                assert(ranks_before(ov@, keys@, i, old_out[j as int]));
            }
        }
        out.insert(j, i);
        proof {
            assert(index_range((i + 1) as nat) =~= index_range(i as nat).push(i));
            assert forall|a: int, b: int| 0 <= a < b < out@.len() implies ranks_before(
                ov@,
                keys@,
                #[trigger] out@[a],
                #[trigger] out@[b],
            ) by {
                if b < j {
                    assert(out@[a] == old_out[a] && out@[b] == old_out[b]);
                } else if b == j {
                    assert(out@[a] == old_out[a]);
                } else if a == j {
                    assert(out@[b] == old_out[b - 1]);
                    if b - 1 > j {
                        assert(ranks_before(ov@, keys@, old_out[j as int], old_out[b - 1]));
                    }
                } else if a < j {
                    assert(out@[a] == old_out[a] && out@[b] == old_out[b - 1]);
                } else {
                    assert(out@[a] == old_out[a - 1] && out@[b] == old_out[b - 1]);
                }
            }
            assert forall|a: int| 0 <= a < out@.len() implies (#[trigger] out@[a]) < i + 1 by {
                if a < j {
                    assert(out@[a] == old_out[a]);
                } else if a > j {
                    assert(out@[a] == old_out[a - 1]);
                }
            }
        }
        i += 1;
    }
    out
}

/// A hit may be kept: its score reaches the minimum and it is in scope.
pub open spec fn eligible(hits: Seq<QaHit>, k: usize, scopes: Seq<Seq<char>>) -> bool {
    k < hits.len() && hits[k as int].meets_min_score && in_scope(hits[k as int].path@, scopes)
}

/// The chunk of hit `k` was kept already.
pub open spec fn already_kept(hits: Seq<QaHit>, kept: Seq<usize>, k: usize) -> bool {
    exists|j: int| 0 <= j < kept.len() && hits[kept[j] as int].id@ == hits[k as int].id@
}

/// The hits kept as evidence after going through `order`, and whether the
/// selection stopped: an eligible hit is kept unless its chunk was kept
/// already, and after each eligible hit the selection stops once it holds
/// `limit` hits.
pub open spec fn selection(
    hits: Seq<QaHit>,
    order: Seq<usize>,
    scopes: Seq<Seq<char>>,
    limit: nat,
) -> (Seq<usize>, bool)
    decreases order.len(),
{
    if order.len() == 0 {
        (Seq::empty(), false)
    } else {
        let (kept, done) = selection(hits, order.drop_last(), scopes, limit);
        let k = order.last();
        if done || !eligible(hits, k, scopes) {
            (kept, done)
        } else {
            let next = if already_kept(hits, kept, k) { kept } else { kept.push(k) };
            (next, next.len() >= limit)
        }
    }
}

/// The evidence kept for an answer respects the settings: it holds at most
/// `limit` hits (one when the limit is zero, as the first eligible hit is kept
/// before the limit is looked at), each of them in scope and scoring enough,
/// each taken from `order`, and no chunk twice.
pub proof fn law_evidence_respects_settings(
    hits: Seq<QaHit>,
    order: Seq<usize>,
    scopes: Seq<Seq<char>>,
    limit: nat,
)
    ensures
        ({
            let (kept, done) = selection(hits, order, scopes, limit);
            &&& kept.len() <= if limit == 0 { 1 } else { limit }
            &&& !done ==> kept.len() < if limit == 0 { 1 } else { limit }
            &&& forall|j: int| 0 <= j < kept.len() ==> eligible(hits, #[trigger] kept[j], scopes)
            &&& forall|j: int| 0 <= j < kept.len() ==> order.contains(#[trigger] kept[j])
            &&& forall|a: int, b: int| 0 <= a < b < kept.len() ==>
                hits[(#[trigger] kept[a]) as int].id@ != hits[(#[trigger] kept[b]) as int].id@
        }),
    decreases order.len(),
{
    if order.len() > 0 {
        let init = order.drop_last();
        law_evidence_respects_settings(hits, init, scopes, limit);
        let (kept, done) = selection(hits, init, scopes, limit);
        let k = order.last();
        assert forall|j: int| 0 <= j < kept.len() implies order.contains(#[trigger] kept[j]) by {
            let m = choose|m: int| 0 <= m < init.len() && init[m] == kept[j];
            assert(order[m] == kept[j]);
        }
        if !(done || !eligible(hits, k, scopes)) && !already_kept(hits, kept, k) {
            let next = kept.push(k);
            assert(order[order.len() - 1] == k);
            assert forall|j: int| 0 <= j < next.len() implies order.contains(#[trigger] next[j]) by {
                if j < kept.len() {
                    assert(next[j] == kept[j]);
                }
            }
            assert forall|j: int| 0 <= j < next.len() implies eligible(hits, #[trigger] next[j], scopes) by {
                if j < kept.len() {
                    assert(next[j] == kept[j]);
                }
            }
            assert forall|a: int, b: int| 0 <= a < b < next.len() implies
                hits[(#[trigger] next[a]) as int].id@ != hits[(#[trigger] next[b]) as int].id@ by {
                assert(next[a] == kept[a]);
                if b < kept.len() {
                    assert(next[b] == kept[b]);
                } else {
                    assert(next[b] == k);
                }
            }
        }
    }
}

/// The hits kept as evidence (see `selection`), as indices into `hits`.
pub fn select_hits(hits: &Vec<QaHit>, order: &Vec<usize>, scope_paths: &Vec<String>, limit: usize) -> (r: Vec<usize>)
    ensures
        r@ == selection(hits@, order@, string_views(scope_paths@), limit as nat).0,
{
    let ghost sv = string_views(scope_paths@);
    let mut kept: Vec<usize> = Vec::new();
    let mut i: usize = 0;
    while i < order.len()
        invariant
            i <= order@.len(),
            sv == string_views(scope_paths@),
            selection(hits@, order@.take(i as int), sv, limit as nat) == (kept@, false),
            forall|j: int| 0 <= j < kept@.len() ==> (#[trigger] kept@[j]) < hits@.len(),
        decreases order@.len() - i,
    {
        proof {
            assert(order@.take(i + 1).drop_last() =~= order@.take(i as int));
            assert(order@.take(i + 1).last() == order@[i as int]);
        }
        let k = order[i];
        if k < hits.len() && hits[k].meets_min_score && matches_scope(hits[k].path.as_str(), scope_paths) {
            let mut dup = false;
            let mut j: usize = 0;
            while j < kept.len()
                invariant
                    j <= kept@.len(),
                    k < hits@.len(),
                    forall|x: int| 0 <= x < kept@.len() ==> (#[trigger] kept@[x]) < hits@.len(),
                    dup == exists|x: int| 0 <= x < j && hits@[kept@[x] as int].id@ == hits@[k as int].id@,
                decreases kept@.len() - j,
            {
                if hits[kept[j]].id == hits[k].id {
                    dup = true;
                }
                j += 1;
            }
            if !dup {
                kept.push(k);
            }
            if kept.len() >= limit {
                proof {
                    assert(order@.take(order@.len() as int) =~= order@);
                    lemma_selection_done(hits@, order@, sv, limit as nat, i as int + 1);
                }
                return kept;
            }
        }
        i += 1;
    }
    proof {
        assert(order@.take(order@.len() as int) =~= order@);
    }
    kept
}

/// Once the selection stopped, the rest of the order changes nothing.
proof fn lemma_selection_done(hits: Seq<QaHit>, order: Seq<usize>, scopes: Seq<Seq<char>>, limit: nat, i: int)
    requires
        0 <= i <= order.len(),
        selection(hits, order.take(i), scopes, limit).1,
    ensures
        selection(hits, order, scopes, limit) == selection(hits, order.take(i), scopes, limit),
    decreases order.len() - i,
{
    if i < order.len() {
        assert(order.take(i + 1).drop_last() =~= order.take(i));
        lemma_selection_done(hits, order, scopes, limit, i + 1);
    } else {
        assert(order.take(i) =~= order);
    }
}

/// The position of the first chunk with id `id`, from `k` on.
pub open spec fn first_index(ids: Seq<Seq<char>>, id: Seq<char>, k: int) -> Option<int>
    decreases ids.len() - k,
{
    if k < 0 || k >= ids.len() {
        None
    } else if ids[k] == id {
        Some(k)
    } else {
        first_index(ids, id, k + 1)
    }
}

/// The paragraphs shown around a hit, from the chunks of its document: the
/// one before (the hit's own when it is the first), the hit's, and the one
/// after when there is one; the hit's snippet alone when its chunk is not
/// among them.
pub open spec fn window_of(
    ids: Seq<Seq<char>>,
    snippets: Seq<Seq<char>>,
    hit_id: Seq<char>,
    hit_snippet: Seq<char>,
) -> (Option<Seq<char>>, Seq<char>, Option<Seq<char>>) {
    match first_index(ids, hit_id, 0) {
        Some(p) => (
            Some(snippets[if p == 0 { 0 } else { p - 1 }]),
            snippets[p],
            if p + 1 < snippets.len() { Some(snippets[p + 1]) } else { None },
        ),
        None => (None, hit_snippet, None),
    }
}

proof fn lemma_first_index_bounds(ids: Seq<Seq<char>>, id: Seq<char>, k: int)
    ensures
        first_index(ids, id, k) matches Some(p) ==> k <= p < ids.len() && ids[p] == id,
    decreases ids.len() - k,
{
    if 0 <= k < ids.len() && ids[k] != id {
        lemma_first_index_bounds(ids, id, k + 1);
    }
}

/// The paragraphs around a hit (see `window_of`).
pub fn context_window(
    chunk_ids: &Vec<String>,
    chunk_snippets: &Vec<String>,
    hit_id: &str,
    hit_snippet: &str,
) -> (r: (Option<String>, String, Option<String>))
    requires
        chunk_ids@.len() == chunk_snippets@.len(),
    ensures
        (crate::sidecar::opt_view(r.0), r.1@, crate::sidecar::opt_view(r.2)) == window_of(
            string_views(chunk_ids@),
            string_views(chunk_snippets@),
            hit_id@,
            hit_snippet@,
        ),
{
    let ghost iv = string_views(chunk_ids@);
    let key = hit_id.to_owned();
    let mut p: usize = 0;
    while p < chunk_ids.len() && !(chunk_ids[p] == key)
        invariant
            p <= chunk_ids@.len(),
            iv == string_views(chunk_ids@),
            key@ == hit_id@,
            first_index(iv, hit_id@, 0) == first_index(iv, hit_id@, p as int),
        decreases chunk_ids@.len() - p,
    {
        p += 1;
    }
    proof {
        lemma_first_index_bounds(iv, hit_id@, p as int);
    }
    if p < chunk_ids.len() {
        let before = if p == 0 { 0 } else { p - 1 };
        let next = if p + 1 < chunk_snippets.len() { Some(chunk_snippets[p + 1].clone()) } else { None };
        (Some(chunk_snippets[before].clone()), chunk_snippets[p].clone(), next)
    } else {
        (None, hit_snippet.to_owned(), None)
    }
}

/// The id of the `index`-th source (from zero): "S1", "S2", ...
pub open spec fn source_id_of(index: nat) -> Seq<char> {
    "S"@ + crate::text::decimal(index + 1)
}

/// A source of an answer: its id and its prompt block.
#[derive(Debug, Clone)]
pub struct QaSourceBlock {
    pub source_id: String,
    pub block: String,
}

/// The source block of the `index`-th kept hit, given the chunks of its
/// document (ids and snippets, in order).
pub fn build_source_block(
    index: usize,
    hit: &QaHit,
    chunk_ids: &Vec<String>,
    chunk_snippets: &Vec<String>,
) -> (r: QaSourceBlock)
    requires
        chunk_ids@.len() == chunk_snippets@.len(),
        index < u64::MAX,
    ensures
        r.source_id@ == source_id_of(index as nat),
        ({
            let w = window_of(string_views(chunk_ids@), string_views(chunk_snippets@), hit.id@, hit.snippet@);
            r.block@ == join(
                prompt_lines(
                    source_id_of(index as nat),
                    hit.file_name@,
                    hit.path@,
                    location_of(hit.title_path@, hit.heading@, hit.file_name@),
                    w.0,
                    w.1,
                    w.2,
                ),
                "\n"@,
            )
        }),
{
    let mut id = chars_of("S");
    let digits = crate::text::decimal_chars((index as u64) + 1);
    crate::text::append_chars(&mut id, digits.as_slice());
    let source_id = string_of(id.as_slice());
    let location = build_location_label(hit.title_path.as_str(), hit.heading.as_str(), hit.file_name.as_str());
    let (previous, current, next) = context_window(chunk_ids, chunk_snippets, hit.id.as_str(), hit.snippet.as_str());
    let prev_ref: Option<&str> = match &previous {
        Some(p) => Some(p.as_str()),
        None => None,
    };
    let next_ref: Option<&str> = match &next {
        Some(n) => Some(n.as_str()),
        None => None,
    };
    let block = build_prompt_block(
        source_id.as_str(),
        hit.file_name.as_str(),
        hit.path.as_str(),
        location.as_str(),
        prev_ref,
        current.as_str(),
        next_ref,
    );
    QaSourceBlock { source_id, block }
}

/// The evidence chosen for a question: the order the hits were considered
/// in, and the hits kept.
#[derive(Debug, Clone)]
pub struct QaContextPlan {
    pub order: Vec<usize>,
    pub selected: Vec<usize>,
    pub candidate_count: usize,
}

/// The evidence plan of a question: the recalled `hits` are ordered
/// by how well they match the session's terms (when there are any, see
/// `rank_order`), then kept as `selection` says. The caller loads the chunks
/// of each kept hit's document and calls `build_source_block`.
pub fn build_qa_context(
    hits: &Vec<QaHit>,
    session_terms: &Vec<String>,
    scope_paths: &Vec<String>,
    context_chunk_limit: usize,
) -> (r: QaContextPlan)
    requires
        session_terms@.len() < usize::MAX / 3,
    ensures
        r.candidate_count == hits@.len(),
        r.order@.len() == hits@.len(),
        session_terms@.len() == 0 ==> r.order@ == index_range(hits@.len()),
        session_terms@.len() > 0 ==> (r.order@.to_multiset() == index_range(hits@.len()).to_multiset()
            && forall|a: int, b: int| 0 <= a < b < r.order@.len() ==> ranks_before(
                hits@.map_values(|h: QaHit| hit_overlap(h, string_views(session_terms@)) as usize),
                hits@.map_values(|h: QaHit| h.score_key),
                #[trigger] r.order@[a],
                #[trigger] r.order@[b],
            )),
        r.selected@ == selection(hits@, r.order@, string_views(scope_paths@), context_chunk_limit as nat).0,
{
    let n = hits.len();
    let order = if session_terms.len() == 0 {
        let mut v: Vec<usize> = Vec::new();
        let mut i: usize = 0;
        while i < n
            invariant
                i <= n == hits@.len(),
                v@ == index_range(i as nat),
            decreases n - i,
        {
            v.push(i);
            i += 1;
            assert(v@ =~= index_range(i as nat));
        }
        v
    } else {
        let mut ov: Vec<usize> = Vec::new();
        let mut keys: Vec<u64> = Vec::new();
        let mut i: usize = 0;
        while i < n
            invariant
                i <= n == hits@.len(),
                session_terms@.len() < usize::MAX / 3,
                ov@ == hits@.take(i as int).map_values(|h: QaHit| hit_overlap(h, string_views(session_terms@)) as usize),
                keys@ == hits@.take(i as int).map_values(|h: QaHit| h.score_key),
            decreases n - i,
        {
            ov.push(source_term_overlap(&hits[i], session_terms));
            keys.push(hits[i].score_key);
            i += 1;
            assert(hits@.take(i as int) =~= hits@.take(i - 1).push(hits@[i - 1]));
            assert(ov@ =~= hits@.take(i as int).map_values(|h: QaHit| hit_overlap(h, string_views(session_terms@)) as usize));
            assert(keys@ =~= hits@.take(i as int).map_values(|h: QaHit| h.score_key));
        }
        assert(hits@.take(n as int) =~= hits@);
        rank_order(&ov, &keys)
    };
    let selected = select_hits(hits, &order, scope_paths, context_chunk_limit);
    QaContextPlan { order, selected, candidate_count: n }
}


/// One session term weighs by where it is found in a hit: a term (trimmed,
/// lowercased, and longer than one ASCII character) found in the lowercased
/// title text (file name, title path and heading, space-separated) adds 3; one
/// found only in the lowercased full text (those, then the path and the
/// snippet) adds 1; one found nowhere adds 0. So a title match always weighs
/// more than a match in the body alone.
pub proof fn law_title_match_weighs_three(h: QaHit, term: Seq<char>)
    ensures
        ({
            let t = lowercase(trim(term));
            let title = lowercase(h.file_name@ + " "@ + h.title_path@ + " "@ + h.heading@);
            let all = lowercase(h.file_name@ + " "@ + h.title_path@ + " "@ + h.heading@ + " "@ + h.path@ + " "@ + h.snippet@);
            let long_enough = t.len() >= 2 || (t.len() == 1 && (t[0] as u32) >= 0x80);
            &&& long_enough && contains(title, t) ==> hit_overlap(h, seq![term]) == 3
            &&& long_enough && !contains(title, t) && contains(all, t) ==> hit_overlap(h, seq![term]) == 1
            &&& !(long_enough && contains(all, t)) && !(long_enough && contains(title, t)) ==> hit_overlap(h, seq![term]) == 0
        }),
{
    let terms = seq![term];
    let title = title_text(h.file_name@, h.title_path@, h.heading@);
    let body = body_text(h.file_name@, h.title_path@, h.heading@, h.path@, h.snippet@);
    assert(terms.drop_last() =~= Seq::<Seq<char>>::empty());
    assert(terms.last() == term);
    assert(overlap_sum(Seq::<Seq<char>>::empty(), title, body) == 0);
    assert(hit_overlap(h, terms) == term_weight(term, title, body));
}

proof fn lemma_overlap_concat(a: Seq<Seq<char>>, b: Seq<Seq<char>>, title: Seq<char>, body: Seq<char>)
    ensures
        overlap_sum(a + b, title, body) == overlap_sum(a, title, body) + overlap_sum(b, title, body),
    decreases b.len(),
{
    if b.len() == 0 {
        assert(a + b =~= a);
    } else {
        lemma_overlap_concat(a, b.drop_last(), title, body);
        assert((a + b).drop_last() =~= a + b.drop_last());
        assert((a + b).last() == b.last());
    }
}

/// The overlap of a hit with a list of terms is the sum of its overlaps with
/// each part of the list: terms count independently of one another.
pub proof fn law_overlap_adds_up(h: QaHit, a: Seq<Seq<char>>, b: Seq<Seq<char>>)
    ensures
        hit_overlap(h, a + b) == hit_overlap(h, a) + hit_overlap(h, b),
{
    let title = title_text(h.file_name@, h.title_path@, h.heading@);
    let body = body_text(h.file_name@, h.title_path@, h.heading@, h.path@, h.snippet@);
    lemma_overlap_concat(a, b, title, body);
    if a.len() == 0 {
        assert(a + b =~= b);
    }
    if b.len() == 0 {
        assert(a + b =~= a);
    }
}

} // verus!
