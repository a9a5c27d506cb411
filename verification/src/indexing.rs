//! Decisions of the indexing jobs: failure classification, progress,
//! run counters, path imports and the parser fallback.
use vstd::prelude::*;
use crate::text::{chars_of, contains, contains_chars, ends_with, has_suffix, lower_chars, lowercase, string_views};

verus! {

// ---------------------------------------------------------------------------
// Failure classification
// ---------------------------------------------------------------------------

/// The (category, code) of an indexing failure, decided from the error text
/// (as written and lowercased) and the file path, first matching rule first.
pub open spec fn failure_class(reason: Seq<char>, path: Seq<char>) -> (Seq<char>, Seq<char>) {
    let lr = lowercase(reason);
    let lp = lowercase(path);
    if contains(reason, "文件过大"@) {
        ("文件过大"@, "file_too_large"@)
    } else if contains(reason, "暂不支持 PDF"@) || contains(reason, "不支持的文件类型"@) || contains(
        lr,
        "unsupported file type"@,
    ) {
        ("不支持的格式"@, "unsupported_format"@)
    } else if contains(lr, "permission denied"@) || contains(reason, "权限"@) || contains(lr, "access denied"@) {
        ("权限不足"@, "permission_denied"@)
    } else if contains(lr, "no such file"@) || contains(reason, "不存在"@) || contains(reason, "找不到"@)
        || contains(lr, "not found"@) {
        ("文件缺失"@, "file_missing"@)
    } else if contains(lr, "is a directory"@) || contains(reason, "目录"@) || contains(lr, "invalid path"@)
        || contains(lr, "not a file"@) {
        ("路径无效"@, "invalid_path"@)
    } else if contains(lr, "timed out"@) || contains(lr, "timeout"@) {
        ("处理超时"@, "timeout"@)
    } else if contains(lr, "sqlite"@) || contains(lr, "database"@) || contains(lr, "pool timed out"@) {
        ("数据库错误"@, "database_error"@)
    } else if contains(lr, "tantivy"@) || contains(lr, "index"@) {
        ("索引错误"@, "index_error"@)
    } else if contains(lr, "io error"@) || contains(lr, "input/output"@) {
        ("IO 错误"@, "io_error"@)
    } else if ends_with(lp, ".pdf"@) {
        ("PDF 解析失败"@, "parse_error"@)
    } else {
        ("解析失败"@, "parse_error"@)
    }
}

fn has(s: &Vec<char>, lit: &str) -> (r: bool)
    ensures
        r == contains(s@, lit@),
{
    contains_chars(s.as_slice(), chars_of(lit).as_slice())
}

fn pair(a: &str, b: &str) -> (r: (String, String))
    ensures
        r.0@ == a@ && r.1@ == b@,
{
    (a.to_owned(), b.to_owned())
}

/// `classify_failure`: the category and code of a failed file (see `failure_class`).
pub fn classify_failure(reason: &str, path: &str) -> (r: (String, String))
    ensures
        (r.0@, r.1@) == failure_class(reason@, path@),
{
    let rc = chars_of(reason);
    let lr = lower_chars(rc.as_slice());
    let lp = lower_chars(chars_of(path).as_slice());
    if has(&rc, "文件过大") {
        return pair("文件过大", "file_too_large");
    }
    if has(&rc, "暂不支持 PDF") || has(&rc, "不支持的文件类型") || has(&lr, "unsupported file type") {
        return pair("不支持的格式", "unsupported_format");
    }
    if has(&lr, "permission denied") || has(&rc, "权限") || has(&lr, "access denied") {
        return pair("权限不足", "permission_denied");
    }
    if has(&lr, "no such file") || has(&rc, "不存在") || has(&rc, "找不到") || has(&lr, "not found") {
        return pair("文件缺失", "file_missing");
    }
    if has(&lr, "is a directory") || has(&rc, "目录") || has(&lr, "invalid path") || has(&lr, "not a file") {
        return pair("路径无效", "invalid_path");
    }
    if has(&lr, "timed out") || has(&lr, "timeout") {
        return pair("处理超时", "timeout");
    }
    if has(&lr, "sqlite") || has(&lr, "database") || has(&lr, "pool timed out") {
        return pair("数据库错误", "database_error");
    }
    if has(&lr, "tantivy") || has(&lr, "index") {
        return pair("索引错误", "index_error");
    }
    if has(&lr, "io error") || has(&lr, "input/output") {
        return pair("IO 错误", "io_error");
    }
    if has_suffix(lp.as_slice(), chars_of(".pdf").as_slice()) {
        return pair("PDF 解析失败", "parse_error");
    }
    pair("解析失败", "parse_error")
}

// ---------------------------------------------------------------------------
// Progress and counters
// ---------------------------------------------------------------------------

/// Whole percent of `processed` out of `total`, capped at 100 (100 for an empty job).
pub open spec fn percent_floor(processed: int, total: int) -> int {
    if total == 0 {
        100
    } else {
        let p = (if processed * 100 > usize::MAX { usize::MAX as int } else { processed * 100 }) / total;
        if p > 100 { 100 } else { p }
    }
}

/// The progress percent of the index repair job.
pub fn repair_progress(processed: usize, total: usize) -> (r: u8)
    ensures
        r as int == percent_floor(processed as int, total as int),
{
    if total == 0 {
        return 100;
    }
    let scaled = if processed > usize::MAX / 100 { usize::MAX } else { processed * 100 };
    proof {
        assert(processed > usize::MAX / 100 <==> processed * 100 > usize::MAX) by (nonlinear_arith);
    }
    let p = scaled / total;
    if p > 100 {
        100
    } else {
        p as u8
    }
}

/// `processed / total * 100` rounded to the nearest whole percent (halves up),
/// 100 for an empty job.
pub open spec fn percent_rounded(processed: int, total: int) -> int {
    if total == 0 {
        100
    } else {
        (200 * processed + total) / (2 * total)
    }
}

/// The progress percent of a rebuild, for `processed <= total`.
pub fn rebuild_progress(processed: usize, total: usize) -> (r: u8)
    requires
        processed <= total,
    ensures
        r as int == percent_rounded(processed as int, total as int),
{
    if total == 0 {
        return 100;
    }
    let p: u128 = processed as u128;
    let t: u128 = total as u128;
    assert(200 * p + t <= 201 * t) by (nonlinear_arith)
        requires
            p <= t,
    ;
    assert(t <= 0xffff_ffff_ffff_ffff) by {
        assert(total <= usize::MAX);
    }
    let v: u128 = (200 * p + t) / (2 * t);
    assert(v <= 100) by (nonlinear_arith)
        requires
            v == (200 * p + t) / (2 * t),
            p <= t,
            t > 0,
    ;
    v as u8
}

/// Counters of an indexing run.
#[derive(Debug, Clone, Copy, PartialEq, Eq)]
pub struct RunCounters {
    pub total: usize,
    pub processed: usize,
    pub succeeded: usize,
    pub failed: usize,
}

impl RunCounters {
    /// Every processed file either succeeded or failed, and no more files
    /// than were discovered are processed.
    pub open spec fn wf(self) -> bool {
        self.succeeded + self.failed == self.processed && self.processed <= self.total
    }

    /// A run over `total` discovered files.
    pub fn start(total: usize) -> (r: RunCounters)
        ensures
            r.wf(),
            r == (RunCounters { total, processed: 0, succeeded: 0, failed: 0 }),
    {
        RunCounters { total, processed: 0, succeeded: 0, failed: 0 }
    }

    /// One more file done, successfully or not.
    pub fn record(&mut self, ok: bool)
        requires
            old(self).wf(),
            old(self).processed < old(self).total,
        ensures
            final(self).wf(),
            final(self).total == old(self).total,
            final(self).processed == old(self).processed + 1,
            final(self).succeeded == old(self).succeeded + if ok { 1int } else { 0 },
            final(self).failed == old(self).failed + if ok { 0int } else { 1 },
    {
        self.processed = self.processed + 1;
        if ok {
            self.succeeded = self.succeeded + 1;
        } else {
            self.failed = self.failed + 1;
        }
    }
}

/// Running the counters over the outcomes `oks` of the files in order.
pub open spec fn run_after(total: nat, oks: Seq<bool>) -> (nat, nat, nat)
    decreases oks.len(),
{
    if oks.len() == 0 {
        (0, 0, 0)
    } else {
        let p = run_after(total, oks.drop_last());
        if oks.last() {
            (p.0 + 1, p.1 + 1, p.2)
        } else {
            (p.0 + 1, p.1, p.2 + 1)
        }
    }
}

/// The counters after a run: `succeeded + failed == processed`, and the
/// success count is the number of successful outcomes.
pub proof fn lemma_run_counts(total: nat, oks: Seq<bool>)
    ensures
        run_after(total, oks).0 == oks.len(),
        run_after(total, oks).1 + run_after(total, oks).2 == run_after(total, oks).0,
        run_after(total, oks).1 == oks.filter(|b: bool| b).len(),
    decreases oks.len(),
{
    reveal(Seq::filter);
    if oks.len() > 0 {
        lemma_run_counts(total, oks.drop_last());
        assert(oks.filter(|b: bool| b) == if oks.last() {
            oks.drop_last().filter(|b: bool| b).push(oks.last())
        } else {
            oks.drop_last().filter(|b: bool| b)
        });
    }
}

// ---------------------------------------------------------------------------
// One index job at a time
// ---------------------------------------------------------------------------

/// Whether an index job (a rebuild, a refresh or the full-text repair) is
/// running; a new job may start only when none is.
pub struct IndexJobGate {
    running: bool,
}

impl View for IndexJobGate {
    type V = bool;

    closed spec fn view(&self) -> bool {
        self.running
    }
}

/// Trying to start a job in a gate that is (or is not) running: whether it
/// starts, and whether a job runs afterwards (always).
pub open spec fn begin_outcome(running: bool) -> (bool, bool) {
    (!running, true)
}

impl IndexJobGate {
    /// A gate with no job running.
    pub fn new() -> (r: IndexJobGate)
        ensures
            !r@,
    {
        IndexJobGate { running: false }
    }

    /// Starts a job unless one runs: `true` when it started.
    pub fn try_begin(&mut self) -> (r: bool)
        ensures
            (r, final(self)@) == begin_outcome(old(self)@),
    {
        if self.running {
            false
        } else {
            self.running = true;
            true
        }
    }

    /// The running job ended.
    pub fn end(&mut self)
        ensures
            !final(self)@,
    {
        self.running = false;
    }

    /// Whether a job runs.
    pub fn is_running(&self) -> (r: bool)
        ensures
            r == self@,
    {
        self.running
    }
}

/// Starts an index job, or refuses with the busy error when one runs.
pub fn begin_index_job(gate: &mut IndexJobGate) -> (r: Result<(), String>)
    ensures
        final(gate)@,
        old(gate)@ ==> (r matches Err(e) && e@ == "已有索引任务正在执行"@),
        !old(gate)@ ==> r is Ok,
{
    if gate.try_begin() {
        Ok(())
    } else {
        Err(crate::refresh::busy_error())
    }
}

/// Only one index job runs at a time: once a job started, starting another
/// fails until the first one ends, and after it ended a job starts again.
pub proof fn law_one_index_job_at_a_time(running: bool)
    ensures
        begin_outcome(begin_outcome(running).1).0 == false,
        begin_outcome(false).0 == true,
{
}

/// The full-text index must be rebuilt from the database: the database
/// holds chunks and the full-text index holds no document.
pub fn fulltext_repair_needed(sqlite_chunks: i64, fulltext_documents: u64) -> (r: bool)
    ensures
        r == (sqlite_chunks > 0 && fulltext_documents == 0),
{
    sqlite_chunks > 0 && fulltext_documents == 0
}

// ---------------------------------------------------------------------------
// Importing paths
// ---------------------------------------------------------------------------

/// What the file system says about one dropped path.
#[derive(Debug, Clone)]
pub enum PathProbe {
    /// An existing directory.
    Dir,
    /// A file; whether it is a supported document.
    File { supported: bool },
    /// Neither a directory nor a file.
    Missing,
}

/// An imported file and the directory it is filed under.
#[derive(Debug, Clone)]
pub struct ImportedPathView {
    pub path: String,
    pub dir_path: String,
    pub is_virtual: bool,
}

/// The outcome of importing a list of paths.
#[derive(Debug, Clone)]
pub struct ImportPathsView {
    pub added_dirs: Vec<String>,
    pub imported_files: Vec<ImportedPathView>,
    pub virtual_dir: String,
    pub skipped: Vec<String>,
    pub unsupported: Vec<String>,
}

/// The directory that holds imported files without a known parent directory.
pub open spec fn virtual_import_dir() -> Seq<char> {
    "virtual://临时导入"@
}

/// The name of the virtual import directory.
pub fn virtual_import_dir_name() -> (r: String)
    ensures
        r@ == virtual_import_dir(),
{
    "virtual://临时导入".to_owned()
}

/// The state of an import after some of the paths.
pub struct ImportState {
    pub known: Seq<Seq<char>>,
    pub added: Seq<Seq<char>>,
    pub files: Seq<(Seq<char>, Seq<char>, bool)>,
    pub skipped: Seq<Seq<char>>,
    pub unsupported: Seq<Seq<char>>,
    pub virtual_used: bool,
}

/// The import state after the normalized paths `paths` with their probes
/// (`parents` holds each path's parent directory or "").
pub open spec fn import_after(
    known: Seq<Seq<char>>,
    paths: Seq<Seq<char>>,
    probes: Seq<PathProbe>,
    parents: Seq<Seq<char>>,
) -> ImportState
    decreases paths.len(),
{
    if paths.len() == 0 || probes.len() < paths.len() || parents.len() < paths.len() {
        ImportState {
            known,
            added: Seq::empty(),
            files: Seq::empty(),
            skipped: Seq::empty(),
            unsupported: Seq::empty(),
            virtual_used: false,
        }
    } else {
        let n = (paths.len() - 1) as int;
        let st = import_after(known, paths.drop_last(), probes.take(n), parents.take(n));
        let p = paths[n];
        if p.len() == 0 {
            st
        } else {
            match probes[n] {
                PathProbe::Dir => ImportState { known: st.known.push(p), added: st.added.push(p), ..st },
                PathProbe::File { supported } => {
                    if !supported {
                        ImportState { unsupported: st.unsupported.push(p), ..st }
                    } else if parents[n].len() > 0 && st.known.contains(parents[n]) {
                        ImportState { files: st.files.push((p, parents[n], false)), ..st }
                    } else {
                        ImportState {
                            known: if st.virtual_used { st.known } else { st.known.push(virtual_import_dir()) },
                            files: st.files.push((p, virtual_import_dir(), true)),
                            virtual_used: true,
                            ..st
                        }
                    }
                },
                PathProbe::Missing => ImportState { skipped: st.skipped.push(p), ..st },
            }
        }
    }
}

/// How many of `paths` are not empty.
pub open spec fn count_nonempty(paths: Seq<Seq<char>>) -> nat
    decreases paths.len(),
{
    if paths.len() == 0 {
        0
    } else {
        count_nonempty(paths.drop_last()) + if paths.last().len() > 0 { 1nat } else { 0nat }
    }
}

/// Every non-empty path of an import is accounted for exactly once: it becomes an
/// index directory, an imported file, a skipped path or an unsupported one. Every
/// imported file is filed under a directory that is known once the import is done,
/// and the directories known before the import stay known.
pub proof fn law_import_accounts_for_every_path(
    known: Seq<Seq<char>>,
    paths: Seq<Seq<char>>,
    probes: Seq<PathProbe>,
    parents: Seq<Seq<char>>,
)
    requires
        probes.len() == paths.len(),
        parents.len() == paths.len(),
    ensures
        ({
            let st = import_after(known, paths, probes, parents);
            &&& st.added.len() + st.files.len() + st.skipped.len() + st.unsupported.len()
                == count_nonempty(paths)
            &&& forall|k: int| 0 <= k < st.files.len() ==> st.known.contains(#[trigger] st.files[k].1)
            &&& forall|d: Seq<char>| known.contains(d) ==> st.known.contains(d)
        }),
    decreases paths.len(),
{
    if paths.len() > 0 {
        let n = (paths.len() - 1) as int;
        law_import_accounts_for_every_path(known, paths.drop_last(), probes.take(n), parents.take(n));
        let st = import_after(known, paths.drop_last(), probes.take(n), parents.take(n));
        let fin = import_after(known, paths, probes, parents);
        assert(paths.drop_last().len() == n);
        if paths[n].len() > 0 {
            match probes[n] {
                PathProbe::Dir => {
                    assert forall|d: Seq<char>| st.known.contains(d) implies fin.known.contains(d) by {
                        let j = choose|j: int| 0 <= j < st.known.len() && st.known[j] == d;
                        assert(fin.known[j] == d);
                    }
                },
                PathProbe::File { supported } => {
                    if supported && !(parents[n].len() > 0 && st.known.contains(parents[n])) {
                        if !st.virtual_used {
                            assert forall|d: Seq<char>| st.known.contains(d) implies fin.known.contains(d) by {
                                let j = choose|j: int| 0 <= j < st.known.len() && st.known[j] == d;
                                assert(fin.known[j] == d);
                            }
                            assert(fin.known[st.known.len() as int] == virtual_import_dir());
                        } else {
                            lemma_virtual_known(known, paths.drop_last(), probes.take(n), parents.take(n));
                        }
                        assert forall|k: int| 0 <= k < fin.files.len() implies fin.known.contains(#[trigger] fin.files[k].1) by {
                            if k < st.files.len() {
                                assert(fin.files[k] == st.files[k]);
                            }
                        }
                    } else if supported {
                        assert forall|k: int| 0 <= k < fin.files.len() implies fin.known.contains(#[trigger] fin.files[k].1) by {
                            if k < st.files.len() {
                                assert(fin.files[k] == st.files[k]);
                            }
                        }
                    }
                },
                PathProbe::Missing => {},
            }
        }
    }
}

/// Once the virtual import directory has been used, it is known.
proof fn lemma_virtual_known(
    known: Seq<Seq<char>>,
    paths: Seq<Seq<char>>,
    probes: Seq<PathProbe>,
    parents: Seq<Seq<char>>,
)
    requires
        probes.len() == paths.len(),
        parents.len() == paths.len(),
        import_after(known, paths, probes, parents).virtual_used,
    ensures
        import_after(known, paths, probes, parents).known.contains(virtual_import_dir()),
    decreases paths.len(),
{
    let n = (paths.len() - 1) as int;
    let st = import_after(known, paths.drop_last(), probes.take(n), parents.take(n));
    let fin = import_after(known, paths, probes, parents);
    if st.virtual_used {
        lemma_virtual_known(known, paths.drop_last(), probes.take(n), parents.take(n));
        let j = choose|j: int| 0 <= j < st.known.len() && st.known[j] == virtual_import_dir();
        if paths[n].len() > 0 {
            match probes[n] {
                PathProbe::Dir => {
                    assert(fin.known[j] == virtual_import_dir());
                },
                _ => {},
            }
        }
    } else {
        assert(fin.known[st.known.len() as int] == virtual_import_dir());
    }
}

/// The (path, directory, is-virtual) triples of imported files.
pub open spec fn imported_views(v: Seq<ImportedPathView>) -> Seq<(Seq<char>, Seq<char>, bool)> {
    v.map_values(|f: ImportedPathView| (f.path@, f.dir_path@, f.is_virtual))
}

fn contains_str(v: &Vec<String>, x: &String) -> (r: bool)
    ensures
        r == string_views(v@).contains(x@),
{
    let mut i: usize = 0;
    while i < v.len()
        invariant
            i <= v@.len(),
            forall|k: int| 0 <= k < i ==> v@[k]@ != x@,
        decreases v@.len() - i,
    {
        if v[i] == *x {
            proof {
                assert(string_views(v@)[i as int] == x@);
            }
            return true;
        }
        i += 1;
    }
    proof {
        if string_views(v@).contains(x@) {
            let k = choose|k: int| 0 <= k < string_views(v@).len() && string_views(v@)[k] == x@;
            assert(v@[k]@ == x@);
        }
    }
    false
}

fn push_string(v: &mut Vec<String>, x: String)
    ensures
        string_views(final(v)@) == string_views(old(v)@).push(x@),
{
    v.push(x);
    proof {
        assert(string_views(v@) =~= string_views(old(v)@).push(x@));
    }
}

/// The plan of an import: given each (already normalized)
/// path with its probe and parent directory, and the directories already
/// indexed, decides which paths become index directories, which files are
/// filed under a known directory or the virtual import directory, and which
/// are skipped or unsupported. The caller adds the directories in
/// `added_dirs` (and the virtual directory when it is used).
pub fn plan_import(
    known_dirs: Vec<String>,
    paths: &Vec<String>,
    probes: &Vec<PathProbe>,
    parents: &Vec<String>,
) -> (r: ImportPathsView)
    requires
        probes@.len() == paths@.len(),
        parents@.len() == paths@.len(),
    ensures
        ({
            let st = import_after(string_views(known_dirs@), string_views(paths@), probes@, string_views(parents@));
            &&& string_views(r.added_dirs@) == st.added
            &&& imported_views(r.imported_files@) == st.files
            &&& string_views(r.skipped@) == st.skipped
            &&& string_views(r.unsupported@) == st.unsupported
            &&& r.virtual_dir@ == if st.virtual_used { virtual_import_dir() } else { Seq::empty() }
        }),
{
    let ghost pv = string_views(paths@);
    let ghost qv = string_views(parents@);
    let mut known = known_dirs;
    let mut added: Vec<String> = Vec::new();
    let mut files: Vec<ImportedPathView> = Vec::new();
    let mut skipped: Vec<String> = Vec::new();
    let mut unsupported: Vec<String> = Vec::new();
    let mut virtual_used = false;
    let mut i: usize = 0;
    while i < paths.len()
        invariant
            i <= paths@.len() == probes@.len() == parents@.len(),
            pv == string_views(paths@),
            qv == string_views(parents@),
            ({
                let st = import_after(string_views(known_dirs@), pv.take(i as int), probes@.take(i as int), qv.take(i as int));
                &&& string_views(known@) == st.known
                &&& string_views(added@) == st.added
                &&& imported_views(files@) == st.files
                &&& string_views(skipped@) == st.skipped
                &&& string_views(unsupported@) == st.unsupported
                &&& virtual_used == st.virtual_used
            }),
        decreases paths@.len() - i,
    {
        proof {
            let n = i as int;
            assert(pv.take(i + 1).drop_last() =~= pv.take(n));
            assert(probes@.take(i + 1).take(n) =~= probes@.take(n));
            assert(qv.take(i + 1).take(n) =~= qv.take(n));
            assert(pv.take(i + 1)[n] == paths@[n]@);
            assert(qv.take(i + 1)[n] == parents@[n]@);
            assert(probes@.take(i + 1)[n] == probes@[n]);
        }
        let p = &paths[i];
        if !p.as_str().is_empty() {
            match &probes[i] {
                PathProbe::Dir => {
                    push_string(&mut known, p.clone());
                    push_string(&mut added, p.clone());
                },
                PathProbe::File { supported } => {
                    if !*supported {
                        push_string(&mut unsupported, p.clone());
                    } else if !parents[i].as_str().is_empty() && contains_str(&known, &parents[i]) {
                        let ghost before = imported_views(files@);
                        files.push(ImportedPathView { path: p.clone(), dir_path: parents[i].clone(), is_virtual: false });
                        proof {
                            assert(imported_views(files@) =~= before.push((paths@[i as int]@, parents@[i as int]@, false)));
                        }
                    } else {
                        if !virtual_used {
                            push_string(&mut known, virtual_import_dir_name());
                            virtual_used = true;
                        }
                        let ghost before = imported_views(files@);
                        let vd = virtual_import_dir_name();
                        files.push(ImportedPathView { path: p.clone(), dir_path: vd, is_virtual: true });
                        proof {
                            assert(imported_views(files@) =~= before.push((paths@[i as int]@, virtual_import_dir(), true)));
                        }
                    }
                },
                PathProbe::Missing => {
                    push_string(&mut skipped, p.clone());
                },
            }
        }
        i += 1;
    }
    proof {
        assert(pv.take(paths@.len() as int) =~= pv);
        assert(probes@.take(paths@.len() as int) =~= probes@);
        assert(qv.take(paths@.len() as int) =~= qv);
    }
    ImportPathsView {
        added_dirs: added,
        imported_files: files,
        virtual_dir: if virtual_used { virtual_import_dir_name() } else { String::new() },
        skipped,
        unsupported,
    }
}


/// Which words decide the category of a failure, and which earlier words win
/// over them: the categories are tried in the order file too large,
/// unsupported format, permission denied, file missing, invalid path, timeout,
/// database, index, I/O; a reason with none of their words is a parse error.
/// So a reason naming a missing file ("no such file", "不存在", "找不到",
/// "not found") is a missing file unless it also has the words of an earlier
/// category.
pub proof fn law_failure_keywords(reason: Seq<char>, path: Seq<char>)
    ensures
        ({
            let code = failure_class(reason, path).1;
            let lr = lowercase(reason);
            let too_large = contains(reason, "文件过大"@);
            let unsupported = contains(reason, "暂不支持 PDF"@) || contains(reason, "不支持的文件类型"@)
                || contains(lr, "unsupported file type"@);
            let denied = contains(lr, "permission denied"@) || contains(reason, "权限"@) || contains(lr, "access denied"@);
            let missing = contains(lr, "no such file"@) || contains(reason, "不存在"@) || contains(reason, "找不到"@)
                || contains(lr, "not found"@);
            let invalid = contains(lr, "is a directory"@) || contains(reason, "目录"@) || contains(lr, "invalid path"@)
                || contains(lr, "not a file"@);
            &&& too_large ==> code == "file_too_large"@
            &&& !too_large && unsupported ==> code == "unsupported_format"@
            &&& !too_large && !unsupported && denied ==> code == "permission_denied"@
            &&& !too_large && !unsupported && !denied && missing ==> code == "file_missing"@ && failure_class(reason, path).0 == "文件缺失"@
            &&& !too_large && !unsupported && !denied && !missing && invalid ==> code == "invalid_path"@
            &&& missing ==> (code == "file_too_large"@ || code == "unsupported_format"@ || code == "permission_denied"@
                || code == "file_missing"@)
        }),
        ({
            let lr = lowercase(reason);
            let earlier = contains(reason, "文件过大"@) || contains(reason, "暂不支持 PDF"@)
                || contains(reason, "不支持的文件类型"@) || contains(lr, "unsupported file type"@)
                || contains(lr, "permission denied"@) || contains(reason, "权限"@) || contains(lr, "access denied"@)
                || contains(lr, "no such file"@) || contains(reason, "不存在"@) || contains(reason, "找不到"@)
                || contains(lr, "not found"@) || contains(lr, "is a directory"@) || contains(reason, "目录"@)
                || contains(lr, "invalid path"@) || contains(lr, "not a file"@);
            let timeout = contains(lr, "timed out"@) || contains(lr, "timeout"@);
            let database = contains(lr, "sqlite"@) || contains(lr, "database"@) || contains(lr, "pool timed out"@);
            let index = contains(lr, "tantivy"@) || contains(lr, "index"@);
            let io = contains(lr, "io error"@) || contains(lr, "input/output"@);
            &&& !earlier && timeout ==> failure_class(reason, path) == ("处理超时"@, "timeout"@)
            &&& !earlier && !timeout && database ==> failure_class(reason, path) == ("数据库错误"@, "database_error"@)
            &&& !earlier && !timeout && !database && index ==> failure_class(reason, path) == ("索引错误"@, "index_error"@)
            &&& !earlier && !timeout && !database && !index && io ==> failure_class(reason, path) == ("IO 错误"@, "io_error"@)
            &&& !earlier && !timeout && !database && !index && !io ==> failure_class(reason, path).1 == "parse_error"@
                && failure_class(reason, path).0 == if ends_with(lowercase(path), ".pdf"@) { "PDF 解析失败"@ } else { "解析失败"@ }
        }),
{
}

} // verus!
