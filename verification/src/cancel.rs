//! The registry of running question-answering jobs, by job id, so that a job
//! can be cancelled from another request.
use vstd::prelude::*;
use futures_util::future::AbortHandle;
use vstd::hash_map::StringHashMap;

verus! {

#[verifier::external_type_specification]
#[verifier::external_body]
pub struct ExAbortHandle(AbortHandle);

/// `AbortHandle::abort`: asks the task behind the handle to stop. It returns
/// nothing, and nothing is stated of it.
#[verifier::external_body]
fn abort_job(handle: &AbortHandle) {
    handle.abort();
}

/// The running jobs, each with the handle that aborts it, by job id.
pub struct JobRegistry {
    jobs: StringHashMap<AbortHandle>,
}

impl View for JobRegistry {
    type V = Map<Seq<char>, AbortHandle>;

    closed spec fn view(&self) -> Map<Seq<char>, AbortHandle> {
        self.jobs@
    }
}

impl JobRegistry {
    /// An empty registry.
    pub fn new() -> (r: JobRegistry)
        ensures
            r@ == Map::<Seq<char>, AbortHandle>::empty(),
    {
        JobRegistry { jobs: StringHashMap::new() }
    }
}

/// Registers the abort handle of a job; a handle already registered under
/// the same id is replaced.
pub fn register(registry: &mut JobRegistry, job_id: String, abort_handle: AbortHandle)
    ensures
        final(registry)@ == old(registry)@.insert(job_id@, abort_handle),
{
    registry.jobs.insert(job_id, abort_handle);
}

/// Cancels a job: its handle is aborted and leaves the registry. `true`
/// exactly when the job was registered.
pub fn cancel(registry: &mut JobRegistry, job_id: &str) -> (r: bool)
    ensures
        final(registry)@ == old(registry)@.remove(job_id@),
        r == old(registry)@.dom().contains(job_id@),
{
    let found = match registry.jobs.get(job_id) {
        Some(handle) => {
            abort_job(handle);
            true
        },
        None => false,
    };
    registry.jobs.remove(job_id);
    found
}

/// Forgets a job that has finished, without aborting it.
pub fn clear(registry: &mut JobRegistry, job_id: &str)
    ensures
        final(registry)@ == old(registry)@.remove(job_id@),
{
    registry.jobs.remove(job_id);
}

/// A job that was registered and not yet cancelled or cleared is cancelled:
/// the first `cancel` answers `true`.
pub proof fn law_cancel_registered(m: Map<Seq<char>, AbortHandle>, job_id: Seq<char>, h: AbortHandle)
    ensures
        m.insert(job_id, h).dom().contains(job_id),
{
}

/// Cancelling twice: the second `cancel` answers `false`, and so does a
/// `cancel` after `clear`.
pub proof fn law_cancel_once(m: Map<Seq<char>, AbortHandle>, job_id: Seq<char>)
    ensures
        !m.remove(job_id).dom().contains(job_id),
        m.remove(job_id).remove(job_id) == m.remove(job_id),
{
    assert(m.remove(job_id).remove(job_id) =~= m.remove(job_id));
}

/// Jobs other than the one cancelled or cleared stay registered with their
/// handles.
pub proof fn law_others_untouched(m: Map<Seq<char>, AbortHandle>, job_id: Seq<char>, other: Seq<char>)
    requires
        other != job_id,
    ensures
        m.remove(job_id).dom().contains(other) == m.dom().contains(other),
        m.dom().contains(other) ==> m.remove(job_id)[other] == m[other],
{
}

} // verus!
