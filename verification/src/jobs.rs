//! The job table: an in-memory record of backgrounded or suspended process
//! groups, with monotonically assigned ids that reset to 1 once the table
//! drains.

use vstd::prelude::*;

verus! {

/// Whether a tracked job is currently running or has been stopped by a
/// job-control signal.
#[derive(Clone, Copy, PartialEq, Eq, Structural, Debug)]
pub enum JobStatus {
    Running,
    Suspended,
}

impl JobStatus {
    /// The display label of the status; suspended jobs are shown as `Stopped`.
    pub fn label(&self) -> (r: String)
        ensures
            *self is Running ==> r@ == "Running"@,
            *self is Suspended ==> r@ == "Stopped"@,
    {
        match self {
            JobStatus::Running => String::from_str("Running"),
            JobStatus::Suspended => String::from_str("Stopped"),
        }
    }
}

/// One tracked process group: its shell-assigned id, its process-group id,
/// the command line it was started from (display form), and its status.
#[derive(Clone, Debug)]
pub struct Job {
    pub id: usize,
    pub pgid: i32,
    pub cmd: String,
    pub status: JobStatus,
}

/// The mathematical value of a [`Job`].
pub struct JobModel {
    pub id: nat,
    pub pgid: int,
    pub cmd: Seq<char>,
    pub status: JobStatus,
}

impl View for Job {
    type V = JobModel;

    open spec fn view(&self) -> JobModel {
        JobModel { id: self.id as nat, pgid: self.pgid as int, cmd: self.cmd@, status: self.status }
    }
}

/// The mathematical value of a [`JobManager`]: the sequence of tracked jobs
/// (in insertion order) and the id the next job will receive.
pub struct JobTableModel {
    pub jobs: Seq<JobModel>,
    pub next_id: nat,
}

impl JobTableModel {
    /// The table of a freshly started shell: nothing tracked, ids start at 1.
    pub open spec fn empty() -> JobTableModel {
        JobTableModel { jobs: Seq::empty(), next_id: 1 }
    }

    /// Ids start at 1 and never fall behind the ids already handed out.
    pub open spec fn wf(self) -> bool {
        &&& self.next_id >= 1
        &&& forall|i: int| 0 <= i < self.jobs.len() ==> (#[trigger] self.jobs[i]).id < self.next_id
    }
}

/// What `add_job` does to the table: appends the entry and advances the id
/// counter. Returns the new table and the id assigned.
pub open spec fn spec_add_job(
    t: JobTableModel,
    pgid: int,
    cmd: Seq<char>,
    status: JobStatus,
) -> (JobTableModel, nat) {
    (
        JobTableModel {
            jobs: t.jobs.push(JobModel { id: t.next_id, pgid, cmd, status }),
            next_id: t.next_id + 1,
        },
        t.next_id,
    )
}

/// What `remove_job` does to the table: drops every entry of the given
/// process group; if that empties the table, the id counter resets to 1.
pub open spec fn spec_remove_job(t: JobTableModel, pgid: int) -> JobTableModel {
    let kept = t.jobs.filter(|j: JobModel| j.pgid != pgid);
    JobTableModel { jobs: kept, next_id: if kept.len() == 0 { 1nat } else { t.next_id } }
}

/// The ids a run of `add_job` calls returns, applied in order from `t`.
pub open spec fn spec_add_ids(t: JobTableModel, calls: Seq<(int, Seq<char>, JobStatus)>) -> Seq<
    nat,
>
    decreases calls.len(),
{
    if calls.len() == 0 {
        Seq::empty()
    } else {
        let step = spec_add_job(t, calls[0].0, calls[0].1, calls[0].2);
        seq![step.1] + spec_add_ids(step.0, calls.drop_first())
    }
}

/// For any run of `add_job` calls with no `remove_job` between them, the
/// returned ids count up one by one from the table's next id — so they are
/// strictly increasing, and from the empty table they start at 1.
pub proof fn lemma_job_ids_monotonic(t: JobTableModel, calls: Seq<(int, Seq<char>, JobStatus)>)
    ensures
        spec_add_ids(t, calls).len() == calls.len(),
        forall|i: int|
            0 <= i < calls.len() ==> #[trigger] spec_add_ids(t, calls)[i] == t.next_id + i,
        t == JobTableModel::empty() ==> forall|i: int|
            0 <= i < calls.len() ==> #[trigger] spec_add_ids(t, calls)[i] == 1 + i,
    decreases calls.len(),
{
    if calls.len() > 0 {
        let step = spec_add_job(t, calls[0].0, calls[0].1, calls[0].2);
        lemma_job_ids_monotonic(step.0, calls.drop_first());
    }
}

/// Once `remove_job` empties the table, the next `add_job` returns 1.
pub proof fn lemma_job_id_reset(
    t: JobTableModel,
    pgid: int,
    new_pgid: int,
    cmd: Seq<char>,
    status: JobStatus,
)
    requires
        spec_remove_job(t, pgid).jobs.len() == 0,
    ensures
        spec_add_job(spec_remove_job(t, pgid), new_pgid, cmd, status).1 == 1,
{
}

/// The in-memory record of background and suspended jobs. Owned exclusively
/// by the executor; the background reaper and the `fg`/`bg` built-ins go
/// through it to observe and retire process groups.
pub struct JobManager {
    jobs: Vec<Job>,
    next_id: usize,
}

impl View for JobManager {
    type V = JobTableModel;

    closed spec fn view(&self) -> JobTableModel {
        JobTableModel {
            jobs: Seq::new(self.jobs@.len(), |i: int| self.jobs@[i]@),
            next_id: self.next_id as nat,
        }
    }
}

impl JobManager {
    /// An empty table; the first job added will get id 1.
    pub fn new() -> (r: JobManager)
        ensures
            r@ == JobTableModel::empty(),
            r@.wf(),
    {
        let r = JobManager { jobs: Vec::new(), next_id: 1 };
        proof {
            assert(r@.jobs =~= Seq::<JobModel>::empty());
        }
        r
    }

    /// Appends a new entry for `pgid` and returns its id. Ids are handed out
    /// strictly increasing until the table next becomes empty.
    pub fn add_job(&mut self, pgid: i32, cmd: String, status: JobStatus) -> (id: usize)
        requires
            old(self)@.wf(),
            old(self)@.next_id < usize::MAX,
        ensures
            final(self)@ == spec_add_job(old(self)@, pgid as int, cmd@, status).0,
            id as nat == spec_add_job(old(self)@, pgid as int, cmd@, status).1,
            final(self)@.wf(),
    {
        let id = self.next_id;
        self.jobs.push(Job { id, pgid, cmd, status });
        self.next_id = self.next_id + 1;
        proof {
            let spec_t = spec_add_job(old(self)@, pgid as int, cmd@, status).0;
            assert(self@.jobs =~= spec_t.jobs);
        }
        id
    }

    /// Removes every entry whose process group is `pgid` (normally exactly
    /// one); if the table becomes empty the id counter resets to 1.
    pub fn remove_job(&mut self, pgid: i32)
        requires
            old(self)@.wf(),
        ensures
            final(self)@ == spec_remove_job(old(self)@, pgid as int),
            final(self)@.wf(),
    {
        let ghost old_jobs = self@.jobs;
        let mut kept: Vec<Job> = Vec::new();
        let mut i: usize = 0;
        proof {
            assert(old_jobs.take(0int) =~= Seq::<JobModel>::empty());
            assert(old_jobs.take(0int).filter(|j: JobModel| j.pgid != pgid as int) =~= Seq::<
                JobModel,
            >::empty());
        }
        while i < self.jobs.len()
            invariant
                i <= self.jobs.len(),
                old(self)@.wf(),
                old_jobs == old(self)@.jobs,
                old_jobs.len() == self.jobs.len(),
                forall|k: int| 0 <= k < self.jobs.len() ==> old_jobs[k] == self.jobs@[k]@,
                Seq::new(kept@.len(), |k: int| kept@[k]@) =~= old_jobs.take(i as int).filter(
                    |j: JobModel| j.pgid != pgid as int,
                ),
                forall|k: int|
                    0 <= k < kept@.len() ==> (#[trigger] kept@[k]@).id < old(self)@.next_id,
            decreases self.jobs.len() - i,
        {
            proof {
                assert(old_jobs.take(i + 1int).drop_last() =~= old_jobs.take(i as int));
                reveal_with_fuel(Seq::filter, 2);
                assert(old_jobs.take(i + 1int).last() == old_jobs[i as int]);
            }
            let j = &self.jobs[i];
            if j.pgid != pgid {
                let cloned = Job {
                    id: j.id,
                    pgid: j.pgid,
                    cmd: j.cmd.clone(),
                    status: j.status,
                };
                kept.push(cloned);
            }
            proof {
                assert(Seq::new(kept@.len(), |k: int| kept@[k]@) =~= old_jobs.take(
                    i + 1int,
                ).filter(|j: JobModel| j.pgid != pgid as int));
            }
            i = i + 1;
        }
        proof {
            assert(old_jobs.take(old_jobs.len() as int) =~= old_jobs);
        }
        self.jobs = kept;
        if self.jobs.len() == 0 {
            self.next_id = 1;
        }
        proof {
            assert(self@.jobs =~= spec_remove_job(old(self)@, pgid as int).jobs);
        }
    }

    /// The id the next job will receive. Callers check it stays below
    /// `usize::MAX` before adding a job.
    pub fn next_job_id(&self) -> (r: usize)
        ensures
            r as nat == self@.next_id,
    {
        self.next_id
    }

    /// A read-only snapshot of the tracked jobs, in insertion order.
    pub fn get_jobs(&self) -> (r: &Vec<Job>)
        ensures
            Seq::new(r@.len(), |i: int| r@[i]@) == self@.jobs,
    {
        &self.jobs
    }

    /// Looks a job up by its shell-assigned id, for `fg`/`bg`; the first
    /// matching entry is returned.
    pub fn find_job_by_id(&self, id: usize) -> (r: Option<&Job>)
        ensures
            match r {
                Some(j) => exists|i: int|
                    0 <= i < self@.jobs.len() && #[trigger] self@.jobs[i] == j@ && j@.id
                        == id as nat && (forall|k: int|
                        0 <= k < i ==> (#[trigger] self@.jobs[k]).id != id as nat),
                None => forall|i: int|
                    0 <= i < self@.jobs.len() ==> (#[trigger] self@.jobs[i]).id != id as nat,
            },
    {
        let mut i: usize = 0;
        while i < self.jobs.len()
            invariant
                i <= self.jobs.len(),
                forall|k: int| 0 <= k < i ==> (#[trigger] self@.jobs[k]).id != id as nat,
            decreases self.jobs.len() - i,
        {
            if self.jobs[i].id == id {
                proof {
                    assert(0 <= (i as int) < self@.jobs.len() && self@.jobs[i as int]
                        == self.jobs@[i as int]@ && self@.jobs[i as int].id == id as nat);
                }
                return Some(&self.jobs[i]);
            }
            i = i + 1;
        }
        None
    }
}

} // verus!
