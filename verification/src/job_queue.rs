//! The job queue: units of work with a priority and a one-way lifecycle,
//! `Queued`, then `Running`, then `Done`, `Failed` or `Canceled`.

use crate::media_cache::current_timestamp;
use crate::seqs::{distinct_by, lemma_filter_distinct, lemma_filter_push, lemma_push_distinct};
use crate::text::{clone_opt, opt_view, same_text, starts_with};
use uuid::Uuid;
use vstd::prelude::*;

verus! {

/// Seconds in a day.
pub const SECONDS_PER_DAY: u64 = 86400;

/// What a job is to do.
#[derive(Debug, Clone, Copy, PartialEq, Eq, Structural)]
pub enum JobKind {
    Scan,
    Thumb,
    Proxy,
    Analyze,
    Render,
}

/// Where a job stands in its lifecycle.
#[derive(Debug, Clone, Copy, PartialEq, Eq, Structural)]
pub enum JobStatus {
    Queued,
    Running,
    Done,
    Failed,
    Canceled,
}

/// One unit of work.
#[derive(Debug, PartialEq, Eq)]
pub struct Job {
    /// The job's identity in the queue.
    pub id: String,
    pub kind: JobKind,
    /// The file or directory that the job is about.
    pub path: String,
    pub status: JobStatus,
    /// The lower, the more urgent.
    pub priority: u32,
    /// Seconds since the Unix epoch, as the two times below.
    pub created_at: u64,
    pub started_at: Option<u64>,
    pub finished_at: Option<u64>,
    /// The job's input, as JSON text. The queue carries it and never reads it.
    pub payload: String,
    /// The job's result, as JSON text.
    pub result: Option<String>,
    pub error: Option<String>,
}

/// The mathematical value of a [`Job`].
pub struct JobView {
    pub id: Seq<char>,
    pub kind: JobKind,
    pub path: Seq<char>,
    pub status: JobStatus,
    pub priority: u32,
    pub created_at: u64,
    pub started_at: Option<u64>,
    pub finished_at: Option<u64>,
    pub payload: Seq<char>,
    pub result: Option<Seq<char>>,
    pub error: Option<Seq<char>>,
}

impl View for Job {
    type V = JobView;

    open spec fn view(&self) -> JobView {
        JobView {
            id: self.id@,
            kind: self.kind,
            path: self.path@,
            status: self.status,
            priority: self.priority,
            created_at: self.created_at,
            started_at: self.started_at,
            finished_at: self.finished_at,
            payload: self.payload@,
            result: opt_view(self.result),
            error: opt_view(self.error),
        }
    }
}

impl Clone for Job {
    fn clone(&self) -> (r: Self)
        ensures
            r@ == self@,
    {
        Job {
            id: self.id.clone(),
            kind: self.kind,
            path: self.path.clone(),
            status: self.status,
            priority: self.priority,
            created_at: self.created_at,
            started_at: self.started_at,
            finished_at: self.finished_at,
            payload: self.payload.clone(),
            result: clone_opt(&self.result),
            error: clone_opt(&self.error),
        }
    }
}

/// Why the queue refused something.
#[derive(Debug, Clone, Copy, PartialEq, Eq, Structural)]
pub enum JobError {
    /// The queue holds a job of this id already.
    DuplicateId,
    /// The job's status may not be followed by the one asked for.
    IllegalTransition,
    /// The job's times do not fit its status.
    Malformed,
}

/// The values of the jobs of a list.
pub open spec fn job_views(jobs: Seq<Job>) -> Seq<JobView> {
    Seq::new(jobs.len(), |i: int| jobs[i]@)
}

/// A status that no other follows.
pub open spec fn is_terminal(status: JobStatus) -> bool {
    status is Done || status is Failed || status is Canceled
}

/// Whether a job in `from` may go over to `to`: a queued job may start or be
/// canceled, a running job may end in one of the three final states, and a
/// job that has ended stays as it is.
pub open spec fn may_follow(from: JobStatus, to: JobStatus) -> bool {
    match from {
        JobStatus::Queued => to is Running || to is Canceled,
        JobStatus::Running => is_terminal(to),
        _ => false,
    }
}

/// Whether a job's times fit its status: a queued job has neither started
/// nor ended, a running job has started and not ended, a job that is done or
/// has failed has started and ended, a canceled job has ended.
pub open spec fn job_wf(j: JobView) -> bool {
    match j.status {
        JobStatus::Queued => j.started_at is None && j.finished_at is None,
        JobStatus::Running => j.started_at is Some && j.finished_at is None,
        JobStatus::Done | JobStatus::Failed => j.started_at is Some && j.finished_at is Some,
        JobStatus::Canceled => j.finished_at is Some,
    }
}

/// The id of a job.
pub open spec fn id_of() -> spec_fn(JobView) -> Seq<char> {
    |j: JobView| j.id
}

/// What holds of every queue: no two jobs have one id, and each job's times
/// fit its status.
pub open spec fn queue_wf(jobs: Seq<JobView>) -> bool {
    &&& distinct_by(jobs, id_of())
    &&& forall|i: int| 0 <= i < jobs.len() ==> job_wf(#[trigger] jobs[i])
}

/// Whether the queue holds a job of this id.
pub open spec fn has_id(jobs: Seq<JobView>, id: Seq<char>) -> bool {
    exists|i: int| 0 <= i < jobs.len() && (#[trigger] jobs[i]).id == id
}

/// A job as it enters the queue.
pub open spec fn new_job(
    id: Seq<char>,
    created_at: u64,
    kind: JobKind,
    path: Seq<char>,
    priority: u32,
    payload: Seq<char>,
) -> JobView {
    JobView {
        id,
        kind,
        path,
        status: JobStatus::Queued,
        priority,
        created_at,
        started_at: None,
        finished_at: None,
        payload,
        result: None,
        error: None,
    }
}

/// Whether `a` is to run before `b`: it is more urgent, or as urgent and
/// older.
pub open spec fn precedes(a: JobView, b: JobView) -> bool {
    a.priority < b.priority || (a.priority == b.priority && a.created_at < b.created_at)
}

/// Whether the job at `i` is the one to run next: it is queued, no queued job
/// is to run before it, and of the queued jobs of its priority and age it
/// stands first.
pub open spec fn is_next(jobs: Seq<JobView>, i: int) -> bool {
    &&& 0 <= i < jobs.len()
    &&& jobs[i].status is Queued
    &&& forall|j: int|
        0 <= j < jobs.len() && (#[trigger] jobs[j]).status is Queued ==> {
            &&& !precedes(jobs[j], jobs[i])
            &&& j < i ==> precedes(jobs[i], jobs[j])
        }
}

/// Whether a job is queued.
pub open spec fn has_queued(jobs: Seq<JobView>) -> bool {
    exists|i: int| 0 <= i < jobs.len() && (#[trigger] jobs[i]).status is Queued
}

/// The place of the job to run next.
pub open spec fn next_index(jobs: Seq<JobView>) -> int {
    choose|i: int| is_next(jobs, i)
}

/// A job after its status was set at `now`: starting stamps `started_at`,
/// ending stamps `finished_at`, and result and error are those given.
pub open spec fn with_status(
    j: JobView,
    status: JobStatus,
    result: Option<Seq<char>>,
    error: Option<Seq<char>>,
    now: u64,
) -> JobView {
    if status is Running {
        JobView { status, started_at: Some(now), result, error, ..j }
    } else {
        JobView { status, finished_at: Some(now), result, error, ..j }
    }
}

/// The queue after the status of the job of `id` was set at `now`: the job
/// changes where its status may be followed by the new one; else, and
/// without such a job, nothing changes.
pub open spec fn status_set(
    jobs: Seq<JobView>,
    id: Seq<char>,
    status: JobStatus,
    result: Option<Seq<char>>,
    error: Option<Seq<char>>,
    now: u64,
) -> Seq<JobView> {
    Seq::new(
        jobs.len(),
        |i: int|
            if jobs[i].id == id && may_follow(jobs[i].status, status) {
                with_status(jobs[i], status, result, error, now)
            } else {
                jobs[i]
            },
    )
}

/// Whether the queue holds a job of `id` whose status may not be followed by
/// `status`.
pub open spec fn refuses(jobs: Seq<JobView>, id: Seq<char>, status: JobStatus) -> bool {
    exists|i: int|
        0 <= i < jobs.len() && (#[trigger] jobs[i]).id == id && !may_follow(jobs[i].status, status)
}

/// Passes the queued jobs whose path begins with `prefix`.
pub open spec fn cancelable(prefix: Seq<char>) -> spec_fn(JobView) -> bool {
    |j: JobView| j.status is Queued && prefix.is_prefix_of(j.path)
}

/// The queue after the queued jobs under `prefix` were canceled at `now`.
pub open spec fn prefix_canceled(jobs: Seq<JobView>, prefix: Seq<char>, now: u64) -> Seq<JobView> {
    Seq::new(
        jobs.len(),
        |i: int|
            if cancelable(prefix)(jobs[i]) {
                JobView { status: JobStatus::Canceled, finished_at: Some(now), ..jobs[i] }
            } else {
                jobs[i]
            },
    )
}

/// Passes the jobs of one status.
pub open spec fn has_status(status: JobStatus) -> spec_fn(JobView) -> bool {
    |j: JobView| j.status == status
}

/// Number of jobs of one status.
pub open spec fn count_of(jobs: Seq<JobView>, status: JobStatus) -> nat {
    jobs.filter(has_status(status)).len()
}

/// Passes the jobs that a purge at `now` keeps: those that have not ended,
/// and those that ended no longer than `max_age_days` days ago.
pub open spec fn kept_at(max_age_days: u32, now: u64) -> spec_fn(JobView) -> bool {
    |j: JobView|
        !(is_terminal(j.status) && j.finished_at is Some && j.finished_at->0 + max_age_days
            * SECONDS_PER_DAY < now)
}

/// `Uuid::new_v4` of the `uuid` crate draws a random identifier; its
/// `Display` form is the hyphenated one, 36 characters long. Which
/// identifier comes is not said.
#[verifier::external_body]
fn fresh_id() -> (id: String)
    ensures
        id@.len() == 36,
{
    Uuid::new_v4().to_string()
}

/// Where the job of `id` stands.
fn position(jobs: &Vec<Job>, id: &str) -> (r: Option<usize>)
    ensures
        match r {
            Some(i) => i < jobs.len() && jobs@[i as int].id@ == id@,
            None => forall|i: int| 0 <= i < jobs.len() ==> jobs@[i].id@ != id@,
        },
{
    let mut i: usize = 0;
    while i < jobs.len()
        invariant
            i <= jobs.len(),
            forall|k: int| 0 <= k < i ==> jobs@[k].id@ != id@,
        decreases jobs.len() - i,
    {
        if same_text(jobs[i].id.as_str(), id) {
            return Some(i);
        }
        i += 1;
    }
    None
}

/// Whether a job in `from` may go over to `to`.
fn allowed(from: JobStatus, to: JobStatus) -> (r: bool)
    ensures
        r == may_follow(from, to),
{
    match from {
        JobStatus::Queued => match to {
            JobStatus::Running | JobStatus::Canceled => true,
            _ => false,
        },
        JobStatus::Running => match to {
            JobStatus::Done | JobStatus::Failed | JobStatus::Canceled => true,
            _ => false,
        },
        _ => false,
    }
}

/// Whether a job's times fit its status.
fn well_formed_job(job: &Job) -> (r: bool)
    ensures
        r == job_wf(job@),
{
    match job.status {
        JobStatus::Queued => job.started_at.is_none() && job.finished_at.is_none(),
        JobStatus::Running => job.started_at.is_some() && job.finished_at.is_none(),
        JobStatus::Done | JobStatus::Failed => job.started_at.is_some()
            && job.finished_at.is_some(),
        JobStatus::Canceled => job.finished_at.is_some(),
    }
}

/// Whether `a` is to run before `b`.
fn runs_before(a: &Job, b: &Job) -> (r: bool)
    ensures
        r == precedes(a@, b@),
{
    a.priority < b.priority || (a.priority == b.priority && a.created_at < b.created_at)
}

/// Whether a purge at `now` keeps the job.
fn keeps(job: &Job, max_age_days: u32, now: u64) -> (r: bool)
    ensures
        r == kept_at(max_age_days, now)(job@),
{
    let ended = match job.status {
        JobStatus::Done | JobStatus::Failed | JobStatus::Canceled => true,
        _ => false,
    };
    let age: u64 = max_age_days as u64 * SECONDS_PER_DAY;
    match job.finished_at {
        Some(finished) => !(ended && now >= age && finished < now - age),
        None => true,
    }
}

/// The jobs of `jobs` that a purge at `now` keeps, in their order.
fn retain_kept(jobs: Vec<Job>, max_age_days: u32, now: u64) -> (kept: Vec<Job>)
    ensures
        job_views(kept@) == job_views(jobs@).filter(kept_at(max_age_days, now)),
{
    let ghost all = job_views(jobs@);
    let ghost keep = kept_at(max_age_days, now);
    let mut kept: Vec<Job> = Vec::new();
    proof {
        reveal(Seq::filter);
        assert(all.take(0).filter(keep) =~= job_views(kept@));
    }
    for j in it: jobs
        invariant
            it.seq() == jobs@,
            all == job_views(jobs@),
            keep == kept_at(max_age_days, now),
            job_views(kept@) == all.take(it.index() as int).filter(keep),
    {
        proof {
            let i = it.index() as int;
            assert(all.take(i + 1) =~= all.take(i).push(j@));
            lemma_filter_push(all.take(i), j@, keep);
        }
        let ghost before = job_views(kept@);
        if keeps(&j, max_age_days, now) {
            kept.push(j);
            assert(job_views(kept@) =~= before.push(j@));
        }
    }
    assert(all.take(all.len() as int) =~= all);
    kept
}

/// Only one job is the one to run next.
pub proof fn lemma_next_is_unique(jobs: Seq<JobView>, i: int, j: int)
    requires
        is_next(jobs, i),
        is_next(jobs, j),
    ensures
        i == j,
{
    if i < j {
        assert(precedes(jobs[j], jobs[i]));
    } else if j < i {
        assert(precedes(jobs[i], jobs[j]));
    }
}

/// The queue of jobs.
#[derive(Debug)]
pub struct JobQueue {
    jobs: Vec<Job>,
}

impl View for JobQueue {
    type V = Seq<JobView>;

    closed spec fn view(&self) -> Seq<JobView> {
        job_views(self.jobs@)
    }
}

impl JobQueue {
    #[verifier::type_invariant]
    spec fn well_formed(self) -> bool {
        queue_wf(self@)
    }

    /// An empty queue.
    pub fn new() -> (r: Self)
        ensures
            r@ == Seq::<JobView>::empty(),
    {
        let r = JobQueue { jobs: Vec::new() };
        assert(r@ =~= Seq::<JobView>::empty());
        r
    }

    /// Number of jobs, whatever their status.
    pub fn len(&self) -> (r: usize)
        ensures
            r == self@.len(),
            queue_wf(self@),
    {
        proof {
            use_type_invariant(self);
        }
        self.jobs.len()
    }

    /// All jobs, in the order in which they entered the queue.
    pub fn jobs(&self) -> (r: Vec<Job>)
        ensures
            job_views(r@) == self@,
    {
        let mut out: Vec<Job> = Vec::new();
        let mut i: usize = 0;
        while i < self.jobs.len()
            invariant
                i <= self.jobs.len(),
                job_views(out@) == self@.take(i as int),
            decreases self.jobs.len() - i,
        {
            let ghost before = job_views(out@);
            out.push(self.jobs[i].clone());
            assert(self@[i as int] == self.jobs@[i as int]@);
            assert(job_views(out@) =~= before.push(self@[i as int]));
            assert(job_views(out@) =~= self@.take(i + 1));
            i += 1;
        }
        assert(self@.take(i as int) =~= self@);
        out
    }

    /// The job of `id`, if the queue holds one.
    pub fn get(&self, id: &str) -> (r: Option<Job>)
        ensures
            match r {
                Some(j) => self@.contains(j@) && j@.id == id@,
                None => !has_id(self@, id@),
            },
    {
        match position(&self.jobs, id) {
            Some(i) => {
                assert(self@[i as int] == self.jobs@[i as int]@);
                Some(self.jobs[i].clone())
            },
            None => None,
        }
    }

    /// Puts a job into the queue as it is, as when a stored queue is read
    /// back. A job whose times do not fit its status is refused, and so is
    /// one whose id the queue holds.
    pub fn restore(&mut self, job: Job) -> (r: Result<(), JobError>)
        ensures
            queue_wf(final(self)@),
            match r {
                Ok(_) => job_wf(job@) && !has_id(old(self)@, job@.id) && final(self)@ == old(
                    self,
                )@.push(job@),
                Err(e) => final(self)@ == old(self)@ && (if !job_wf(job@) {
                    e == JobError::Malformed
                } else {
                    e == JobError::DuplicateId && has_id(old(self)@, job@.id)
                }),
            },
    {
        proof {
            use_type_invariant(&*self);
        }
        if !well_formed_job(&job) {
            return Err(JobError::Malformed);
        }
        let ghost before = self@;
        match position(&self.jobs, job.id.as_str()) {
            Some(i) => {
                assert(before[i as int].id == job@.id);
                Err(JobError::DuplicateId)
            },
            None => {
                let mut jobs: Vec<Job> = Vec::new();
                std::mem::swap(&mut jobs, &mut self.jobs);
                proof {
                    assert forall|i: int| 0 <= i < before.len() implies id_of()(
                        #[trigger] before[i],
                    ) != id_of()(job@) by {}
                    lemma_push_distinct(before, id_of(), job@);
                }
                jobs.push(job);
                assert(job_views(jobs@) =~= before.push(job@));
                self.jobs = jobs;
                Ok(())
            },
        }
    }

    /// Puts a new job into the queue: queued, created at `created_at`, not
    /// started and not ended. An id that the queue holds is refused.
    pub fn enqueue(
        &mut self,
        id: String,
        created_at: u64,
        kind: JobKind,
        path: String,
        priority: u32,
        payload: String,
    ) -> (r: Result<(), JobError>)
        ensures
            queue_wf(final(self)@),
            match r {
                Ok(_) => !has_id(old(self)@, id@) && final(self)@ == old(self)@.push(
                    new_job(id@, created_at, kind, path@, priority, payload@),
                ),
                Err(e) => e == JobError::DuplicateId && has_id(old(self)@, id@) && final(self)@
                    == old(self)@,
            },
    {
        let job = Job {
            id,
            kind,
            path,
            status: JobStatus::Queued,
            priority,
            created_at,
            started_at: None,
            finished_at: None,
            payload,
            result: None,
            error: None,
        };
        self.restore(job)
    }

    /// Puts a new job into the queue under a fresh random id of 36
    /// characters, created now, and gives the id. The job is refused only in
    /// the event that the id drawn is one that the queue holds: never on a
    /// queue without a job whose id has 36 characters, an empty one among
    /// them.
    pub fn add_job(&mut self, kind: JobKind, path: String, priority: u32, payload: String) -> (r:
        Result<String, JobError>)
        ensures
            queue_wf(final(self)@),
            match r {
                Ok(id) => id@.len() == 36 && !has_id(old(self)@, id@) && exists|created_at: u64|
                    final(self)@ == old(self)@.push(
                        #[trigger] new_job(id@, created_at, kind, path@, priority, payload@),
                    ),
                Err(e) => e == JobError::DuplicateId && final(self)@ == old(self)@ && exists|i: int|
                    0 <= i < old(self)@.len() && (#[trigger] old(self)@[i]).id.len() == 36,
            },
    {
        let id = fresh_id();
        let created_at = current_timestamp();
        match self.enqueue(id.clone(), created_at, kind, path, priority, payload) {
            Ok(_) => Ok(id),
            Err(e) => Err(e),
        }
    }

    /// The job to run next: of the queued jobs the most urgent, of those the
    /// oldest, of those the one that entered the queue first. `None` where
    /// no job is queued. The job stays queued.
    pub fn get_next_job(&self) -> (r: Option<Job>)
        ensures
            match r {
                Some(j) => is_next(self@, next_index(self@)) && j@ == self@[next_index(self@)],
                None => !has_queued(self@),
            },
    {
        match self.next_position() {
            Some(b) => Some(self.jobs[b].clone()),
            None => None,
        }
    }

    /// The place of the job to run next.
    fn next_position(&self) -> (r: Option<usize>)
        ensures
            match r {
                Some(b) => b < self@.len() && is_next(self@, b as int) && next_index(self@) == b,
                None => !has_queued(self@),
            },
    {
        let ghost all = self@;
        let mut best: Option<usize> = None;
        let mut i: usize = 0;
        while i < self.jobs.len()
            invariant
                i <= self.jobs.len(),
                all == self@,
                match best {
                    Some(b) => {
                        &&& b < i
                        &&& all[b as int].status is Queued
                        &&& forall|j: int|
                            0 <= j < i && (#[trigger] all[j]).status is Queued ==> {
                                &&& !precedes(all[j], all[b as int])
                                &&& j < b ==> precedes(all[b as int], all[j])
                            }
                    },
                    None => forall|j: int| 0 <= j < i ==> !((#[trigger] all[j]).status is Queued),
                },
            decreases self.jobs.len() - i,
        {
            assert(all[i as int] == self.jobs@[i as int]@);
            match self.jobs[i].status {
                JobStatus::Queued => {
                    match best {
                        Some(b) => {
                            assert(all[b as int] == self.jobs@[b as int]@);
                            if runs_before(&self.jobs[i], &self.jobs[b]) {
                                best = Some(i);
                            }
                        },
                        None => {
                            best = Some(i);
                        },
                    }
                },
                _ => {},
            }
            i += 1;
        }
        match best {
            Some(b) => {
                proof {
                    assert(is_next(all, b as int));
                    lemma_next_is_unique(all, b as int, next_index(all));
                }
                Some(b)
            },
            None => None,
        }
    }

    /// Sets the status of the job of `id` at `now`. Going over to `Running`
    /// stamps `started_at`; going over to `Done`, `Failed` or `Canceled`
    /// stamps `finished_at`; result and error become those given. A status
    /// that may not follow the job's own is refused and changes nothing;
    /// without a job of this id nothing changes either, which is no error.
    pub fn set_status(
        &mut self,
        id: &str,
        status: JobStatus,
        result: Option<String>,
        error: Option<String>,
        now: u64,
    ) -> (r: Result<(), JobError>)
        ensures
            queue_wf(final(self)@),
            final(self)@ == status_set(
                old(self)@,
                id@,
                status,
                opt_view(result),
                opt_view(error),
                now,
            ),
            match r {
                Ok(_) => !refuses(old(self)@, id@, status),
                Err(e) => e == JobError::IllegalTransition && refuses(old(self)@, id@, status)
                    && final(self)@ == old(self)@,
            },
    {
        proof {
            use_type_invariant(&*self);
        }
        let ghost before = self@;
        let ghost after = status_set(before, id@, status, opt_view(result), opt_view(error), now);
        match position(&self.jobs, id) {
            Some(i) => {
                assert(before[i as int] == self.jobs@[i as int]@);
                assert forall|k: int| 0 <= k < before.len() && k != i implies (
                #[trigger] before[k]).id != id@ by {
                    if k < i {
                        assert(id_of()(before[k]) != id_of()(before[i as int]));
                    } else {
                        assert(id_of()(before[i as int]) != id_of()(before[k]));
                    }
                }
                if !allowed(self.jobs[i].status, status) {
                    assert(before =~= after);
                    return Err(JobError::IllegalTransition);
                }
                let mut jobs: Vec<Job> = Vec::new();
                std::mem::swap(&mut jobs, &mut self.jobs);
                let was = &jobs[i];
                let starting = match status {
                    JobStatus::Running => true,
                    _ => false,
                };
                let job = Job {
                    id: was.id.clone(),
                    kind: was.kind,
                    path: was.path.clone(),
                    status,
                    priority: was.priority,
                    created_at: was.created_at,
                    started_at: if starting {
                        Some(now)
                    } else {
                        was.started_at
                    },
                    finished_at: if starting {
                        was.finished_at
                    } else {
                        Some(now)
                    },
                    payload: was.payload.clone(),
                    result,
                    error,
                };
                jobs.set(i, job);
                assert(job_views(jobs@) =~= after);
                proof {
                    assert forall|a: int, b: int| 0 <= a < b < after.len() implies id_of()(
                        #[trigger] after[a],
                    ) != id_of()(#[trigger] after[b]) by {
                        assert(id_of()(before[a]) != id_of()(before[b]));
                    }
                    assert forall|k: int| 0 <= k < after.len() implies job_wf(
                        #[trigger] after[k],
                    ) by {
                        assert(job_wf(before[k]));
                    }
                    assert forall|k: int|
                        0 <= k < before.len() && (#[trigger] before[k]).id == id@ implies may_follow(
                        before[k].status,
                        status,
                    ) by {}
                }
                self.jobs = jobs;
                Ok(())
            },
            None => {
                assert(before =~= after);
                Ok(())
            },
        }
    }

    /// Sets the status of the job of `id` now: see [`JobQueue::set_status`].
    pub fn update_job_status(
        &mut self,
        id: &str,
        status: JobStatus,
        result: Option<String>,
        error: Option<String>,
    ) -> (r: Result<(), JobError>)
        ensures
            queue_wf(final(self)@),
            exists|now: u64|
                final(self)@ == #[trigger] status_set(
                    old(self)@,
                    id@,
                    status,
                    opt_view(result),
                    opt_view(error),
                    now,
                ),
            match r {
                Ok(_) => !refuses(old(self)@, id@, status),
                Err(e) => e == JobError::IllegalTransition && refuses(old(self)@, id@, status)
                    && final(self)@ == old(self)@,
            },
    {
        let now = current_timestamp();
        self.set_status(id, status, result, error, now)
    }
}

impl JobQueue {
    /// Cancels, at `now`, every queued job whose path begins with `prefix`,
    /// and gives their number. Jobs that run or have ended stay as they are.
    pub fn cancel_by_path_prefix(&mut self, prefix: &str, now: u64) -> (r: usize)
        ensures
            queue_wf(final(self)@),
            final(self)@ == prefix_canceled(old(self)@, prefix@, now),
            r == old(self)@.filter(cancelable(prefix@)).len(),
    {
        proof {
            use_type_invariant(&*self);
        }
        let ghost before = self@;
        let ghost after = prefix_canceled(before, prefix@, now);
        let ghost hit = cancelable(prefix@);
        let mut jobs: Vec<Job> = Vec::new();
        std::mem::swap(&mut jobs, &mut self.jobs);
        let mut count: usize = 0;
        let mut i: usize = 0;
        proof {
            reveal(Seq::filter);
            assert(before.take(0).filter(hit).len() == 0);
        }
        while i < jobs.len()
            invariant
                i <= jobs.len() == before.len(),
                hit == cancelable(prefix@),
                after == prefix_canceled(before, prefix@, now),
                count == before.take(i as int).filter(hit).len(),
                count <= i,
                forall|k: int| 0 <= k < i ==> (#[trigger] jobs@[k])@ == after[k],
                forall|k: int| i <= k < jobs.len() ==> (#[trigger] jobs@[k])@ == before[k],
            decreases jobs.len() - i,
        {
            proof {
                assert(before.take(i + 1) =~= before.take(i as int).push(before[i as int]));
                lemma_filter_push(before.take(i as int), before[i as int], hit);
            }
            let queued = match jobs[i].status {
                JobStatus::Queued => true,
                _ => false,
            };
            if queued && starts_with(jobs[i].path.as_str(), prefix) {
                let mut job = jobs[i].clone();
                job.status = JobStatus::Canceled;
                job.finished_at = Some(now);
                jobs.set(i, job);
                count += 1;
            }
            i += 1;
        }
        assert(before.take(i as int) =~= before);
        assert(job_views(jobs@) =~= after);
        proof {
            assert forall|a: int, b: int| 0 <= a < b < after.len() implies id_of()(
                #[trigger] after[a],
            ) != id_of()(#[trigger] after[b]) by {
                assert(id_of()(before[a]) != id_of()(before[b]));
            }
            assert forall|k: int| 0 <= k < after.len() implies job_wf(#[trigger] after[k]) by {
                assert(job_wf(before[k]));
            }
        }
        self.jobs = jobs;
        count
    }

    /// Cancels every queued job whose path begins with `path_prefix`, now:
    /// see [`JobQueue::cancel_by_path_prefix`].
    pub fn cancel_jobs_by_prefix(&mut self, path_prefix: &str) -> (r: usize)
        ensures
            queue_wf(final(self)@),
            exists|now: u64| final(self)@ == #[trigger] prefix_canceled(old(self)@, path_prefix@, now),
            r == old(self)@.filter(cancelable(path_prefix@)).len(),
    {
        let now = current_timestamp();
        self.cancel_by_path_prefix(path_prefix, now)
    }

    /// Number of jobs of one status.
    fn count(&self, status: JobStatus) -> (r: usize)
        ensures
            r == count_of(self@, status),
    {
        let ghost all = self@;
        let ghost hit = has_status(status);
        let mut count: usize = 0;
        let mut i: usize = 0;
        proof {
            reveal(Seq::filter);
            assert(all.take(0).filter(hit).len() == 0);
        }
        while i < self.jobs.len()
            invariant
                i <= self.jobs.len(),
                all == self@,
                hit == has_status(status),
                count == all.take(i as int).filter(hit).len(),
                count <= i,
            decreases self.jobs.len() - i,
        {
            proof {
                assert(all.take(i + 1) =~= all.take(i as int).push(all[i as int]));
                lemma_filter_push(all.take(i as int), all[i as int], hit);
                assert(all[i as int] == self.jobs@[i as int]@);
            }
            if self.jobs[i].status == status {
                count += 1;
            }
            i += 1;
        }
        assert(all.take(i as int) =~= all);
        count
    }

    /// How many jobs are queued, run, are done and have failed, in this
    /// order. Canceled jobs are in none of the four.
    pub fn get_job_stats(&self) -> (r: (usize, usize, usize, usize))
        ensures
            r.0 == count_of(self@, JobStatus::Queued),
            r.1 == count_of(self@, JobStatus::Running),
            r.2 == count_of(self@, JobStatus::Done),
            r.3 == count_of(self@, JobStatus::Failed),
    {
        (
            self.count(JobStatus::Queued),
            self.count(JobStatus::Running),
            self.count(JobStatus::Done),
            self.count(JobStatus::Failed),
        )
    }

    /// Removes, at `now`, the jobs that ended more than `max_age_days` days
    /// ago. Jobs that are queued or run are never removed.
    pub fn purge_finished_older_than(&mut self, max_age_days: u32, now: u64)
        ensures
            queue_wf(final(self)@),
            final(self)@ == old(self)@.filter(kept_at(max_age_days, now)),
    {
        proof {
            use_type_invariant(&*self);
            let keep = kept_at(max_age_days, now);
            lemma_filter_distinct(self@, id_of(), keep);
            crate::seqs::lemma_filter_members(self@, keep);
            assert forall|i: int| 0 <= i < self@.filter(keep).len() implies job_wf(
                #[trigger] self@.filter(keep)[i],
            ) by {
                let j = self@.filter(keep)[i];
                assert(self@.contains(j));
                let k = choose|k: int| 0 <= k < self@.len() && self@[k] == j;
                assert(job_wf(self@[k]));
            }
        }
        let mut jobs: Vec<Job> = Vec::new();
        std::mem::swap(&mut jobs, &mut self.jobs);
        self.jobs = retain_kept(jobs, max_age_days, now);
    }

    /// Removes the jobs that ended more than `max_age_days` days before now:
    /// see [`JobQueue::purge_finished_older_than`].
    pub fn cleanup_old_jobs(&mut self, max_age_days: u32)
        ensures
            queue_wf(final(self)@),
            exists|now: u64| final(self)@ == old(self)@.filter(#[trigger] kept_at(max_age_days, now)),
    {
        let now = current_timestamp();
        self.purge_finished_older_than(max_age_days, now)
    }

    /// Starts the job of `id` at `now` where it is the one to run next, and
    /// gives it as it then is. Where another job is to run next, or none,
    /// nothing changes.
    pub fn start_if_next(&mut self, id: &str, now: u64) -> (r: Option<Job>)
        ensures
            queue_wf(final(self)@),
            match r {
                Some(j) => {
                    &&& is_next(old(self)@, next_index(old(self)@))
                    &&& old(self)@[next_index(old(self)@)].id == id@
                    &&& final(self)@ == status_set(
                        old(self)@,
                        id@,
                        JobStatus::Running,
                        None,
                        None,
                        now,
                    )
                    &&& j@ == final(self)@[next_index(old(self)@)]
                    &&& j@.status is Running
                    &&& j@.started_at == Some(now)
                },
                None => {
                    &&& final(self)@ == old(self)@
                    &&& !(has_queued(old(self)@) && old(self)@[next_index(old(self)@)].id == id@)
                },
            },
    {
        proof {
            use_type_invariant(&*self);
        }
        let ghost before = self@;
        match self.next_position() {
            Some(b) => {
                assert(before[b as int] == self.jobs@[b as int]@);
                if same_text(self.jobs[b].id.as_str(), id) {
                    let _ = self.set_status(id, JobStatus::Running, None, None, now);
                    assert(self@.len() == before.len());
                    assert(self.jobs@.len() == job_views(self.jobs@).len());
                    assert(self@[b as int] == self.jobs@[b as int]@);
                    Some(self.jobs[b].clone())
                } else {
                    None
                }
            },
            None => None,
        }
    }

    /// Ends the job of `id` at `now`: as `Done` with the result given, or as
    /// `Failed` with the error given.
    pub fn finish(&mut self, id: &str, outcome: Result<String, String>, now: u64) -> (r: Result<
        (),
        JobError,
    >)
        ensures
            queue_wf(final(self)@),
            final(self)@ == match outcome {
                Ok(result) => status_set(
                    old(self)@,
                    id@,
                    JobStatus::Done,
                    Some(result@),
                    None,
                    now,
                ),
                Err(error) => status_set(
                    old(self)@,
                    id@,
                    JobStatus::Failed,
                    None,
                    Some(error@),
                    now,
                ),
            },
            r is Err <==> refuses(
                old(self)@,
                id@,
                if outcome is Ok {
                    JobStatus::Done
                } else {
                    JobStatus::Failed
                },
            ),
    {
        match outcome {
            Ok(result) => self.set_status(id, JobStatus::Done, Some(result), None, now),
            Err(error) => self.set_status(id, JobStatus::Failed, None, Some(error), now),
        }
    }
}

/// While a job is queued, one job is the one to run next; it is a queued
/// job than which none is more urgent, nor as urgent and older.
pub proof fn lemma_next_exists(jobs: Seq<JobView>)
    requires
        has_queued(jobs),
    ensures
        is_next(jobs, next_index(jobs)),
        forall|j: int|
            0 <= j < jobs.len() && (#[trigger] jobs[j]).status is Queued ==> {
                let next = jobs[next_index(jobs)];
                next.priority < jobs[j].priority || (next.priority == jobs[j].priority
                    && next.created_at <= jobs[j].created_at)
            },
    decreases jobs.len(),
{
    let rest = jobs.drop_last();
    let x = jobs.last();
    let last = jobs.len() - 1;
    if has_queued(rest) {
        lemma_next_exists(rest);
        let b = next_index(rest);
        assert(rest[b] == jobs[b]);
        if x.status is Queued && precedes(x, rest[b]) {
            assert forall|j: int| 0 <= j < jobs.len() && (#[trigger] jobs[j]).status
                is Queued implies !precedes(jobs[j], jobs[last]) && (j < last ==> precedes(
                jobs[last],
                jobs[j],
            )) by {
                if j < last {
                    assert(rest[j] == jobs[j]);
                }
            }
            assert(is_next(jobs, last));
        } else {
            assert forall|j: int| 0 <= j < jobs.len() && (#[trigger] jobs[j]).status
                is Queued implies !precedes(jobs[j], jobs[b]) && (j < b ==> precedes(
                jobs[b],
                jobs[j],
            )) by {
                if j < last {
                    assert(rest[j] == jobs[j]);
                }
            }
            assert(is_next(jobs, b));
        }
    } else {
        let q = choose|q: int| 0 <= q < jobs.len() && (#[trigger] jobs[q]).status is Queued;
        if q < last {
            assert(rest[q].status is Queued);
        }
        assert forall|j: int| 0 <= j < jobs.len() && (#[trigger] jobs[j]).status
            is Queued implies j == last by {
            if j < last {
                assert(rest[j].status is Queued);
            }
        }
        assert(is_next(jobs, last));
    }
}

/// The lifecycle runs one way. Setting a status changes at most the job of
/// that id, and only where the new status may follow its own. A job that
/// starts gets its `started_at` and has no `finished_at`; a job that ends
/// gets its `finished_at`; a job that has ended stays as it is whatever is
/// asked for, so neither time is ever set twice.
pub proof fn lemma_lifecycle(
    jobs: Seq<JobView>,
    id: Seq<char>,
    status: JobStatus,
    result: Option<Seq<char>>,
    error: Option<Seq<char>>,
    now: u64,
)
    requires
        queue_wf(jobs),
    ensures
        queue_wf(status_set(jobs, id, status, result, error, now)),
        forall|i: int|
            0 <= i < jobs.len() ==> {
                let before = #[trigger] jobs[i];
                let after = status_set(jobs, id, status, result, error, now)[i];
                &&& after.id == before.id
                &&& after != before ==> before.id == id && may_follow(before.status, status)
                    && after.status == status
                &&& is_terminal(before.status) ==> after == before
                &&& before.started_at is Some ==> after.started_at == before.started_at
                &&& before.finished_at is Some ==> after.finished_at == before.finished_at
                &&& after.status is Running && !(before.status is Running) ==> after.started_at
                    == Some(now) && after.finished_at is None
                &&& is_terminal(after.status) && !is_terminal(before.status) ==> after.finished_at
                    == Some(now) && after.result == result && after.error == error
            },
{
    let after = status_set(jobs, id, status, result, error, now);
    assert forall|a: int, b: int| 0 <= a < b < after.len() implies id_of()(#[trigger] after[a])
        != id_of()(#[trigger] after[b]) by {
        assert(id_of()(jobs[a]) != id_of()(jobs[b]));
    }
    assert forall|k: int| 0 <= k < after.len() implies job_wf(#[trigger] after[k]) by {
        assert(job_wf(jobs[k]));
    }
    assert forall|i: int| 0 <= i < jobs.len() implies {
        let before = #[trigger] jobs[i];
        let after = status_set(jobs, id, status, result, error, now)[i];
        &&& before.started_at is Some ==> after.started_at == before.started_at
        &&& before.finished_at is Some ==> after.finished_at == before.finished_at
    } by {
        assert(job_wf(jobs[i]));
    }
}

/// A job that has just entered the queue is queued, and has neither started
/// nor ended.
pub proof fn lemma_new_job_is_queued(
    id: Seq<char>,
    created_at: u64,
    kind: JobKind,
    path: Seq<char>,
    priority: u32,
    payload: Seq<char>,
)
    ensures
        ({
            let j = new_job(id, created_at, kind, path, priority, payload);
            j.status is Queued && j.started_at is None && j.finished_at is None && job_wf(j)
        }),
{
}

/// Canceling by prefix touches queued jobs alone: a job that runs or has
/// ended stays as it is, whatever its path; a queued job under the prefix is
/// canceled and ends now; a queued job elsewhere stays queued.
pub proof fn lemma_cancel_spares_started(jobs: Seq<JobView>, prefix: Seq<char>, now: u64)
    requires
        queue_wf(jobs),
    ensures
        queue_wf(prefix_canceled(jobs, prefix, now)),
        forall|i: int|
            0 <= i < jobs.len() ==> {
                let before = #[trigger] jobs[i];
                let after = prefix_canceled(jobs, prefix, now)[i];
                &&& !(before.status is Queued) ==> after == before
                &&& before.status is Queued && prefix.is_prefix_of(before.path) ==> after.status
                    is Canceled && after.finished_at == Some(now) && after.id == before.id
                &&& before.status is Queued && !prefix.is_prefix_of(before.path) ==> after
                    == before
            },
{
    let after = prefix_canceled(jobs, prefix, now);
    assert forall|a: int, b: int| 0 <= a < b < after.len() implies id_of()(#[trigger] after[a])
        != id_of()(#[trigger] after[b]) by {
        assert(id_of()(jobs[a]) != id_of()(jobs[b]));
    }
    assert forall|k: int| 0 <= k < after.len() implies job_wf(#[trigger] after[k]) by {
        assert(job_wf(jobs[k]));
    }
}

/// A purge removes only jobs that have ended: every job that is queued or
/// runs is still there afterwards, and so is every job that ended no longer
/// ago than the age given.
pub proof fn lemma_purge_spares_active(jobs: Seq<JobView>, max_age_days: u32, now: u64)
    ensures
        forall|i: int|
            0 <= i < jobs.len() && !is_terminal((#[trigger] jobs[i]).status) ==> jobs.filter(
                kept_at(max_age_days, now),
            ).contains(jobs[i]),
        forall|i: int|
            0 <= i < jobs.filter(kept_at(max_age_days, now)).len() ==> jobs.contains(
                #[trigger] jobs.filter(kept_at(max_age_days, now))[i],
            ),
{
    crate::seqs::lemma_filter_members(jobs, kept_at(max_age_days, now));
}

} // verus!
