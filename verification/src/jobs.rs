//! Background job tracking for workbook sessions.
//!
//! A [`JobRegistry`] derives "Job" records from classified session-status
//! events and answers queries about in-flight work.  The registry keeps an
//! exact running-job counter: its invariant ties the counter to the number
//! of stored jobs whose status is `Running`.
//!
//! The wall clock is outside the verified core.  Every operation that
//! touches timestamps therefore exists in two forms: one taking the current
//! time in milliseconds as an argument, with an exact contract, and a
//! short-named one that reads the clock and delegates.

use vstd::prelude::*;
use vstd::string::StringExecFns;

use crate::strutil::{str_eq, u64_to_dec, dec_digits, first_where, lemma_first_where,
    contains_str, vec_contains_str, count_where, lemma_count_where_bounds,
    lemma_count_where_push, lemma_count_where_update, lemma_count_where_pos, lemma_filter_push,
    lemma_filter_distinct_by};

verus! {

/// Status of a background job.
#[derive(Debug, Clone, Copy, PartialEq, Eq, Structural)]
pub enum JobStatus {
    Running,
    Completed,
    Failed,
    /// Reached only through an explicit cancel call.  The event
    /// classifier folds a `cancelled` status string into the failed
    /// bucket instead.
    Cancelled,
}

/// Mathematical image of a [`JobInfo`].
pub ghost struct JobModel {
    pub id: Seq<char>,
    pub workbook_id: Seq<char>,
    pub session_id: Seq<char>,
    pub status: JobStatus,
    pub description: Seq<char>,
    pub started_at: u64,
    pub updated_at: u64,
}

/// Information about a tracked job.
#[derive(Debug, Clone)]
pub struct JobInfo {
    pub id: String,
    pub workbook_id: String,
    pub session_id: String,
    pub status: JobStatus,
    pub description: String,
    pub started_at: u64,
    pub updated_at: u64,
}

/// The identifier given to a job registered for `session` at time `now`.
pub open spec fn job_id_chars(session: Seq<char>, now: u64) -> Seq<char> {
    "job_"@ + session + "_"@ + dec_digits(now as int)
}

/// The record a fresh registration stores.
pub open spec fn new_job_model(
    workbook_id: Seq<char>,
    session_id: Seq<char>,
    description: Seq<char>,
    now: u64,
) -> JobModel {
    JobModel {
        id: job_id_chars(session_id, now),
        workbook_id: workbook_id,
        session_id: session_id,
        status: JobStatus::Running,
        description: description,
        started_at: now,
        updated_at: now,
    }
}

impl JobInfo {
    pub open spec fn model(&self) -> JobModel {
        JobModel {
            id: self.id@,
            workbook_id: self.workbook_id@,
            session_id: self.session_id@,
            status: self.status,
            description: self.description@,
            started_at: self.started_at,
            updated_at: self.updated_at,
        }
    }

    /// Builds the job record for a registration observed at time `now`.
    pub fn new_at(workbook_id: String, session_id: String, description: String, now: u64) -> (r:
        JobInfo)
        ensures
            r.model() == new_job_model(workbook_id@, session_id@, description@, now),
    {
        let mut id = String::from_str("job_");
        id.append(session_id.as_str());
        id.append("_");
        let dec = u64_to_dec(now);
        id.append(dec.as_str());
        let r = JobInfo {
            id,
            workbook_id,
            session_id,
            status: JobStatus::Running,
            description,
            started_at: now,
            updated_at: now,
        };
        proof {
            assert(r.id@ == job_id_chars(r.session_id@, now));
        }
        r
    }

    /// Builds the job record for a registration happening now.
    ///
    /// The timestamp comes from the system clock, so only its double role
    /// (creation and update time) is promised.
    pub fn new(workbook_id: String, session_id: String, description: String) -> (r: JobInfo)
        ensures
            exists|now: u64|
                r.model() == new_job_model(workbook_id@, session_id@, description@, now),
    {
        let now = now_millis();
        let r = JobInfo::new_at(workbook_id, session_id, description, now);
        proof {
            assert(r.model() == new_job_model(r.workbook_id@, r.session_id@, r.description@, now));
        }
        r
    }

    /// A job is active while it is still running.
    pub fn is_active(&self) -> (r: bool)
        ensures
            r == (self.status == JobStatus::Running),
    {
        self.status == JobStatus::Running
    }
}

/// Milliseconds since the Unix epoch, from the system clock.
///
/// Relies on `std::time::SystemTime::now` and
/// `SystemTime::duration_since(UNIX_EPOCH)`; nothing is promised of the
/// value, since the clock is outside the program.
#[verifier::external_body]
fn now_millis() -> u64 {
    match std::time::SystemTime::now().duration_since(std::time::UNIX_EPOCH) {
        Ok(d) => d.as_millis() as u64,
        Err(_) => 0,
    }
}

/// Picks records by identifier.
pub open spec fn by_id(id: Seq<char>) -> spec_fn(JobModel) -> bool {
    |x: JobModel| x.id == id
}

/// Picks records by session.
pub open spec fn by_session(session: Seq<char>) -> spec_fn(JobModel) -> bool {
    |x: JobModel| x.session_id == session
}

/// Picks running records of a session.
pub open spec fn active_by_session(session: Seq<char>) -> spec_fn(JobModel) -> bool {
    |x: JobModel| x.session_id == session && x.status == JobStatus::Running
}

/// Picks running records of a workbook.
pub open spec fn active_by_workbook(workbook_id: Seq<char>) -> spec_fn(JobModel) -> bool {
    |x: JobModel| x.workbook_id == workbook_id && x.status == JobStatus::Running
}

/// Picks running records.
pub open spec fn running_job() -> spec_fn(JobModel) -> bool {
    |x: JobModel| x.status == JobStatus::Running
}

/// Picks the records a cleanup with cutoff `cutoff` keeps.
pub open spec fn kept_job(cutoff: u64) -> spec_fn(JobModel) -> bool {
    |x: JobModel| x.status == JobStatus::Running || x.updated_at > cutoff
}

/// Number of running jobs in a sequence of records.
pub open spec fn count_running(jobs: Seq<JobModel>) -> int {
    count_where(jobs, running_job())
}

/// Whether some record at an index below `len` is a running job for `session`.
pub open spec fn has_active_for_session(jobs: Seq<JobModel>, session: Seq<char>) -> bool {
    exists|i: int|
        0 <= i < jobs.len() && jobs[i].session_id == session && jobs[i].status
            == JobStatus::Running
}

/// Whether some record is a running job owned by `workbook_id`.
pub open spec fn has_active_for_workbook(jobs: Seq<JobModel>, workbook_id: Seq<char>) -> bool {
    exists|i: int|
        0 <= i < jobs.len() && jobs[i].workbook_id == workbook_id && jobs[i].status
            == JobStatus::Running
}

/// What registering a job at time `now` does to the stored records:
/// a record under the same identifier is replaced, otherwise the new
/// record is appended.
pub open spec fn register_spec(
    jobs: Seq<JobModel>,
    workbook_id: Seq<char>,
    session_id: Seq<char>,
    description: Seq<char>,
    now: u64,
) -> Seq<JobModel> {
    let j = new_job_model(workbook_id, session_id, description, now);
    match first_where(jobs, by_id(j.id)) {
        Some(i) => jobs.update(i, j),
        None => jobs.push(j),
    }
}

/// What a status update at time `now` does to the stored records: the
/// first record under `job_id` takes the new status and update time;
/// absent that, nothing changes.
pub open spec fn update_status_spec(
    jobs: Seq<JobModel>,
    job_id: Seq<char>,
    status: JobStatus,
    now: u64,
) -> Seq<JobModel> {
    match first_where(jobs, by_id(job_id)) {
        Some(i) => jobs.update(
            i,
            JobModel { status: status, updated_at: now, ..jobs[i] },
        ),
        None => jobs,
    }
}

/// Which records a cleanup with the given cutoff keeps.
pub open spec fn retained_after(jobs: Seq<JobModel>, cutoff: u64) -> Seq<JobModel> {
    jobs.filter(kept_job(cutoff))
}

/// Registry of background jobs across all workbooks.
#[derive(Debug)]
pub struct JobRegistry {
    jobs: Vec<JobInfo>,
    active_count: u64,
}

impl JobRegistry {
    /// The stored records, as mathematical values.
    pub closed spec fn model(&self) -> Seq<JobModel> {
        self.jobs@.map_values(|j: JobInfo| j.model())
    }

    /// Internal consistency: the counter equals the number of running
    /// jobs, and no two records share an identifier.
    pub closed spec fn wf(&self) -> bool {
        &&& self.active_count == count_running(self.model())
        &&& forall|i: int, j: int|
            0 <= i < j < self.model().len() ==> self.model()[i].id != self.model()[j].id
    }

    pub fn new() -> (r: Self)
        ensures
            r.wf(),
            r.model() == Seq::<JobModel>::empty(),
    {
        let r = JobRegistry { jobs: Vec::new(), active_count: 0 };
        proof {
            assert(r.model() =~= Seq::<JobModel>::empty());
        }
        r
    }

    /// Total count of running jobs.
    pub fn active_count(&self) -> (r: u64)
        requires
            self.wf(),
        ensures
            r == count_running(self.model()),
    {
        self.active_count
    }

    /// Index of the first stored job with the given identifier.
    fn find_index_by_id(&self, job_id: &str) -> (r: Option<usize>)
        ensures
            match r {
                Some(i) => i < self.model().len() && first_where(self.model(), by_id(job_id@))
                    == Some(i as int),
                None => first_where(self.model(), by_id(job_id@)) is None,
            },
    {
        let n = self.jobs.len();
        let mut k: usize = 0;
        while k < n
            invariant
                n == self.jobs@.len(),
                0 <= k <= n,
                forall|j: int| 0 <= j < k ==> self.model()[j].id != job_id@,
            decreases n - k,
        {
            if str_eq(self.jobs[k].id.as_str(), job_id) {
                proof {
                    lemma_first_where(self.model(), by_id(job_id@));
                    assert(by_id(job_id@)(self.model()[k as int]));
                }
                return Some(k);
            }
            k = k + 1;
        }
        proof {
            lemma_first_where(self.model(), by_id(job_id@));
        }
        None
    }

    /// Registers a running job for `session_id`, observed at time `now`,
    /// and returns its identifier.
    pub fn register_at(
        &mut self,
        workbook_id: &str,
        session_id: &str,
        description: &str,
        now: u64,
    ) -> (job_id: String)
        requires
            old(self).wf(),
        ensures
            final(self).wf(),
            job_id@ == job_id_chars(session_id@, now),
            final(self).model() == register_spec(
                old(self).model(),
                workbook_id@,
                session_id@,
                description@,
                now,
            ),
    {
        let job = JobInfo::new_at(
            String::from_str(workbook_id),
            String::from_str(session_id),
            String::from_str(description),
            now,
        );
        let job_id = job.id.clone();
        let ghost jm = job.model();
        let ghost pre = self.model();
        match self.find_index_by_id(job.id.as_str()) {
            Some(i) => {
                let was_running = self.jobs[i].status == JobStatus::Running;
                proof {
                    lemma_first_where(pre, by_id(jm.id));
                    lemma_count_where_update(pre, running_job(), i as int, jm);
                    lemma_count_where_bounds(pre, running_job());
                }
                self.jobs.set(i, job);
                proof {
                    assert(self.model() =~= pre.update(i as int, jm));
                }
                if !was_running {
                    let n = self.jobs.len();
                    proof {
                        lemma_count_where_bounds(self.model(), running_job());
                    }
                    self.active_count = self.active_count + 1;
                }
            },
            None => {
                proof {
                    lemma_first_where(pre, by_id(jm.id));
                    lemma_count_where_push(pre, running_job(), jm);
                }
                self.jobs.push(job);
                proof {
                    assert(self.model() =~= pre.push(jm));
                }
                let n = self.jobs.len();
                proof {
                    lemma_count_where_bounds(self.model(), running_job());
                }
                self.active_count = self.active_count + 1;
            },
        }
        job_id
    }

    /// Registers a running job for `session_id`, stamped with the current
    /// clock time, and returns its identifier.
    pub fn register(&mut self, workbook_id: &str, session_id: &str, description: &str) -> (job_id:
        String)
        requires
            old(self).wf(),
        ensures
            final(self).wf(),
            exists|now: u64|
                job_id@ == job_id_chars(session_id@, now) && final(self).model() == register_spec(
                    old(self).model(),
                    workbook_id@,
                    session_id@,
                    description@,
                    now,
                ),
    {
        let now = now_millis();
        let job_id = self.register_at(workbook_id, session_id, description, now);
        proof {
            assert(job_id@ == job_id_chars(session_id@, now) && self.model() == register_spec(
                old(self).model(),
                workbook_id@,
                session_id@,
                description@,
                now,
            ));
        }
        job_id
    }

    /// Gives the first job stored under `job_id` the new status, with
    /// `now` as its update time.
    pub fn update_status_at(&mut self, job_id: &str, status: JobStatus, now: u64)
        requires
            old(self).wf(),
        ensures
            final(self).wf(),
            final(self).model() == update_status_spec(old(self).model(), job_id@, status, now),
    {
        let ghost pre = self.model();
        match self.find_index_by_id(job_id) {
            Some(i) => {
                let was_running = self.jobs[i].status == JobStatus::Running;
                let updated = JobInfo {
                    id: self.jobs[i].id.clone(),
                    workbook_id: self.jobs[i].workbook_id.clone(),
                    session_id: self.jobs[i].session_id.clone(),
                    status: status,
                    description: self.jobs[i].description.clone(),
                    started_at: self.jobs[i].started_at,
                    updated_at: now,
                };
                let ghost um = updated.model();
                proof {
                    lemma_first_where(pre, by_id(job_id@));
                    lemma_count_where_update(pre, running_job(), i as int, um);
                    lemma_count_where_bounds(pre, running_job());
                    assert(um == JobModel { status: status, updated_at: now, ..pre[i as int] });
                }
                self.jobs.set(i, updated);
                proof {
                    assert(self.model() =~= pre.update(i as int, um));
                }
                let now_running = status == JobStatus::Running;
                if was_running && !now_running {
                    proof {
                        lemma_count_where_pos(pre, running_job());
                        assert(running_job()(pre[i as int]));
                    }
                    self.active_count = self.active_count - 1;
                } else if !was_running && now_running {
                    let n = self.jobs.len();
                    proof {
                        lemma_count_where_bounds(self.model(), running_job());
                    }
                    self.active_count = self.active_count + 1;
                }
            },
            None => {},
        }
    }

    /// Gives the first job stored under `job_id` the new status, stamped
    /// with the current clock time.
    pub fn update_status(&mut self, job_id: &str, status: JobStatus)
        requires
            old(self).wf(),
        ensures
            final(self).wf(),
            exists|now: u64|
                final(self).model() == update_status_spec(old(self).model(), job_id@, status, now),
    {
        let now = now_millis();
        self.update_status_at(job_id, status, now);
        proof {
            assert(self.model() == update_status_spec(old(self).model(), job_id@, status, now));
        }
    }

    /// Marks a job completed.
    pub fn complete(&mut self, job_id: &str)
        requires
            old(self).wf(),
        ensures
            final(self).wf(),
            exists|now: u64|
                final(self).model() == update_status_spec(
                    old(self).model(),
                    job_id@,
                    JobStatus::Completed,
                    now,
                ),
    {
        self.update_status(job_id, JobStatus::Completed);
    }

    /// Marks a job failed.
    pub fn fail(&mut self, job_id: &str)
        requires
            old(self).wf(),
        ensures
            final(self).wf(),
            exists|now: u64|
                final(self).model() == update_status_spec(
                    old(self).model(),
                    job_id@,
                    JobStatus::Failed,
                    now,
                ),
    {
        self.update_status(job_id, JobStatus::Failed);
    }

    /// Marks a job cancelled.
    pub fn cancel(&mut self, job_id: &str)
        requires
            old(self).wf(),
        ensures
            final(self).wf(),
            exists|now: u64|
                final(self).model() == update_status_spec(
                    old(self).model(),
                    job_id@,
                    JobStatus::Cancelled,
                    now,
                ),
    {
        self.update_status(job_id, JobStatus::Cancelled);
    }

    /// First job recorded for a session, in storage order.
    pub fn find_by_session(&self, session_id: &str) -> (r: Option<&JobInfo>)
        ensures
            match first_where(self.model(), by_session(session_id@)) {
                Some(i) => r matches Some(j) && j.model() == self.model()[i],
                None => r is None,
            },
    {
        let n = self.jobs.len();
        let mut k: usize = 0;
        while k < n
            invariant
                n == self.jobs@.len(),
                0 <= k <= n,
                forall|j: int| 0 <= j < k ==> self.model()[j].session_id != session_id@,
            decreases n - k,
        {
            if str_eq(self.jobs[k].session_id.as_str(), session_id) {
                proof {
                    lemma_first_where(self.model(), by_session(session_id@));
                    assert(by_session(session_id@)(self.model()[k as int]));
                }
                return Some(&self.jobs[k]);
            }
            k = k + 1;
        }
        proof {
            lemma_first_where(self.model(), by_session(session_id@));
        }
        None
    }

    /// First still-running job recorded for a session.
    pub fn find_active_by_session(&self, session_id: &str) -> (r: Option<&JobInfo>)
        ensures
            match first_where(self.model(), active_by_session(session_id@)) {
                Some(i) => r matches Some(j) && j.model() == self.model()[i],
                None => r is None,
            },
            r is Some <==> has_active_for_session(self.model(), session_id@),
    {
        let n = self.jobs.len();
        let mut k: usize = 0;
        while k < n
            invariant
                n == self.jobs@.len(),
                0 <= k <= n,
                forall|j: int|
                    0 <= j < k ==> !(self.model()[j].session_id == session_id@
                        && self.model()[j].status == JobStatus::Running),
            decreases n - k,
        {
            if str_eq(self.jobs[k].session_id.as_str(), session_id) && self.jobs[k].status
                == JobStatus::Running {
                proof {
                    lemma_first_where(self.model(), active_by_session(session_id@));
                    assert(active_by_session(session_id@)(self.model()[k as int]));
                }
                return Some(&self.jobs[k]);
            }
            k = k + 1;
        }
        proof {
            lemma_first_where(self.model(), active_by_session(session_id@));
        }
        None
    }

    /// The job stored under an identifier.
    pub fn get(&self, job_id: &str) -> (r: Option<&JobInfo>)
        ensures
            match first_where(self.model(), by_id(job_id@)) {
                Some(i) => r matches Some(j) && j.model() == self.model()[i],
                None => r is None,
            },
    {
        match self.find_index_by_id(job_id) {
            Some(i) => Some(&self.jobs[i]),
            None => None,
        }
    }

    /// Whether a workbook owns a running job.
    pub fn has_active_jobs(&self, workbook_id: &str) -> (r: bool)
        ensures
            r == has_active_for_workbook(self.model(), workbook_id@),
    {
        let n = self.jobs.len();
        let mut k: usize = 0;
        while k < n
            invariant
                n == self.jobs@.len(),
                0 <= k <= n,
                forall|j: int|
                    0 <= j < k ==> !(self.model()[j].workbook_id == workbook_id@
                        && self.model()[j].status == JobStatus::Running),
            decreases n - k,
        {
            if str_eq(self.jobs[k].workbook_id.as_str(), workbook_id) && self.jobs[k].status
                == JobStatus::Running {
                proof {
                    assert(self.model()[k as int].workbook_id == workbook_id@
                        && self.model()[k as int].status == JobStatus::Running);
                }
                return true;
            }
            k = k + 1;
        }
        false
    }

    /// All running jobs, in storage order.
    pub fn list_active(&self) -> (r: Vec<&JobInfo>)
        ensures
            r@.map_values(|j: &JobInfo| j.model()) == self.model().filter(running_job()),
    {
        let n = self.jobs.len();
        let mut out: Vec<&JobInfo> = Vec::new();
        let mut k: usize = 0;
        while k < n
            invariant
                n == self.jobs@.len(),
                0 <= k <= n,
                out@.map_values(|j: &JobInfo| j.model()) =~= self.model().take(k as int).filter(
                    running_job(),
                ),
            decreases n - k,
        {
            proof {
                assert(self.model().take(k + 1) =~= self.model().take(k as int).push(
                    self.model()[k as int],
                ));
                lemma_filter_push(self.model().take(k as int), running_job(),
                    self.model()[k as int]);
            }
            if self.jobs[k].status == JobStatus::Running {
                let ghost before = out@.map_values(|j: &JobInfo| j.model());
                out.push(&self.jobs[k]);
                proof {
                    assert(out@.map_values(|j: &JobInfo| j.model()) =~= before.push(
                        self.model()[k as int],
                    ));
                }
            }
            k = k + 1;
        }
        proof {
            assert(self.model().take(n as int) =~= self.model());
        }
        out
    }

    /// The running jobs a workbook owns, in storage order.
    pub fn list_active_for_workbook(&self, workbook_id: &str) -> (r: Vec<&JobInfo>)
        ensures
            r@.map_values(|j: &JobInfo| j.model()) == self.model().filter(
                active_by_workbook(workbook_id@),
            ),
    {
        let n = self.jobs.len();
        let mut out: Vec<&JobInfo> = Vec::new();
        let mut k: usize = 0;
        while k < n
            invariant
                n == self.jobs@.len(),
                0 <= k <= n,
                out@.map_values(|j: &JobInfo| j.model()) =~= self.model().take(k as int).filter(
                    active_by_workbook(workbook_id@),
                ),
            decreases n - k,
        {
            proof {
                assert(self.model().take(k + 1) =~= self.model().take(k as int).push(
                    self.model()[k as int],
                ));
                lemma_filter_push(self.model().take(k as int), active_by_workbook(workbook_id@),
                    self.model()[k as int]);
            }
            if str_eq(self.jobs[k].workbook_id.as_str(), workbook_id) && self.jobs[k].status
                == JobStatus::Running {
                let ghost before = out@.map_values(|j: &JobInfo| j.model());
                out.push(&self.jobs[k]);
                proof {
                    assert(out@.map_values(|j: &JobInfo| j.model()) =~= before.push(
                        self.model()[k as int],
                    ));
                }
            }
            k = k + 1;
        }
        proof {
            assert(self.model().take(n as int) =~= self.model());
        }
        out
    }

    /// The workbooks that own at least one running job, each once, in
    /// order of their first running job.
    pub fn workbooks_with_active_jobs(&self) -> (r: Vec<String>)
        ensures
            forall|a: int, b: int| 0 <= a < b < r@.len() ==> r@[a]@ != r@[b]@,
            forall|k: int|
                0 <= k < r@.len() ==> has_active_for_workbook(self.model(), r@[k]@),
            forall|i: int|
                0 <= i < self.model().len() && self.model()[i].status == JobStatus::Running
                    ==> contains_str(r@, self.model()[i].workbook_id),
    {
        let n = self.jobs.len();
        let mut out: Vec<String> = Vec::new();
        let mut k: usize = 0;
        while k < n
            invariant
                n == self.jobs@.len(),
                0 <= k <= n,
                forall|a: int, b: int| 0 <= a < b < out@.len() ==> out@[a]@ != out@[b]@,
                forall|j: int|
                    0 <= j < out@.len() ==> has_active_for_workbook(self.model(), out@[j]@),
                forall|i: int|
                    0 <= i < k && self.model()[i].status == JobStatus::Running ==> contains_str(
                        out@,
                        self.model()[i].workbook_id,
                    ),
            decreases n - k,
        {
            let ghost before = out@;
            if self.jobs[k].status == JobStatus::Running {
                if !vec_contains_str(&out, self.jobs[k].workbook_id.as_str()) {
                    out.push(self.jobs[k].workbook_id.clone());
                    proof {
                        assert(self.model()[k as int].workbook_id == out@[out@.len() - 1]@);
                        assert(forall|j: int|
                            0 <= j < before.len() ==> out@[j] == before[j]);
                    }
                }
            }
            proof {
                assert(forall|j: int| 0 <= j < before.len() ==> out@[j] == before[j]);
                assert forall|i: int|
                    0 <= i < k + 1 && self.model()[i].status == JobStatus::Running
                    implies contains_str(out@, self.model()[i].workbook_id) by {
                    if i < k {
                        let w = choose|w: int|
                            0 <= w < before.len() && before[w]@ == self.model()[i].workbook_id;
                        assert(out@[w]@ == self.model()[i].workbook_id);
                    } else {
                        if self.model()[k as int].status == JobStatus::Running {
                            if contains_str(before, self.model()[k as int].workbook_id) {
                                let w = choose|w: int|
                                    0 <= w < before.len() && before[w]@ == self.model()[
                                        k as int
                                    ].workbook_id;
                                assert(out@[w]@ == self.model()[i].workbook_id);
                            }
                        }
                    }
                }
            }
            k = k + 1;
        }
        out
    }

    /// Drops every terminal job whose last update is at or before `cutoff`;
    /// running jobs are always kept.
    pub fn cleanup_before(&mut self, cutoff: u64)
        requires
            old(self).wf(),
        ensures
            final(self).wf(),
            final(self).model() == retained_after(old(self).model(), cutoff),
    {
        let ghost pre = self.model();
        let n = self.jobs.len();
        let mut kept: Vec<JobInfo> = Vec::new();
        let mut count: u64 = 0;
        let mut k: usize = 0;
        proof {
            assert(kept@.map_values(|j: JobInfo| j.model()) =~= pre.take(0).filter(
                kept_job(cutoff),
            ));
        }
        while k < n
            invariant
                self.jobs@.len() == n,
                self.model() == pre,
                self.wf(),
                0 <= k <= n,
                kept@.map_values(|j: JobInfo| j.model()) =~= pre.take(k as int).filter(
                    kept_job(cutoff),
                ),
                count == count_where(kept@.map_values(|j: JobInfo| j.model()), running_job()),
                count <= kept@.len() <= k,
            decreases n - k,
        {
            let ghost km = kept@.map_values(|j: JobInfo| j.model());
            proof {
                assert(pre.take(k + 1) =~= pre.take(k as int).push(pre[k as int]));
                lemma_filter_push(pre.take(k as int), kept_job(cutoff), pre[k as int]);
            }
            let job = &self.jobs[k];
            if job.status == JobStatus::Running || job.updated_at > cutoff {
                let cloned = JobInfo {
                    id: job.id.clone(),
                    workbook_id: job.workbook_id.clone(),
                    session_id: job.session_id.clone(),
                    status: job.status,
                    description: job.description.clone(),
                    started_at: job.started_at,
                    updated_at: job.updated_at,
                };
                proof {
                    assert(cloned.model() == pre[k as int]);
                    lemma_count_where_push(km, running_job(), pre[k as int]);
                }
                kept.push(cloned);
                proof {
                    assert(kept@.map_values(|j: JobInfo| j.model()) =~= km.push(pre[k as int]));
                }
                if job.status == JobStatus::Running {
                    count = count + 1;
                }
            }
            k = k + 1;
        }
        proof {
            assert(pre.take(n as int) =~= pre);
        }
        self.jobs = kept;
        self.active_count = count;
        proof {
            assert(self.model() =~= pre.filter(kept_job(cutoff)));
            lemma_filter_distinct_by(pre, kept_job(cutoff), |j: JobModel| j.id);
        }
    }

    /// Drops every terminal job last updated more than the retention
    /// window before the current clock time.
    pub fn cleanup_old(&mut self)
        requires
            old(self).wf(),
        ensures
            final(self).wf(),
            exists|cutoff: u64| final(self).model() == retained_after(old(self).model(), cutoff),
    {
        let now = now_millis();
        let cutoff = if now >= crate::JOB_RETENTION_MS {
            now - crate::JOB_RETENTION_MS
        } else {
            0
        };
        self.cleanup_before(cutoff);
        proof {
            assert(self.model() == retained_after(old(self).model(), cutoff));
        }
    }
}

/// The status strings that mean a session is still working.
pub open spec fn is_running_status_spec(s: Seq<char>) -> bool {
    s == "running"@ || s == "pending"@ || s == "streaming"@
}

/// The status strings that mean a session finished successfully.
pub open spec fn is_completed_status_spec(s: Seq<char>) -> bool {
    s == "completed"@ || s == "idle"@ || s == "done"@
}

/// The status strings that mean a session ended without success.
pub open spec fn is_failed_status_spec(s: Seq<char>) -> bool {
    s == "failed"@ || s == "error"@ || s == "cancelled"@
}

/// The three buckets a session-status string falls into, plus a bucket
/// for strings that mean nothing to the job tracker.
#[derive(Debug, Clone, Copy, PartialEq, Eq, Structural)]
pub enum StatusClass {
    Running,
    Completed,
    Failed,
    Other,
}

/// Bucket of a status string, running taking precedence over completed,
/// completed over failed.
pub open spec fn classify_status_spec(s: Seq<char>) -> StatusClass {
    if is_running_status_spec(s) {
        StatusClass::Running
    } else if is_completed_status_spec(s) {
        StatusClass::Completed
    } else if is_failed_status_spec(s) {
        StatusClass::Failed
    } else {
        StatusClass::Other
    }
}

/// An event read from the shared push-event feed.
#[derive(Debug, Clone)]
pub enum SessionEvent {
    SessionUpdated { session_id: String, status: Option<String> },
    SessionStatus { session_id: String, status: String },
    MessagePartUpdated { session_id: String },
    Unknown,
}

impl SessionEvent {
    /// Whether a session status string counts as still working.
    pub fn is_running_status(status: &str) -> (r: bool)
        ensures
            r == is_running_status_spec(status@),
    {
        str_eq(status, "running") || str_eq(status, "pending") || str_eq(status, "streaming")
    }

    /// Whether a session status string counts as finished successfully.
    pub fn is_completed_status(status: &str) -> (r: bool)
        ensures
            r == is_completed_status_spec(status@),
    {
        str_eq(status, "completed") || str_eq(status, "idle") || str_eq(status, "done")
    }

    /// Whether a session status string counts as ended without success.
    pub fn is_failed_status(status: &str) -> (r: bool)
        ensures
            r == is_failed_status_spec(status@),
    {
        str_eq(status, "failed") || str_eq(status, "error") || str_eq(status, "cancelled")
    }

    /// Bucket of a session status string.
    pub fn classify_status(status: &str) -> (r: StatusClass)
        ensures
            r == classify_status_spec(status@),
    {
        if SessionEvent::is_running_status(status) {
            StatusClass::Running
        } else if SessionEvent::is_completed_status(status) {
            StatusClass::Completed
        } else if SessionEvent::is_failed_status(status) {
            StatusClass::Failed
        } else {
            StatusClass::Other
        }
    }
}

} // verus!
