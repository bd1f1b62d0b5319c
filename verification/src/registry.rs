//! In-memory registry of running workbook workers.
//!
//! One entry per tenant workbook: its worker's advertised port, working
//! directory, restart count, a counter of in-flight jobs and the set of
//! UI windows that depend on the worker.  The registry owns the pool of
//! runtime ports; removing an entry releases its port.
//!
//! The worker's OS process handle itself lives outside the verified core;
//! an entry carries a plain `process_key` that the caller maps to the
//! handle.

use vstd::prelude::*;
use vstd::string::StringExecFns;

use crate::ports::PortPool;
use crate::strutil::{str_eq, first_where, lemma_first_where, lemma_filter_push,
    lemma_filter_distinct_by, contains_str, vec_contains_str};

verus! {

/// Mathematical image of a [`RuntimeInfo`].
pub ghost struct EntryModel {
    pub workbook_id: Seq<char>,
    pub runtime_port: u16,
    pub postgres_port: u16,
    pub worker_port: u16,
    pub process_key: u64,
    pub directory: Seq<char>,
    pub restart_count: u32,
    pub active_jobs: u64,
    pub windows: Seq<Seq<char>>,
}

/// Information about one running workbook worker.
#[derive(Debug)]
pub struct RuntimeInfo {
    pub workbook_id: String,
    pub runtime_port: u16,
    pub postgres_port: u16,
    pub worker_port: u16,
    /// Stands for the worker's process handle; the caller keeps the
    /// handle itself and finds it again under this key.
    pub process_key: u64,
    pub directory: String,
    pub restart_count: u32,
    pub active_jobs: u64,
    pub windows: Vec<String>,
}

impl RuntimeInfo {
    pub open spec fn model(&self) -> EntryModel {
        EntryModel {
            workbook_id: self.workbook_id@,
            runtime_port: self.runtime_port,
            postgres_port: self.postgres_port,
            worker_port: self.worker_port,
            process_key: self.process_key,
            directory: self.directory@,
            restart_count: self.restart_count,
            active_jobs: self.active_jobs,
            windows: self.windows@.map_values(|w: String| w@),
        }
    }

    /// No window is registered twice.
    pub open spec fn windows_distinct(&self) -> bool {
        forall|a: int, b: int|
            0 <= a < b < self.windows@.len() ==> self.windows@[a]@ != self.windows@[b]@
    }

    /// Whether the worker currently has in-flight jobs.
    pub fn has_active_jobs(&self) -> (r: bool)
        ensures
            r == (self.active_jobs > 0),
    {
        self.active_jobs > 0
    }

    /// Counts one more in-flight job; a counter at the top of its range
    /// stays there.
    pub fn increment_jobs(&mut self)
        ensures
            final(self).active_jobs == if old(self).active_jobs < u64::MAX {
                (old(self).active_jobs + 1) as u64
            } else {
                u64::MAX
            },
            final(self).windows == old(self).windows,
            final(self).model() == (EntryModel {
                active_jobs: final(self).active_jobs,
                ..old(self).model()
            }),
    {
        if self.active_jobs < u64::MAX {
            self.active_jobs = self.active_jobs + 1;
        }
    }

    /// Counts one in-flight job less; an already-zero counter stays zero.
    pub fn decrement_jobs(&mut self)
        ensures
            final(self).active_jobs == if old(self).active_jobs > 0 {
                (old(self).active_jobs - 1) as u64
            } else {
                0u64
            },
            final(self).windows == old(self).windows,
            final(self).model() == (EntryModel {
                active_jobs: final(self).active_jobs,
                ..old(self).model()
            }),
    {
        if self.active_jobs > 0 {
            self.active_jobs = self.active_jobs - 1;
        }
    }

    /// The teardown gate: the worker may be stopped once no window
    /// depends on it and no job is in flight.
    pub fn teardown_eligible(&self) -> (r: bool)
        ensures
            r == (self.windows@.len() == 0 && self.active_jobs == 0),
    {
        self.windows.len() == 0 && self.active_jobs == 0
    }

    /// The entry's state, as reported to callers.
    pub fn status(&self) -> (r: RuntimeStatus)
        ensures
            r.workbook_id@ == self.workbook_id@,
            r.running == true,
            r.runtime_port == self.runtime_port,
            r.postgres_port == self.postgres_port,
            r.worker_port == self.worker_port,
            r.active_jobs == self.active_jobs,
            r.window_count == self.windows@.len(),
    {
        RuntimeStatus {
            workbook_id: self.workbook_id.clone(),
            running: true,
            runtime_port: self.runtime_port,
            postgres_port: self.postgres_port,
            worker_port: self.worker_port,
            active_jobs: self.active_jobs,
            window_count: self.windows.len(),
        }
    }
}

/// Status of a workbook runtime, for reporting.
#[derive(Debug, Clone)]
pub struct RuntimeStatus {
    pub workbook_id: String,
    pub running: bool,
    pub runtime_port: u16,
    pub postgres_port: u16,
    pub worker_port: u16,
    pub active_jobs: u64,
    pub window_count: usize,
}

/// Picks entries by workbook identifier.
pub open spec fn entry_by_id(workbook_id: Seq<char>) -> spec_fn(EntryModel) -> bool {
    |e: EntryModel| e.workbook_id == workbook_id
}

/// Picks entries with in-flight jobs.
pub open spec fn busy_entry() -> spec_fn(EntryModel) -> bool {
    |e: EntryModel| e.active_jobs > 0
}

/// Whether some entry belongs to `workbook_id`.
pub open spec fn has_entry(s: Seq<EntryModel>, workbook_id: Seq<char>) -> bool {
    exists|i: int| 0 <= i < s.len() && s[i].workbook_id == workbook_id
}

/// Whether `label` occurs among `windows`.
pub open spec fn has_window(windows: Seq<Seq<char>>, label: Seq<char>) -> bool {
    exists|k: int| 0 <= k < windows.len() && windows[k] == label
}

/// Window list after a registration: unchanged when the label is already
/// there, appended otherwise.
pub open spec fn add_window(windows: Seq<Seq<char>>, label: Seq<char>) -> Seq<Seq<char>> {
    if has_window(windows, label) {
        windows
    } else {
        windows.push(label)
    }
}

/// Window list after an unregistration: every occurrence of the label is
/// gone.
pub open spec fn remove_window(windows: Seq<Seq<char>>, label: Seq<char>) -> Seq<Seq<char>> {
    windows.filter(|w: Seq<char>| w != label)
}

/// One more in-flight job on the entry of `workbook_id`, saturating at
/// the top of the counter's range; no entry, no change.
pub open spec fn incr_jobs_spec(s: Seq<EntryModel>, workbook_id: Seq<char>) -> Seq<EntryModel> {
    match first_where(s, entry_by_id(workbook_id)) {
        Some(i) => s.update(
            i,
            EntryModel {
                active_jobs: if s[i].active_jobs < u64::MAX {
                    (s[i].active_jobs + 1) as u64
                } else {
                    u64::MAX
                },
                ..s[i]
            },
        ),
        None => s,
    }
}

/// One in-flight job less on the entry of `workbook_id`, stopping at
/// zero; no entry, no change.
pub open spec fn decr_jobs_spec(s: Seq<EntryModel>, workbook_id: Seq<char>) -> Seq<EntryModel> {
    match first_where(s, entry_by_id(workbook_id)) {
        Some(i) => s.update(
            i,
            EntryModel {
                active_jobs: if s[i].active_jobs > 0 {
                    (s[i].active_jobs - 1) as u64
                } else {
                    0u64
                },
                ..s[i]
            },
        ),
        None => s,
    }
}

/// Picks entries whose workbook occurs in `exited`.
pub open spec fn exited_entry(exited: Seq<String>) -> spec_fn(EntryModel) -> bool {
    |e: EntryModel| contains_str(exited, e.workbook_id)
}

/// Picks entries whose workbook does not occur in `exited`.
pub open spec fn surviving_entry(exited: Seq<String>) -> spec_fn(EntryModel) -> bool {
    |e: EntryModel| !contains_str(exited, e.workbook_id)
}

/// What inserting an entry does: an entry of the same workbook is
/// replaced, otherwise the new entry is appended.
pub open spec fn insert_entry_spec(s: Seq<EntryModel>, e: EntryModel) -> Seq<EntryModel> {
    match first_where(s, entry_by_id(e.workbook_id)) {
        Some(i) => s.update(i, e),
        None => s.push(e),
    }
}

/// The pool and the entries agree: a port is allocated exactly when a
/// live entry holds it (ports outside the pool's range are not
/// tracked).
pub open spec fn pool_matches_entries(entries: Seq<EntryModel>, pool: PortPool) -> bool {
    forall|q: int|
        pool.is_allocated(q) <==> (pool.in_range(q) && exists|i: int|
            0 <= i < entries.len() && (#[trigger] entries[i]).runtime_port as int == q)
}

/// Inserting a fresh tenant's entry and marking its port keeps the pool
/// and the entries in agreement.
pub proof fn lemma_pool_matches_after_insert(
    pre_entries: Seq<EntryModel>,
    pre_pool: PortPool,
    post_entries: Seq<EntryModel>,
    post_pool: PortPool,
    e: EntryModel,
)
    requires
        pool_matches_entries(pre_entries, pre_pool),
        !has_entry(pre_entries, e.workbook_id),
        post_entries == insert_entry_spec(pre_entries, e),
        post_pool.first_port() == pre_pool.first_port(),
        post_pool.last_port() == pre_pool.last_port(),
        forall|q: int|
            post_pool.is_allocated(q) <==> (pre_pool.is_allocated(q) || (q
                == e.runtime_port as int && pre_pool.in_range(q))),
    ensures
        pool_matches_entries(post_entries, post_pool),
{
    lemma_first_where(pre_entries, entry_by_id(e.workbook_id));
    match first_where(pre_entries, entry_by_id(e.workbook_id)) {
        Some(i) => {
            assert(pre_entries[i].workbook_id == e.workbook_id);
            assert(false);
        },
        None => {},
    }
    assert(post_entries == pre_entries.push(e));
    assert forall|q: int|
        post_pool.is_allocated(q) <==> (post_pool.in_range(q) && exists|i: int|
            0 <= i < post_entries.len() && (#[trigger] post_entries[i]).runtime_port as int
                == q) by {
        if pre_pool.is_allocated(q) {
            let i = choose|i: int|
                0 <= i < pre_entries.len() && (#[trigger] pre_entries[i]).runtime_port as int
                    == q;
            assert(post_entries[i].runtime_port as int == q);
        }
        if q == e.runtime_port as int && pre_pool.in_range(q) {
            assert(post_entries[pre_entries.len() as int].runtime_port as int == q);
        }
        if exists|i: int|
            0 <= i < post_entries.len() && (#[trigger] post_entries[i]).runtime_port as int
                == q {
            let i = choose|i: int|
                0 <= i < post_entries.len() && (#[trigger] post_entries[i]).runtime_port as int
                    == q;
            if i < pre_entries.len() {
                assert(pre_entries[i].runtime_port as int == q);
            } else {
                assert(post_entries[i] == e);
            }
        }
    }
}

/// Removing an entry and releasing its port keeps the pool and the
/// entries in agreement, as long as no two entries shared the port.
pub proof fn lemma_pool_matches_after_remove(
    pre_entries: Seq<EntryModel>,
    pre_pool: PortPool,
    post_entries: Seq<EntryModel>,
    post_pool: PortPool,
    i: int,
)
    requires
        pool_matches_entries(pre_entries, pre_pool),
        forall|a: int, b: int|
            0 <= a < b < pre_entries.len() ==> (#[trigger] pre_entries[a]).runtime_port != (
            #[trigger] pre_entries[b]).runtime_port,
        0 <= i < pre_entries.len(),
        post_entries == pre_entries.remove(i),
        post_pool.first_port() == pre_pool.first_port(),
        post_pool.last_port() == pre_pool.last_port(),
        forall|q: int|
            post_pool.is_allocated(q) <==> (pre_pool.is_allocated(q) && q != pre_entries[
                i
            ].runtime_port as int),
    ensures
        pool_matches_entries(post_entries, post_pool),
{
    let gone = pre_entries[i].runtime_port as int;
    assert forall|q: int|
        post_pool.is_allocated(q) <==> (post_pool.in_range(q) && exists|k: int|
            0 <= k < post_entries.len() && (#[trigger] post_entries[k]).runtime_port as int
                == q) by {
        if post_pool.is_allocated(q) {
            let k = choose|k: int|
                0 <= k < pre_entries.len() && (#[trigger] pre_entries[k]).runtime_port as int
                    == q;
            assert(k != i);
            if k < i {
                assert(post_entries[k].runtime_port as int == q);
            } else {
                assert(post_entries[k - 1].runtime_port as int == q);
            }
        }
        if exists|k: int|
            0 <= k < post_entries.len() && (#[trigger] post_entries[k]).runtime_port as int
                == q {
            let k = choose|k: int|
                0 <= k < post_entries.len() && (#[trigger] post_entries[k]).runtime_port as int
                    == q;
            let src = if k < i { k } else { k + 1 };
            assert(pre_entries[src].runtime_port as int == q);
            if post_pool.in_range(q) {
                assert(pre_pool.is_allocated(q));
                if q == gone {
                    assert(pre_entries[src].runtime_port == pre_entries[i].runtime_port);
                    assert(src == i);
                    assert(false);
                }
            }
        }
    }
}

/// Registry of the running workbook workers, with its port pool.
#[derive(Debug)]
pub struct RuntimeManager {
    runtimes: Vec<RuntimeInfo>,
    ports: PortPool,
}

impl RuntimeManager {
    /// The stored entries, as mathematical values.
    pub closed spec fn model(&self) -> Seq<EntryModel> {
        self.runtimes@.map_values(|e: RuntimeInfo| e.model())
    }

    /// The port pool's state.
    pub closed spec fn pool(&self) -> PortPool {
        self.ports
    }

    /// Internal consistency: one entry per workbook, no window registered
    /// twice, a well-formed pool over the runtime port range.
    pub closed spec fn wf(&self) -> bool {
        &&& forall|i: int, j: int|
            0 <= i < j < self.model().len() ==> self.model()[i].workbook_id
                != self.model()[j].workbook_id
        &&& forall|i: int|
            0 <= i < self.runtimes@.len() ==> (#[trigger] self.runtimes@[i]).windows_distinct()
        &&& self.ports.wf()
        &&& self.ports.first_port() == crate::RUNTIME_PORT_START
        &&& self.ports.last_port() == crate::RUNTIME_PORT_END
    }

    /// An empty registry over the runtime port range.
    pub fn new() -> (r: Self)
        ensures
            r.wf(),
            r.model() == Seq::<EntryModel>::empty(),
            forall|q: int| !r.pool().is_allocated(q),
    {
        let r = RuntimeManager { runtimes: Vec::new(), ports: PortPool::new_runtime_range() };
        proof {
            assert(r.model() =~= Seq::<EntryModel>::empty());
        }
        r
    }

    /// Hands out the next free runtime port, round robin; nothing when
    /// the range is exhausted.
    pub fn allocate_port(&mut self) -> (r: Option<u16>)
        requires
            old(self).wf(),
        ensures
            final(self).wf(),
            final(self).model() == old(self).model(),
            match r {
                Some(p) => crate::ports::allocate_rel(old(self).pool(), final(self).pool(), p),
                None => final(self).pool() == old(self).pool() && old(self).pool().is_full(),
            },
    {
        let r = self.ports.allocate();
        proof {
            assert(self.runtimes@ == old(self).runtimes@);
            assert(self.model() == old(self).model());
        }
        r
    }

    /// Returns a port to the pool.
    pub fn release_port(&mut self, port: u16)
        requires
            old(self).wf(),
        ensures
            final(self).wf(),
            final(self).model() == old(self).model(),
            forall|q: int|
                final(self).pool().is_allocated(q) <==> (old(self).pool().is_allocated(q) && q
                    != port as int),
    {
        self.ports.release(port);
        proof {
            assert(self.runtimes@ == old(self).runtimes@);
            assert(self.model() == old(self).model());
        }
    }

    /// Index of the entry of `workbook_id`.
    fn find_index(&self, workbook_id: &str) -> (r: Option<usize>)
        ensures
            match r {
                Some(i) => i < self.model().len() && first_where(
                    self.model(),
                    entry_by_id(workbook_id@),
                ) == Some(i as int),
                None => first_where(self.model(), entry_by_id(workbook_id@)) is None,
            },
            r is Some <==> has_entry(self.model(), workbook_id@),
    {
        let n = self.runtimes.len();
        let mut k: usize = 0;
        while k < n
            invariant
                n == self.runtimes@.len(),
                0 <= k <= n,
                forall|j: int| 0 <= j < k ==> self.model()[j].workbook_id != workbook_id@,
            decreases n - k,
        {
            if str_eq(self.runtimes[k].workbook_id.as_str(), workbook_id) {
                proof {
                    lemma_first_where(self.model(), entry_by_id(workbook_id@));
                    assert(entry_by_id(workbook_id@)(self.model()[k as int]));
                }
                return Some(k);
            }
            k = k + 1;
        }
        proof {
            lemma_first_where(self.model(), entry_by_id(workbook_id@));
        }
        None
    }

    /// The entry of a workbook, if its worker runs.
    pub fn get(&self, workbook_id: &str) -> (r: Option<&RuntimeInfo>)
        ensures
            match first_where(self.model(), entry_by_id(workbook_id@)) {
                Some(i) => r matches Some(e) && e.model() == self.model()[i],
                None => r is None,
            },
            r is Some <==> has_entry(self.model(), workbook_id@),
    {
        match self.find_index(workbook_id) {
            Some(i) => Some(&self.runtimes[i]),
            None => None,
        }
    }

    /// Whether a workbook has a running worker.
    pub fn has_runtime(&self, workbook_id: &str) -> (r: bool)
        ensures
            r == has_entry(self.model(), workbook_id@),
    {
        match self.find_index(workbook_id) {
            Some(_) => true,
            None => false,
        }
    }

    /// Stores an entry under its workbook, replacing a previous one, and
    /// marks its port allocated.
    pub fn insert(&mut self, workbook_id: String, info: RuntimeInfo)
        requires
            old(self).wf(),
            workbook_id@ == info.workbook_id@,
            info.windows_distinct(),
        ensures
            final(self).wf(),
            final(self).model() == insert_entry_spec(old(self).model(), info.model()),
            forall|q: int|
                final(self).pool().is_allocated(q) <==> (old(self).pool().is_allocated(q) || (q
                    == info.runtime_port as int && old(self).pool().in_range(q))),
    {
        let ghost pre = self.model();
        let ghost em = info.model();
        self.ports.mark_allocated(info.runtime_port);
        match self.find_index(workbook_id.as_str()) {
            Some(i) => {
                proof {
                    lemma_first_where(pre, entry_by_id(em.workbook_id));
                }
                self.runtimes.set(i, info);
                proof {
                    assert(self.model() =~= pre.update(i as int, em));
                }
            },
            None => {
                proof {
                    lemma_first_where(pre, entry_by_id(em.workbook_id));
                }
                self.runtimes.push(info);
                proof {
                    assert(self.model() =~= pre.push(em));
                }
            },
        }
    }

    /// Removes a workbook's entry and releases its port; nothing happens
    /// for a workbook without one.
    pub fn remove(&mut self, workbook_id: &str) -> (r: Option<RuntimeInfo>)
        requires
            old(self).wf(),
        ensures
            final(self).wf(),
            match first_where(old(self).model(), entry_by_id(workbook_id@)) {
                Some(i) => {
                    &&& r matches Some(e) && e.model() == old(self).model()[i]
                    &&& final(self).model() == old(self).model().remove(i)
                    &&& forall|q: int|
                        final(self).pool().is_allocated(q) <==> (old(self).pool().is_allocated(q)
                            && q != old(self).model()[i].runtime_port as int)
                },
                None => r is None && *final(self) == *old(self),
            },
    {
        let ghost pre = self.model();
        match self.find_index(workbook_id) {
            Some(i) => {
                let info = self.runtimes.remove(i);
                self.ports.release(info.runtime_port);
                proof {
                    assert(self.model() =~= pre.remove(i as int));
                }
                Some(info)
            },
            None => None,
        }
    }

    /// The workbooks with a running worker, in storage order.
    pub fn workbook_ids(&self) -> (r: Vec<String>)
        ensures
            r@.map_values(|s: String| s@) == self.model().map_values(
                |e: EntryModel| e.workbook_id,
            ),
    {
        let n = self.runtimes.len();
        let mut out: Vec<String> = Vec::new();
        let mut k: usize = 0;
        while k < n
            invariant
                n == self.runtimes@.len(),
                0 <= k <= n,
                out@.map_values(|s: String| s@) =~= self.model().take(k as int).map_values(
                    |e: EntryModel| e.workbook_id,
                ),
            decreases n - k,
        {
            let ghost before = out@.map_values(|s: String| s@);
            out.push(self.runtimes[k].workbook_id.clone());
            proof {
                assert(out@.map_values(|s: String| s@) =~= before.push(
                    self.model()[k as int].workbook_id,
                ));
                assert(self.model().take(k + 1) =~= self.model().take(k as int).push(
                    self.model()[k as int],
                ));
                assert(self.model().take(k + 1).map_values(|e: EntryModel| e.workbook_id) =~= self
                    .model().take(k as int).map_values(|e: EntryModel| e.workbook_id).push(
                    self.model()[k as int].workbook_id,
                ));
            }
            k = k + 1;
        }
        proof {
            assert(self.model().take(n as int) =~= self.model());
        }
        out
    }

    /// Number of running workers.
    pub fn count(&self) -> (r: usize)
        ensures
            r == self.model().len(),
    {
        self.runtimes.len()
    }

    /// Whether any worker has in-flight jobs.
    pub fn any_active_jobs(&self) -> (r: bool)
        ensures
            r == exists|i: int| 0 <= i < self.model().len() && self.model()[i].active_jobs > 0,
    {
        let n = self.runtimes.len();
        let mut k: usize = 0;
        while k < n
            invariant
                n == self.runtimes@.len(),
                0 <= k <= n,
                forall|j: int| 0 <= j < k ==> self.model()[j].active_jobs == 0,
            decreases n - k,
        {
            if self.runtimes[k].active_jobs > 0 {
                proof {
                    assert(self.model()[k as int].active_jobs > 0);
                }
                return true;
            }
            k = k + 1;
        }
        false
    }

    /// The workbooks whose workers have in-flight jobs, in storage order.
    pub fn workbooks_with_active_jobs(&self) -> (r: Vec<String>)
        ensures
            r@.map_values(|s: String| s@) == self.model().filter(busy_entry()).map_values(
                |e: EntryModel| e.workbook_id,
            ),
    {
        let n = self.runtimes.len();
        let mut out: Vec<String> = Vec::new();
        let mut k: usize = 0;
        while k < n
            invariant
                n == self.runtimes@.len(),
                0 <= k <= n,
                out@.map_values(|s: String| s@) =~= self.model().take(k as int).filter(
                    busy_entry(),
                ).map_values(|e: EntryModel| e.workbook_id),
            decreases n - k,
        {
            proof {
                assert(self.model().take(k + 1) =~= self.model().take(k as int).push(
                    self.model()[k as int],
                ));
                lemma_filter_push(self.model().take(k as int), busy_entry(),
                    self.model()[k as int]);
            }
            if self.runtimes[k].active_jobs > 0 {
                let ghost before = out@.map_values(|s: String| s@);
                out.push(self.runtimes[k].workbook_id.clone());
                proof {
                    assert(out@.map_values(|s: String| s@) =~= before.push(
                        self.model()[k as int].workbook_id,
                    ));
                    assert(self.model().take(k + 1).filter(busy_entry()).map_values(
                        |e: EntryModel| e.workbook_id,
                    ) =~= self.model().take(k as int).filter(busy_entry()).map_values(
                        |e: EntryModel| e.workbook_id,
                    ).push(self.model()[k as int].workbook_id));
                }
            }
            k = k + 1;
        }
        proof {
            assert(self.model().take(n as int) =~= self.model());
        }
        out
    }

    /// Records that a window depends on a workbook's worker.  A window
    /// already registered, or a workbook without a worker, changes
    /// nothing.
    pub fn register_window(&mut self, workbook_id: &str, window_label: String)
        requires
            old(self).wf(),
        ensures
            final(self).wf(),
            final(self).pool() == old(self).pool(),
            match first_where(old(self).model(), entry_by_id(workbook_id@)) {
                Some(i) => final(self).model() == old(self).model().update(
                    i,
                    EntryModel {
                        windows: add_window(old(self).model()[i].windows, window_label@),
                        ..old(self).model()[i]
                    },
                ),
                None => final(self).model() == old(self).model(),
            },
    {
        let ghost pre = self.model();
        match self.find_index(workbook_id) {
            Some(i) => {
                proof {
                    lemma_first_where(pre, entry_by_id(workbook_id@));
                }
                if !window_known(&self.runtimes[i].windows, window_label.as_str()) {
                    let ghost wpre = pre[i as int].windows;
                    proof {
                        assert(!has_window(pre[i as int].windows, window_label@));
                    }
                    let mut info = self.runtimes.remove(i);
                    info.windows.push(window_label);
                    proof {
                        assert(info.windows@.map_values(|w: String| w@) =~= wpre.push(
                            window_label@,
                        ));
                        assert(info.windows_distinct()) by {
                            let ws = info.windows@;
                            assert forall|a: int, b: int| 0 <= a < b < ws.len() implies ws[a]@
                                != ws[b]@ by {
                                if b == ws.len() - 1 {
                                    assert(wpre[a] != window_label@);
                                    assert(ws[a]@ == wpre[a]);
                                }
                            }
                        }
                    }
                    let ghost gi = info;
                    self.runtimes.insert(i, info);
                    proof {
                        assert(self.runtimes@ =~= old(self).runtimes@.update(i as int, gi));
                        assert forall|j: int| 0 <= j < self.runtimes@.len() implies (
                        #[trigger] self.runtimes@[j]).windows_distinct() by {
                            if j != i as int {
                                assert(self.runtimes@[j] == old(self).runtimes@[j]);
                            }
                        }
                        assert(self.model() =~= pre.update(
                            i as int,
                            EntryModel { windows: add_window(pre[i as int].windows, window_label@),
                                ..pre[i as int] },
                        ));
                    }
                } else {
                    proof {
                        assert(has_window(pre[i as int].windows, window_label@));
                        assert(self.model() =~= pre.update(
                            i as int,
                            EntryModel { windows: add_window(pre[i as int].windows, window_label@),
                                ..pre[i as int] },
                        ));
                    }
                }
            },
            None => {},
        }
    }

    /// Forgets that a window depends on a workbook's worker; reports
    /// whether the worker is now free of windows.  A workbook without a
    /// worker reports `false`.
    pub fn unregister_window(&mut self, workbook_id: &str, window_label: &str) -> (r: bool)
        requires
            old(self).wf(),
        ensures
            final(self).wf(),
            final(self).pool() == old(self).pool(),
            match first_where(old(self).model(), entry_by_id(workbook_id@)) {
                Some(i) => {
                    &&& final(self).model() == old(self).model().update(
                        i,
                        EntryModel {
                            windows: remove_window(old(self).model()[i].windows, window_label@),
                            ..old(self).model()[i]
                        },
                    )
                    &&& r == (remove_window(old(self).model()[i].windows, window_label@).len()
                        == 0)
                },
                None => final(self).model() == old(self).model() && r == false,
            },
    {
        let ghost pre = self.model();
        match self.find_index(workbook_id) {
            Some(i) => {
                proof {
                    lemma_first_where(pre, entry_by_id(workbook_id@));
                }
                let ghost wpre = pre[i as int].windows;
                let mut info = self.runtimes.remove(i);
                let wn = info.windows.len();
                let mut kept: Vec<String> = Vec::new();
                let mut k: usize = 0;
                while k < wn
                    invariant
                        wn == info.windows@.len(),
                        0 <= k <= wn,
                        wpre == info.windows@.map_values(|w: String| w@),
                        kept@.map_values(|w: String| w@) =~= wpre.take(k as int).filter(
                            |w: Seq<char>| w != window_label@,
                        ),
                    decreases wn - k,
                {
                    proof {
                        assert(wpre.take(k + 1) =~= wpre.take(k as int).push(wpre[k as int]));
                        lemma_filter_push(wpre.take(k as int), |w: Seq<char>| w != window_label@,
                            wpre[k as int]);
                    }
                    if !str_eq(window_at(&info.windows, k).as_str(), window_label) {
                        let ghost before = kept@.map_values(|w: String| w@);
                        kept.push(info.windows[k].clone());
                        proof {
                            assert(kept@.map_values(|w: String| w@) =~= before.push(
                                wpre[k as int],
                            ));
                        }
                    }
                    k = k + 1;
                }
                proof {
                    assert(wpre.take(wn as int) =~= wpre);
                    lemma_filter_distinct_by(wpre, |w: Seq<char>| w != window_label@,
                        |w: Seq<char>| w);
                }
                let empty = kept.len() == 0;
                info.windows = kept;
                proof {
                    assert(info.windows_distinct()) by {
                        let ws = info.windows@;
                        assert forall|a: int, b: int| 0 <= a < b < ws.len() implies ws[a]@
                            != ws[b]@ by {
                            let fs = wpre.filter(|w: Seq<char>| w != window_label@);
                            assert(ws[a]@ == fs[a] && ws[b]@ == fs[b]);
                        }
                    }
                }
                let ghost gi = info;
                self.runtimes.insert(i, info);
                proof {
                    assert(self.runtimes@ =~= old(self).runtimes@.update(i as int, gi));
                    assert forall|j: int| 0 <= j < self.runtimes@.len() implies (
                    #[trigger] self.runtimes@[j]).windows_distinct() by {
                        if j != i as int {
                            assert(self.runtimes@[j] == old(self).runtimes@[j]);
                        }
                    }
                    assert(self.model() =~= pre.update(
                        i as int,
                        EntryModel { windows: remove_window(wpre, window_label@), ..pre[
                            i as int
                        ] },
                    ));
                }
                empty
            },
            None => false,
        }
    }

    /// Counts one more in-flight job on a workbook's entry; saturates at
    /// the top of the counter's range.
    pub fn increment_jobs_for(&mut self, workbook_id: &str)
        requires
            old(self).wf(),
        ensures
            final(self).wf(),
            final(self).pool() == old(self).pool(),
            final(self).model() == incr_jobs_spec(old(self).model(), workbook_id@),
    {
        let ghost pre = self.model();
        match self.find_index(workbook_id) {
            Some(i) => {
                proof {
                    lemma_first_where(pre, entry_by_id(workbook_id@));
                }
                let mut info = self.runtimes.remove(i);
                info.increment_jobs();
                let ghost gi = info;
                self.runtimes.insert(i, info);
                proof {
                    assert(self.runtimes@ =~= old(self).runtimes@.update(i as int, gi));
                    assert forall|j: int| 0 <= j < self.runtimes@.len() implies (
                    #[trigger] self.runtimes@[j]).windows_distinct() by {
                        if j != i as int {
                            assert(self.runtimes@[j] == old(self).runtimes@[j]);
                        } else {
                            assert(gi.windows == old(self).runtimes@[j].windows);
                        }
                    }
                    assert(self.model() =~= pre.update(
                        i as int,
                        EntryModel { active_jobs: if pre[i as int].active_jobs < u64::MAX {
                            (pre[i as int].active_jobs + 1) as u64
                        } else {
                            u64::MAX
                        }, ..pre[i as int] },
                    ));
                }
            },
            None => {},
        }
    }

    /// Counts one in-flight job less on a workbook's entry; an
    /// already-zero counter stays zero.
    pub fn decrement_jobs_for(&mut self, workbook_id: &str)
        requires
            old(self).wf(),
        ensures
            final(self).wf(),
            final(self).pool() == old(self).pool(),
            final(self).model() == decr_jobs_spec(old(self).model(), workbook_id@),
    {
        let ghost pre = self.model();
        match self.find_index(workbook_id) {
            Some(i) => {
                proof {
                    lemma_first_where(pre, entry_by_id(workbook_id@));
                }
                let mut info = self.runtimes.remove(i);
                info.decrement_jobs();
                let ghost gi = info;
                self.runtimes.insert(i, info);
                proof {
                    assert(self.runtimes@ =~= old(self).runtimes@.update(i as int, gi));
                    assert forall|j: int| 0 <= j < self.runtimes@.len() implies (
                    #[trigger] self.runtimes@[j]).windows_distinct() by {
                        if j != i as int {
                            assert(self.runtimes@[j] == old(self).runtimes@[j]);
                        } else {
                            assert(gi.windows == old(self).runtimes@[j].windows);
                        }
                    }
                    assert(self.model() =~= pre.update(
                        i as int,
                        EntryModel { active_jobs: if pre[i as int].active_jobs > 0 {
                            (pre[i as int].active_jobs - 1) as u64
                        } else {
                            0u64
                        }, ..pre[i as int] },
                    ));
                }
            },
            None => {},
        }
    }

    /// Removes every entry whose workbook occurs in `exited`, releasing
    /// each one's port, and returns the removed entries in storage order.
    pub fn remove_exited(&mut self, exited: &Vec<String>) -> (removed: Vec<RuntimeInfo>)
        requires
            old(self).wf(),
        ensures
            final(self).wf(),
            final(self).model() == old(self).model().filter(surviving_entry(exited@)),
            removed@.map_values(|e: RuntimeInfo| e.model()) == old(self).model().filter(
                exited_entry(exited@),
            ),
            final(self).pool().first_port() == old(self).pool().first_port(),
            final(self).pool().last_port() == old(self).pool().last_port(),
            forall|q: int|
                final(self).pool().is_allocated(q) <==> (old(self).pool().is_allocated(q)
                    && !exists|k: int|
                    0 <= k < removed@.len() && (#[trigger] removed@[k]).runtime_port as int == q),
    {
        let ghost pre = self.model();
        let ghost pre_runtimes = self.runtimes@;
        let n = self.runtimes.len();
        let mut kept: Vec<RuntimeInfo> = Vec::new();
        let mut removed: Vec<RuntimeInfo> = Vec::new();
        let mut k: usize = 0;
        while k < n
            invariant
                old(self).wf(),
                n == pre_runtimes.len(),
                pre_runtimes == old(self).runtimes@,
                self.runtimes@ == pre_runtimes.skip(k as int),
                pre == pre_runtimes.map_values(|e: RuntimeInfo| e.model()),
                self.ports.wf(),
                self.ports.first_port() == old(self).pool().first_port(),
                self.ports.last_port() == old(self).pool().last_port(),
                0 <= k <= n,
                kept@.map_values(|e: RuntimeInfo| e.model()) =~= pre.take(k as int).filter(
                    surviving_entry(exited@),
                ),
                removed@.map_values(|e: RuntimeInfo| e.model()) =~= pre.take(k as int).filter(
                    exited_entry(exited@),
                ),
                forall|a: int|
                    0 <= a < kept@.len() ==> (#[trigger] kept@[a]).windows_distinct(),
                forall|q: int|
                    self.ports.is_allocated(q) <==> (old(self).pool().is_allocated(q)
                        && !exists|j: int|
                        0 <= j < removed@.len() && (#[trigger] removed@[j]).runtime_port as int
                            == q),
            decreases n - k,
        {
            proof {
                assert(pre.take(k + 1) =~= pre.take(k as int).push(pre[k as int]));
                lemma_filter_push(pre.take(k as int), surviving_entry(exited@), pre[k as int]);
                lemma_filter_push(pre.take(k as int), exited_entry(exited@), pre[k as int]);
                assert(self.runtimes@[0] == pre_runtimes[k as int]);
                assert(pre_runtimes.skip(k as int).drop_first() =~= pre_runtimes.skip(k + 1));
            }
            let info = self.runtimes.remove(0);
            proof {
                assert(info.model() == pre[k as int]);
                assert(pre_runtimes == old(self).runtimes@);
                assert((#[trigger] old(self).runtimes@[k as int]).windows_distinct());
                assert(info.windows_distinct());
            }
            if vec_contains_str(exited, info.workbook_id.as_str()) {
                let ghost removed_before = removed@;
                let ghost alloc_before = self.ports;
                self.ports.release(info.runtime_port);
                let ghost before = removed@.map_values(|e: RuntimeInfo| e.model());
                let ghost gi = info;
                removed.push(info);
                proof {
                    assert(removed@.map_values(|e: RuntimeInfo| e.model()) =~= before.push(
                        pre[k as int],
                    ));
                    assert(removed@ =~= removed_before.push(gi));
                    assert forall|q: int|
                        self.ports.is_allocated(q) <==> (old(self).pool().is_allocated(q)
                            && !exists|j: int|
                            0 <= j < removed@.len() && (#[trigger] removed@[j]).runtime_port as int
                                == q) by {
                        if exists|j: int|
                            0 <= j < removed@.len() && (#[trigger] removed@[j]).runtime_port as int
                                == q {
                            let j = choose|j: int|
                                0 <= j < removed@.len() && (#[trigger] removed@[
                                    j
                                ]).runtime_port as int == q;
                            if j < removed_before.len() {
                                assert(removed_before[j].runtime_port as int == q);
                            } else {
                                assert(gi.runtime_port as int == q);
                            }
                        }
                        if exists|j: int|
                            0 <= j < removed_before.len() && (#[trigger] removed_before[
                                j
                            ]).runtime_port as int == q {
                            let j = choose|j: int|
                                0 <= j < removed_before.len() && (#[trigger] removed_before[
                                    j
                                ]).runtime_port as int == q;
                            assert(removed@[j].runtime_port as int == q);
                        }
                        if gi.runtime_port as int == q {
                            assert(removed@[removed@.len() - 1].runtime_port as int == q);
                        }
                    }
                }
            } else {
                let ghost before = kept@.map_values(|e: RuntimeInfo| e.model());
                kept.push(info);
                proof {
                    assert(kept@.map_values(|e: RuntimeInfo| e.model()) =~= before.push(
                        pre[k as int],
                    ));
                }
            }
            k = k + 1;
        }
        proof {
            assert(pre.take(n as int) =~= pre);
        }
        self.runtimes = kept;
        proof {
            lemma_filter_distinct_by(pre, surviving_entry(exited@),
                |e: EntryModel| e.workbook_id);
            assert(self.model() == kept@.map_values(|e: RuntimeInfo| e.model()));
        }
        removed
    }

    /// Read access to every entry, in storage order.
    pub fn entries(&self) -> (r: &Vec<RuntimeInfo>)
        ensures
            r@.map_values(|e: RuntimeInfo| e.model()) == self.model(),
    {
        &self.runtimes
    }
}

/// Read a window label by index.
fn window_at<'a>(windows: &'a Vec<String>, k: usize) -> (r: &'a String)
    requires
        k < windows@.len(),
    ensures
        r == windows@[k as int],
{
    &windows[k]
}

/// Whether a label is already registered.
fn window_known(windows: &Vec<String>, label: &str) -> (r: bool)
    ensures
        r == has_window(windows@.map_values(|w: String| w@), label@),
{
    let n = windows.len();
    let mut k: usize = 0;
    while k < n
        invariant
            n == windows@.len(),
            0 <= k <= n,
            forall|j: int| 0 <= j < k ==> windows@[j]@ != label@,
        decreases n - k,
    {
        if str_eq(windows[k].as_str(), label) {
            proof {
                assert(windows@.map_values(|w: String| w@)[k as int] == label@);
            }
            return true;
        }
        k = k + 1;
    }
    proof {
        let ws = windows@.map_values(|w: String| w@);
        assert forall|j: int| 0 <= j < ws.len() implies ws[j] != label@ by {
            assert(windows@[j]@ != label@);
        }
    }
    false
}

} // verus!
