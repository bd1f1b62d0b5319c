//! Decisions of the supervisor: starting, stopping and restarting
//! workers, the window-gated teardown, and the bookkeeping driven by
//! session-status events.
//!
//! Every function here goes from plain values to plain values.  The
//! caller performs the blocking work these decisions call for — spawning
//! a worker, killing a process, sending a stop request — and feeds the
//! observed outcome back in.

use vstd::prelude::*;
use vstd::string::StringExecFns;

use crate::jobs::{JobRegistry, JobStatus, JobModel, SessionEvent, StatusClass, job_id_chars,
    register_spec, update_status_spec, has_active_for_session, by_session, classify_status_spec,
    by_id, active_by_workbook, new_job_model};
use crate::registry::{RuntimeManager, RuntimeInfo, EntryModel, entry_by_id, incr_jobs_spec,
    decr_jobs_spec, exited_entry, surviving_entry, remove_window, has_entry};
use crate::strutil::{dec_digits, u64_to_dec, first_where, lemma_first_where,
    lemma_first_where_at, lemma_filter_push, lemma_filter_elem_in, contains_str, count_where,
    lemma_count_where_push, lemma_count_where_update, lemma_count_where_pos,
    lemma_count_where_bounds};

verus! {

/// Outcome of a health probe.
#[derive(Debug, Clone)]
pub struct HealthCheck {
    pub healthy: bool,
    pub message: String,
}

/// State of one auxiliary service of a worker.
#[derive(Debug, Clone)]
pub struct ServiceStatus {
    pub up: bool,
    pub port: u16,
    pub pid: Option<u32>,
    pub error: Option<String>,
}

/// The auxiliary services a worker reports.
#[derive(Debug, Clone)]
pub struct RuntimeServices {
    pub postgres: ServiceStatus,
    pub worker: ServiceStatus,
}

/// What a start or stop request reports back.
#[derive(Debug, Clone)]
pub struct DevServerStatus {
    pub running: bool,
    pub workbook_id: String,
    pub directory: String,
    pub runtime_port: u16,
    pub message: String,
}

/// Why a worker could not be brought up.
#[derive(Debug)]
pub enum SupervisorError {
    /// The worker executable would not start.
    SpawnFailure(String),
    /// No ready message arrived in time, or the process died first.
    HandshakeTimeout,
    /// Every port of the runtime range is taken.
    PortExhaustion,
}

impl SupervisorError {
    /// The report surfaced to the caller of a failed start.
    pub fn message(&self) -> (r: String)
        ensures
            r@ == (match self {
                SupervisorError::SpawnFailure(e) => "Failed to start runtime: "@ + e@,
                SupervisorError::HandshakeTimeout => "Timeout waiting for runtime to start"@,
                SupervisorError::PortExhaustion => "No free runtime port"@,
            }),
    {
        match self {
            SupervisorError::SpawnFailure(e) => {
                let mut s = String::from_str("Failed to start runtime: ");
                s.append(e.as_str());
                s
            },
            SupervisorError::HandshakeTimeout => String::from_str(
                "Timeout waiting for runtime to start",
            ),
            SupervisorError::PortExhaustion => String::from_str("No free runtime port"),
        }
    }
}

/// The sidecar binaries the supervisor launches.
#[derive(Debug, Clone, Copy, PartialEq, Eq, Structural)]
pub enum Sidecar {
    /// Workbook initialization command.
    Cli,
    /// Workbook runtime server.
    WorkbookServer,
    /// Agent server.
    Agent,
}

impl Sidecar {
    /// The binary's base name.
    pub fn name(&self) -> (r: &'static str)
        ensures
            r@ == (match self {
                Sidecar::Cli => "hands-cli"@,
                Sidecar::WorkbookServer => "hands-workbook-server"@,
                Sidecar::Agent => "hands-agent"@,
            }),
    {
        match self {
            Sidecar::Cli => "hands-cli",
            Sidecar::WorkbookServer => "hands-workbook-server",
            Sidecar::Agent => "hands-agent",
        }
    }
}

/// The label of the window showing `workbook_id`.
pub fn window_label(workbook_id: &str) -> (r: String)
    ensures
        r@ == "workbook_"@ + workbook_id@,
{
    let mut s = String::from_str("workbook_");
    s.append(workbook_id);
    s
}

/// One planned restart: tenant, directory, and the attempt count the new
/// registration will carry.
#[derive(Debug, Clone)]
pub struct RestartPlan {
    pub workbook_id: String,
    pub directory: String,
    pub restart_count: u32,
}

/// Mathematical image of a [`RestartPlan`].
pub ghost struct PlanModel {
    pub workbook_id: Seq<char>,
    pub directory: Seq<char>,
    pub restart_count: u32,
}

impl RestartPlan {
    pub open spec fn model(&self) -> PlanModel {
        PlanModel {
            workbook_id: self.workbook_id@,
            directory: self.directory@,
            restart_count: self.restart_count,
        }
    }
}

/// Picks the removed entries the monitor will respawn: those still below
/// the restart bound.
pub open spec fn retryable_entry() -> spec_fn(EntryModel) -> bool {
    |e: EntryModel| e.restart_count < crate::MAX_RESTARTS
}

/// The restart plan an exited entry gives rise to: same tenant and
/// directory, the attempt count one higher.
pub open spec fn plan_of_entry(e: EntryModel) -> PlanModel {
    PlanModel {
        workbook_id: e.workbook_id,
        directory: e.directory,
        restart_count: (e.restart_count + 1) as u32,
    }
}

/// The plans one monitor pass produces from the registry's entries: one
/// per exited entry below the restart bound, in registry order.
pub open spec fn monitor_plans_spec(entries: Seq<EntryModel>, exited: Seq<String>) -> Seq<
    PlanModel,
> {
    entries.filter(exited_entry(exited)).filter(retryable_entry()).map_values(
        |e: EntryModel| plan_of_entry(e),
    )
}

/// One pass of the restart monitor, after liveness has been observed:
/// every entry whose worker exited (listed in `exited`) leaves the
/// registry and its port is released; those below the restart bound come
/// back as restart plans with the attempt count one higher; the rest are
/// abandoned.  The caller re-runs the handshake for each plan, after the
/// backoff delay, and commits the outcome.
pub fn monitor_step(m: &mut RuntimeManager, exited: &Vec<String>) -> (plans: Vec<RestartPlan>)
    requires
        old(m).wf(),
    ensures
        final(m).wf(),
        final(m).model() == old(m).model().filter(surviving_entry(exited@)),
        plans@.map_values(|p: RestartPlan| p.model()) == monitor_plans_spec(
            old(m).model(),
            exited@,
        ),
{
    let removed = m.remove_exited(exited);
    let ghost removed_models = removed@.map_values(|e: RuntimeInfo| e.model());
    let n = removed.len();
    let mut plans: Vec<RestartPlan> = Vec::new();
    let mut k: usize = 0;
    while k < n
        invariant
            n == removed@.len(),
            removed_models == removed@.map_values(|e: RuntimeInfo| e.model()),
            0 <= k <= n,
            plans@.map_values(|p: RestartPlan| p.model()) =~= removed_models.take(
                k as int,
            ).filter(retryable_entry()).map_values(|e: EntryModel| plan_of_entry(e)),
        decreases n - k,
    {
        proof {
            assert(removed_models.take(k + 1) =~= removed_models.take(k as int).push(
                removed_models[k as int],
            ));
            lemma_filter_push(removed_models.take(k as int), retryable_entry(),
                removed_models[k as int]);
        }
        if removed[k].restart_count < crate::MAX_RESTARTS {
            let ghost before = plans@.map_values(|p: RestartPlan| p.model());
            let plan = RestartPlan {
                workbook_id: removed[k].workbook_id.clone(),
                directory: removed[k].directory.clone(),
                restart_count: removed[k].restart_count + 1,
            };
            proof {
                assert(plan.model() == plan_of_entry(removed_models[k as int]));
            }
            plans.push(plan);
            proof {
                assert(plans@.map_values(|p: RestartPlan| p.model()) =~= before.push(
                    plan_of_entry(removed_models[k as int]),
                ));
                assert(removed_models.take(k + 1).filter(retryable_entry()).map_values(
                    |e: EntryModel| plan_of_entry(e),
                ) =~= removed_models.take(k as int).filter(retryable_entry()).map_values(
                    |e: EntryModel| plan_of_entry(e),
                ).push(plan_of_entry(removed_models[k as int])));
            }
        }
        k = k + 1;
    }
    proof {
        assert(removed_models.take(n as int) =~= removed_models);
    }
    plans
}

/// Stops every tenant's worker at once: the registry empties, every port
/// is released, and the removed entries come back so the caller can stop
/// each process.  The start path uses this where a legacy
/// single-shared-port constraint allows only one worker at a time.
pub fn stop_all_runtimes(m: &mut RuntimeManager) -> (removed: Vec<RuntimeInfo>)
    requires
        old(m).wf(),
    ensures
        final(m).wf(),
        final(m).model().len() == 0,
        removed@.map_values(|e: RuntimeInfo| e.model()) == old(m).model(),
{
    let ids = m.workbook_ids();
    let ghost pre = m.model();
    let removed = m.remove_exited(&ids);
    proof {
        let mids = ids@.map_values(|s: String| s@);
        let wids = pre.map_values(|e: EntryModel| e.workbook_id);
        assert(mids == wids);
        assert forall|i: int| 0 <= i < pre.len() implies exited_entry(ids@)(pre[i]) by {
            assert(wids[i] == pre[i].workbook_id);
            assert(mids.len() == ids@.len());
            assert(mids[i] == ids@[i]@);
            assert(contains_str(ids@, pre[i].workbook_id));
        }
        crate::strutil::lemma_filter_all(pre, exited_entry(ids@));
        let survivors = pre.filter(surviving_entry(ids@));
        if survivors.len() > 0 {
            pre.lemma_filter_pred(surviving_entry(ids@), 0);
            lemma_filter_elem_in(pre, surviving_entry(ids@), 0);
        }
    }
    removed
}

/// What a start request finds.
#[derive(Debug, Clone, Copy, PartialEq, Eq, Structural)]
pub enum StartDecision {
    /// The tenant already has a live worker on this port: return it, do
    /// not spawn a second one.
    AlreadyRunning(u16),
    /// No worker yet: spawn one and run the handshake.
    NeedSpawn,
}

/// Decides a start request idempotently: an already-registered tenant is
/// answered from the registry.
pub fn plan_start(m: &RuntimeManager, workbook_id: &str) -> (r: StartDecision)
    ensures
        match first_where(m.model(), entry_by_id(workbook_id@)) {
            Some(i) => r == StartDecision::AlreadyRunning(m.model()[i].runtime_port),
            None => r == StartDecision::NeedSpawn,
        },
{
    match m.get(workbook_id) {
        Some(info) => StartDecision::AlreadyRunning(info.runtime_port),
        None => StartDecision::NeedSpawn,
    }
}

/// Records a worker that finished its handshake: a fresh entry with no
/// windows, no jobs, and the given attempt count; its port is marked
/// allocated.  A previous entry of the same tenant is replaced.
pub fn commit_started(
    m: &mut RuntimeManager,
    workbook_id: String,
    directory: String,
    runtime_port: u16,
    postgres_port: u16,
    worker_port: u16,
    process_key: u64,
    restart_count: u32,
) -> (r: DevServerStatus)
    requires
        old(m).wf(),
    ensures
        final(m).wf(),
        final(m).model() == crate::registry::insert_entry_spec(
            old(m).model(),
            (EntryModel {
                workbook_id: workbook_id@,
                runtime_port,
                postgres_port,
                worker_port,
                process_key,
                directory: directory@,
                restart_count,
                active_jobs: 0,
                windows: Seq::empty(),
            }),
        ),
        r.running == true,
        r.workbook_id@ == workbook_id@,
        r.directory@ == directory@,
        r.runtime_port == runtime_port,
        r.message@ == "Workbook server started on port "@ + dec_digits(runtime_port as int),
{
    let info = RuntimeInfo {
        workbook_id: workbook_id.clone(),
        runtime_port,
        postgres_port,
        worker_port,
        process_key,
        directory: directory.clone(),
        restart_count,
        active_jobs: 0,
        windows: Vec::new(),
    };
    proof {
        assert(info.windows@.map_values(|w: String| w@) =~= Seq::<Seq<char>>::empty());
    }
    m.insert(workbook_id.clone(), info);
    let mut message = String::from_str("Workbook server started on port ");
    let port_dec = u64_to_dec(runtime_port as u64);
    message.append(port_dec.as_str());
    DevServerStatus { running: true, workbook_id, directory, runtime_port, message }
}

/// Stops a tenant's worker: its entry leaves the registry and its port is
/// released; the removed entry tells the caller which process to stop.
/// A tenant without a worker only gets the report.
pub fn stop_runtime(m: &mut RuntimeManager, workbook_id: &str) -> (r: (
    DevServerStatus,
    Option<RuntimeInfo>,
))
    requires
        old(m).wf(),
    ensures
        final(m).wf(),
        r.0.running == false,
        r.0.workbook_id@ == workbook_id@,
        match first_where(old(m).model(), entry_by_id(workbook_id@)) {
            Some(i) => {
                &&& final(m).model() == old(m).model().remove(i)
                &&& r.1 matches Some(e) && e.model() == old(m).model()[i]
                &&& r.0.message@ == "Runtime stopped"@
            },
            None => {
                &&& *final(m) == *old(m)
                &&& r.1 is None
                &&& r.0.message@ == "Runtime was not running"@
            },
        },
{
    let removed = m.remove(workbook_id);
    let message = match removed {
        Some(_) => String::from_str("Runtime stopped"),
        None => String::from_str("Runtime was not running"),
    };
    let status = DevServerStatus {
        running: false,
        workbook_id: String::from_str(workbook_id),
        directory: String::new(),
        runtime_port: 0,
        message,
    };
    (status, removed)
}

/// What closing a workbook window led to.
#[derive(Debug)]
pub enum CloseOutcome {
    /// In-flight jobs blocked the close; nothing changed.
    Blocked,
    /// The window was let go; the worker stays up.
    Closed,
    /// The window was the last gate: the entry left the registry and the
    /// caller stops this worker.
    ClosedAndStopped(RuntimeInfo),
}

/// Decides a window close.  Without `force`, in-flight jobs block it.
/// Otherwise the window is unregistered; if that empties the window set
/// and no job is in flight — the teardown gate — the entry is removed,
/// its port released, and the worker handed back to be stopped.
pub fn close_workbook_window(
    m: &mut RuntimeManager,
    workbook_id: &str,
    window_label: &str,
    force: bool,
) -> (r: CloseOutcome)
    requires
        old(m).wf(),
    ensures
        final(m).wf(),
        match first_where(old(m).model(), entry_by_id(workbook_id@)) {
            Some(i) => {
                let e = old(m).model()[i];
                if !force && e.active_jobs > 0 {
                    r is Blocked && *final(m) == *old(m)
                } else {
                    let after = remove_window(e.windows, window_label@);
                    if after.len() == 0 && e.active_jobs == 0 {
                        &&& final(m).model() == old(m).model().remove(i)
                        &&& r matches CloseOutcome::ClosedAndStopped(info) && info.model() == (
                        EntryModel { windows: after, ..e })
                    } else {
                        &&& final(m).model() == old(m).model().update(
                            i,
                            (EntryModel { windows: after, ..e }),
                        )
                        &&& r is Closed
                    }
                }
            },
            None => r is Closed && final(m).model() == old(m).model(),
        },
{
    let ghost pre = m.model();
    proof {
        lemma_first_where(pre, entry_by_id(workbook_id@));
    }
    let blocked = match m.get(workbook_id) {
        Some(info) => !force && info.has_active_jobs(),
        None => false,
    };
    if blocked {
        return CloseOutcome::Blocked;
    }
    let no_windows_left = m.unregister_window(workbook_id, window_label);
    let ghost mid = m.model();
    proof {
        match first_where(pre, entry_by_id(workbook_id@)) {
            Some(i) => {
                assert(mid[i].workbook_id == workbook_id@);
                assert forall|j: int| 0 <= j < i implies !entry_by_id(workbook_id@)(
                    mid[j],
                ) by {
                    assert(mid[j] == pre[j]);
                }
                lemma_first_where_at(mid, entry_by_id(workbook_id@), i);
            },
            None => {},
        }
    }
    let still_busy = match m.get(workbook_id) {
        Some(info) => info.has_active_jobs(),
        None => false,
    };
    if no_windows_left && !still_busy {
        match m.remove(workbook_id) {
            Some(info) => {
                proof {
                    match first_where(pre, entry_by_id(workbook_id@)) {
                        Some(i) => {
                            assert(m.model() =~= pre.remove(i));
                        },
                        None => {},
                    }
                }
                CloseOutcome::ClosedAndStopped(info)
            },
            None => CloseOutcome::Closed,
        }
    } else {
        CloseOutcome::Closed
    }
}

/// Classifies a health probe of the agent server: healthy exactly when
/// the request succeeded and the body looks like JSON (an array or an
/// object), not an HTML error page.
pub fn classify_health_response(status_ok: bool, body: &Vec<u8>) -> (r: HealthCheck)
    ensures
        r.healthy == (status_ok && body@.len() > 0 && (body@[0] == 91 || body@[0] == 123)),
        r.healthy ==> r.message@ == "Server is healthy"@,
        (!r.healthy && status_ok) ==> r.message@ == "Server returned HTML instead of JSON"@,
        (!status_ok) ==> r.message@ == "Failed to connect"@,
{
    if !status_ok {
        HealthCheck { healthy: false, message: String::from_str("Failed to connect") }
    } else if body.len() > 0 && (body[0] == 91u8 || body[0] == 123u8) {
        HealthCheck { healthy: true, message: String::from_str("Server is healthy") }
    } else {
        HealthCheck {
            healthy: false,
            message: String::from_str("Server returned HTML instead of JSON"),
        }
    }
}

/// The report a status query gives for a registered tenant, given the
/// outcome of the liveness probe against its advertised port.
pub fn runtime_status_report(m: &RuntimeManager, workbook_id: &str, probe_ok: bool) -> (r:
    DevServerStatus)
    ensures
        r.workbook_id@ == workbook_id@,
        match first_where(m.model(), entry_by_id(workbook_id@)) {
            Some(i) => {
                &&& r.running == probe_ok
                &&& r.runtime_port == m.model()[i].runtime_port
                &&& probe_ok ==> r.message@ == "Runtime is running"@
                &&& !probe_ok ==> r.message@ == "Runtime is starting..."@
            },
            None => {
                &&& r.running == false
                &&& r.runtime_port == 0
                &&& r.message@ == "Runtime is not running"@
            },
        },
{
    match m.get(workbook_id) {
        Some(info) => DevServerStatus {
            running: probe_ok,
            workbook_id: String::from_str(workbook_id),
            directory: String::new(),
            runtime_port: info.runtime_port,
            message: if probe_ok {
                String::from_str("Runtime is running")
            } else {
                String::from_str("Runtime is starting...")
            },
        },
        None => DevServerStatus {
            running: false,
            workbook_id: String::from_str(workbook_id),
            directory: String::new(),
            runtime_port: 0,
            message: String::from_str("Runtime is not running"),
        },
    }
}

/// What the event handler asks the caller to announce.
#[derive(Debug)]
pub enum JobAction {
    Started(String),
    Completed(String),
    Failed(String),
}

/// Mathematical image of a [`JobAction`].
pub ghost enum ActionModel {
    Started(Seq<char>),
    Completed(Seq<char>),
    Failed(Seq<char>),
}

impl JobAction {
    pub open spec fn model(&self) -> ActionModel {
        match self {
            JobAction::Started(id) => ActionModel::Started(id@),
            JobAction::Completed(id) => ActionModel::Completed(id@),
            JobAction::Failed(id) => ActionModel::Failed(id@),
        }
    }
}

/// Image of an optional action.
pub open spec fn action_model(r: Option<JobAction>) -> Option<ActionModel> {
    match r {
        Some(a) => Some(a.model()),
        None => None,
    }
}

/// Which worker entry's job counter moves, and which way.
pub ghost enum BumpModel {
    NoBump,
    Up(Seq<char>),
    Down(Seq<char>),
}

/// Everything one session-status event does: the job records afterwards,
/// the action to announce, and the counter move on the owning entry.
pub ghost struct EventEffect {
    pub jobs: Seq<JobModel>,
    pub action: Option<ActionModel>,
    pub bump: BumpModel,
}

/// The workbook a fresh job is charged to: the active workbook, or the
/// empty name when none is active.
pub open spec fn or_empty(o: Option<Seq<char>>) -> Seq<char> {
    match o {
        Some(s) => s,
        None => ""@,
    }
}

/// The description every event-created job carries.
pub open spec fn job_description() -> Seq<char> {
    "AI processing..."@
}

/// The characters of the active workbook parameter.
pub open spec fn active_chars(o: Option<&String>) -> Option<Seq<char>> {
    match o {
        Some(s) => Some(s@),
        None => None,
    }
}

/// What one classified status string for `session` does.  A running
/// status registers a job only when none is active for the session; a
/// terminal status moves the session's first job to the terminal state
/// and, when that job was running, lowers the owning entry's counter.
pub open spec fn apply_status_spec(
    jobs: Seq<JobModel>,
    active: Option<Seq<char>>,
    session: Seq<char>,
    status: Seq<char>,
    now: u64,
) -> EventEffect {
    match classify_status_spec(status) {
        StatusClass::Running => {
            if has_active_for_session(jobs, session) {
                EventEffect { jobs, action: None, bump: BumpModel::NoBump }
            } else {
                let wb = or_empty(active);
                EventEffect {
                    jobs: register_spec(jobs, wb, session, job_description(), now),
                    action: Some(ActionModel::Started(job_id_chars(session, now))),
                    bump: BumpModel::Up(wb),
                }
            }
        },
        StatusClass::Completed => match first_where(jobs, by_session(session)) {
            None => EventEffect { jobs, action: None, bump: BumpModel::NoBump },
            Some(i) => EventEffect {
                jobs: update_status_spec(jobs, jobs[i].id, JobStatus::Completed, now),
                action: Some(ActionModel::Completed(jobs[i].id)),
                bump: if jobs[i].status == JobStatus::Running {
                    BumpModel::Down(jobs[i].workbook_id)
                } else {
                    BumpModel::NoBump
                },
            },
        },
        StatusClass::Failed => match first_where(jobs, by_session(session)) {
            None => EventEffect { jobs, action: None, bump: BumpModel::NoBump },
            Some(i) => EventEffect {
                jobs: update_status_spec(jobs, jobs[i].id, JobStatus::Failed, now),
                action: Some(ActionModel::Failed(jobs[i].id)),
                bump: if jobs[i].status == JobStatus::Running {
                    BumpModel::Down(jobs[i].workbook_id)
                } else {
                    BumpModel::NoBump
                },
            },
        },
        StatusClass::Other => EventEffect { jobs, action: None, bump: BumpModel::NoBump },
    }
}

/// What one feed event does: a status event applies its status, an
/// update event with a status is re-dispatched the same way, anything
/// else changes nothing.
pub open spec fn apply_event_spec(
    jobs: Seq<JobModel>,
    active: Option<Seq<char>>,
    ev: crate::events::EventModel,
    now: u64,
) -> EventEffect {
    match ev {
        crate::events::EventModel::SessionStatus { session_id, status } => apply_status_spec(
            jobs,
            active,
            session_id,
            status,
            now,
        ),
        crate::events::EventModel::SessionUpdated { session_id, status: Some(st) } => (
        apply_status_spec(jobs, active, session_id, st, now)),
        _ => EventEffect { jobs, action: None, bump: BumpModel::NoBump },
    }
}

/// The registry after the counter move an effect calls for.
pub open spec fn apply_bump(entries: Seq<EntryModel>, b: BumpModel) -> Seq<EntryModel> {
    match b {
        BumpModel::NoBump => entries,
        BumpModel::Up(wb) => incr_jobs_spec(entries, wb),
        BumpModel::Down(wb) => decr_jobs_spec(entries, wb),
    }
}

/// Applies one session status, observed at time `now`, to the job
/// registry and the owning entry's counter.
pub fn handle_session_status(
    jobs: &mut JobRegistry,
    runtimes: &mut RuntimeManager,
    active_workbook_id: Option<&String>,
    session_id: &str,
    status: &str,
    now: u64,
) -> (r: Option<JobAction>)
    requires
        old(jobs).wf(),
        old(runtimes).wf(),
    ensures
        final(jobs).wf(),
        final(runtimes).wf(),
        final(runtimes).pool() == old(runtimes).pool(),
        ({
            let eff = apply_status_spec(
                old(jobs).model(),
                active_chars(active_workbook_id),
                session_id@,
                status@,
                now,
            );
            &&& final(jobs).model() == eff.jobs
            &&& action_model(r) == eff.action
            &&& final(runtimes).model() == apply_bump(old(runtimes).model(), eff.bump)
        }),
{
    let cls = SessionEvent::classify_status(status);
    match cls {
        StatusClass::Running => {
            let has = match jobs.find_active_by_session(session_id) {
                Some(_) => true,
                None => false,
            };
            if has {
                None
            } else {
                let wb: &str = match active_workbook_id {
                    Some(s) => s.as_str(),
                    None => "",
                };
                let job_id = jobs.register_at(wb, session_id, "AI processing...", now);
                runtimes.increment_jobs_for(wb);
                Some(JobAction::Started(job_id))
            }
        },
        StatusClass::Completed => {
            let found: Option<(String, String, bool)> = match jobs.find_by_session(session_id) {
                Some(job) => Some(
                    (job.id.clone(), job.workbook_id.clone(), job.status == JobStatus::Running),
                ),
                None => None,
            };
            match found {
                None => None,
                Some((id, wb, was_running)) => {
                    jobs.update_status_at(id.as_str(), JobStatus::Completed, now);
                    if was_running {
                        runtimes.decrement_jobs_for(wb.as_str());
                    }
                    Some(JobAction::Completed(id))
                },
            }
        },
        StatusClass::Failed => {
            let found: Option<(String, String, bool)> = match jobs.find_by_session(session_id) {
                Some(job) => Some(
                    (job.id.clone(), job.workbook_id.clone(), job.status == JobStatus::Running),
                ),
                None => None,
            };
            match found {
                None => None,
                Some((id, wb, was_running)) => {
                    jobs.update_status_at(id.as_str(), JobStatus::Failed, now);
                    if was_running {
                        runtimes.decrement_jobs_for(wb.as_str());
                    }
                    Some(JobAction::Failed(id))
                },
            }
        },
        StatusClass::Other => None,
    }
}

/// Applies one feed event, observed at time `now`.
pub fn handle_session_event(
    jobs: &mut JobRegistry,
    runtimes: &mut RuntimeManager,
    active_workbook_id: Option<&String>,
    event: &SessionEvent,
    now: u64,
) -> (r: Option<JobAction>)
    requires
        old(jobs).wf(),
        old(runtimes).wf(),
    ensures
        final(jobs).wf(),
        final(runtimes).wf(),
        final(runtimes).pool() == old(runtimes).pool(),
        ({
            let eff = apply_event_spec(
                old(jobs).model(),
                active_chars(active_workbook_id),
                event.model(),
                now,
            );
            &&& final(jobs).model() == eff.jobs
            &&& action_model(r) == eff.action
            &&& final(runtimes).model() == apply_bump(old(runtimes).model(), eff.bump)
        }),
{
    match event {
        SessionEvent::SessionStatus { session_id, status } => handle_session_status(
            jobs,
            runtimes,
            active_workbook_id,
            session_id.as_str(),
            status.as_str(),
            now,
        ),
        SessionEvent::SessionUpdated { session_id, status: Some(st) } => handle_session_status(
            jobs,
            runtimes,
            active_workbook_id,
            session_id.as_str(),
            st.as_str(),
            now,
        ),
        _ => None,
    }
}

/// Each worker entry's counter equals the number of running jobs its
/// workbook owns.
pub open spec fn counts_consistent(jobs: Seq<JobModel>, entries: Seq<EntryModel>) -> bool {
    forall|i: int|
        0 <= i < entries.len() ==> (#[trigger] entries[i]).active_jobs == count_where(
            jobs,
            active_by_workbook(entries[i].workbook_id),
        )
}

/// No session has two running jobs at once.
pub open spec fn one_active_per_session(jobs: Seq<JobModel>) -> bool {
    forall|a: int, b: int|
        0 <= a < b < jobs.len() && (#[trigger] jobs[a]).status == JobStatus::Running && (
        #[trigger] jobs[b]).status == JobStatus::Running ==> jobs[a].session_id
            != jobs[b].session_id
}

/// One session-status event keeps the worker entries' job counters in
/// step with the job records, as long as the registration is fresh (no
/// stored job already carries the identifier it would get).
pub proof fn lemma_counts_stay_consistent(
    jobs: Seq<JobModel>,
    entries: Seq<EntryModel>,
    active: Option<Seq<char>>,
    session: Seq<char>,
    status: Seq<char>,
    now: u64,
)
    requires
        counts_consistent(jobs, entries),
        forall|a: int, b: int|
            0 <= a < b < entries.len() ==> entries[a].workbook_id != entries[b].workbook_id,
        forall|a: int, b: int| 0 <= a < b < jobs.len() ==> jobs[a].id != jobs[b].id,
        jobs.len() < u64::MAX,
        first_where(jobs, by_id(job_id_chars(session, now))) is None,
    ensures
        ({
            let eff = apply_status_spec(jobs, active, session, status, now);
            counts_consistent(eff.jobs, apply_bump(entries, eff.bump))
        }),
{
    let eff = apply_status_spec(jobs, active, session, status, now);
    let entries2 = apply_bump(entries, eff.bump);
    match classify_status_spec(status) {
        StatusClass::Running => {
            if !has_active_for_session(jobs, session) {
                let wb = or_empty(active);
                let j = new_job_model(wb, session, job_description(), now);
                assert(eff.jobs == jobs.push(j));
                lemma_first_where(entries, entry_by_id(wb));
                assert forall|i: int| 0 <= i < entries2.len() implies (
                #[trigger] entries2[i]).active_jobs == count_where(
                    eff.jobs,
                    active_by_workbook(entries2[i].workbook_id),
                ) by {
                    let w = entries2[i].workbook_id;
                    lemma_count_where_push(jobs, active_by_workbook(w), j);
                    lemma_count_where_bounds(jobs, active_by_workbook(w));
                    match first_where(entries, entry_by_id(wb)) {
                        Some(k) => {
                            if i == k {
                                assert(w == wb);
                            } else {
                                assert(entries2[i] == entries[i]);
                                assert(entries[i].workbook_id != wb);
                            }
                        },
                        None => {
                            assert(entries2 == entries);
                            assert(entries[i].workbook_id != wb);
                        },
                    }
                }
            }
        },
        StatusClass::Completed | StatusClass::Failed => {
            lemma_first_where(jobs, by_session(session));
            match first_where(jobs, by_session(session)) {
                Some(fi) => {
                    let w = jobs[fi].workbook_id;
                    assert forall|x: int| 0 <= x < fi implies !by_id(jobs[fi].id)(jobs[x]) by {
                        assert(jobs[x].id != jobs[fi].id);
                    }
                    lemma_first_where_at(jobs, by_id(jobs[fi].id), fi);
                    match first_where(jobs, by_id(jobs[fi].id)) {
                        Some(ui) => {
                            assert(ui == fi);
                            let updated = eff.jobs[ui];
                            assert(eff.jobs == jobs.update(ui, updated));
                            assert(updated == JobModel {
                                status: if classify_status_spec(status) is Completed {
                                    JobStatus::Completed
                                } else {
                                    JobStatus::Failed
                                },
                                updated_at: now,
                                ..jobs[ui]
                            });
                            let was_running = jobs[fi].status == JobStatus::Running;
                            lemma_first_where(entries, entry_by_id(w));
                            assert forall|i: int| 0 <= i < entries2.len() implies (
                            #[trigger] entries2[i]).active_jobs == count_where(
                                eff.jobs,
                                active_by_workbook(entries2[i].workbook_id),
                            ) by {
                                let wi = entries2[i].workbook_id;
                                lemma_count_where_update(jobs, active_by_workbook(wi), ui,
                                    updated);
                                if was_running && jobs[ui].workbook_id == wi {
                                    lemma_count_where_pos(jobs, active_by_workbook(wi));
                                    assert(active_by_workbook(wi)(jobs[ui]));
                                }
                                match first_where(entries, entry_by_id(w)) {
                                    Some(k) => {
                                        if i != k {
                                            assert(entries2[i] == entries[i]);
                                            assert(entries[i].workbook_id != w);
                                        }
                                    },
                                    None => {
                                        assert(entries2 == entries);
                                        if eff.bump is Down {
                                            assert(entries[i].workbook_id != w);
                                        }
                                    },
                                }
                            }
                        },
                        None => {},
                    }
                },
                None => {},
            }
        },
        StatusClass::Other => {},
    }
}

/// One session-status event never gives a session a second running job:
/// a running status creates a job only when the session has none, and a
/// terminal status only settles one.
pub proof fn lemma_one_active_per_session_preserved(
    jobs: Seq<JobModel>,
    active: Option<Seq<char>>,
    session: Seq<char>,
    status: Seq<char>,
    now: u64,
)
    requires
        one_active_per_session(jobs),
    ensures
        one_active_per_session(apply_status_spec(jobs, active, session, status, now).jobs),
{
    let eff = apply_status_spec(jobs, active, session, status, now);
    match classify_status_spec(status) {
        StatusClass::Running => {
            if !has_active_for_session(jobs, session) {
                let wb = or_empty(active);
                let j = new_job_model(wb, session, job_description(), now);
                lemma_first_where(jobs, by_id(j.id));
                match first_where(jobs, by_id(j.id)) {
                    Some(i) => {
                        assert(eff.jobs == jobs.update(i, j));
                        assert forall|a: int, b: int|
                            0 <= a < b < eff.jobs.len() && (#[trigger] eff.jobs[a]).status
                                == JobStatus::Running && (#[trigger] eff.jobs[b]).status
                                == JobStatus::Running implies eff.jobs[a].session_id
                            != eff.jobs[b].session_id by {
                            if a == i || b == i {
                                let other = if a == i { b } else { a };
                                assert(eff.jobs[other] == jobs[other]);
                                assert(jobs[other].session_id != session);
                            }
                        }
                    },
                    None => {
                        assert(eff.jobs == jobs.push(j));
                        assert forall|a: int, b: int|
                            0 <= a < b < eff.jobs.len() && (#[trigger] eff.jobs[a]).status
                                == JobStatus::Running && (#[trigger] eff.jobs[b]).status
                                == JobStatus::Running implies eff.jobs[a].session_id
                            != eff.jobs[b].session_id by {
                            if b == jobs.len() as int {
                                assert(eff.jobs[a] == jobs[a]);
                                assert(jobs[a].session_id != session);
                            }
                        }
                    },
                }
            }
        },
        StatusClass::Completed | StatusClass::Failed => {
            lemma_first_where(jobs, by_session(session));
            match first_where(jobs, by_session(session)) {
                Some(fi) => {
                    lemma_first_where(jobs, by_id(jobs[fi].id));
                },
                None => {},
            }
        },
        StatusClass::Other => {},
    }
}

/// A crashed worker below the restart bound comes back in the monitor's
/// plans for the same tenant and directory, with the attempt count one
/// higher; the caller executes the plan after the backoff delay.
pub proof fn lemma_monitor_replans_crashed(
    entries: Seq<EntryModel>,
    exited: Seq<String>,
    i: int,
)
    requires
        0 <= i < entries.len(),
        contains_str(exited, entries[i].workbook_id),
        entries[i].restart_count < crate::MAX_RESTARTS,
    ensures
        exists|k: int|
            0 <= k < monitor_plans_spec(entries, exited).len() && monitor_plans_spec(
                entries,
                exited,
            )[k] == plan_of_entry(entries[i]),
{
    let f1 = entries.filter(exited_entry(exited));
    entries.lemma_filter_contains(exited_entry(exited), i);
    let a = choose|a: int| 0 <= a < f1.len() && f1[a] == entries[i];
    f1.lemma_filter_contains(retryable_entry(), a);
    let f2 = f1.filter(retryable_entry());
    let b = choose|b: int| 0 <= b < f2.len() && f2[b] == entries[i];
    assert(monitor_plans_spec(entries, exited)[b] == plan_of_entry(entries[i]));
}

/// Beyond the restart bound a tenant is abandoned: after the monitor
/// pass it has no registry entry and no restart plan names it; and a
/// tenant without an entry is never planned at all, so no further spawn
/// attempt occurs until a fresh manual start.
pub proof fn lemma_monitor_abandons_at_bound(
    entries: Seq<EntryModel>,
    exited: Seq<String>,
    workbook_id: Seq<char>,
)
    requires
        forall|i: int|
            0 <= i < entries.len() && entries[i].workbook_id == workbook_id ==> (contains_str(
                exited,
                (#[trigger] entries[i]).workbook_id,
            ) && entries[i].restart_count >= crate::MAX_RESTARTS),
    ensures
        !has_entry(entries.filter(surviving_entry(exited)), workbook_id),
        forall|k: int|
            0 <= k < monitor_plans_spec(entries, exited).len()
                ==> (#[trigger] monitor_plans_spec(entries, exited)[k]).workbook_id
                != workbook_id,
{
    let survivors = entries.filter(surviving_entry(exited));
    assert forall|i: int| 0 <= i < survivors.len() implies (#[trigger] survivors[i]).workbook_id
        != workbook_id by {
        lemma_filter_elem_in(entries, surviving_entry(exited), i);
        let j = choose|j: int| 0 <= j < entries.len() && entries[j] == survivors[i];
        entries.lemma_filter_pred(surviving_entry(exited), i);
        if entries[j].workbook_id == workbook_id {
            assert(contains_str(exited, entries[j].workbook_id));
        }
    }
    let f1 = entries.filter(exited_entry(exited));
    let f2 = f1.filter(retryable_entry());
    assert forall|k: int|
        0 <= k < monitor_plans_spec(entries, exited).len() implies (
    #[trigger] monitor_plans_spec(entries, exited)[k]).workbook_id != workbook_id by {
        assert(monitor_plans_spec(entries, exited)[k] == plan_of_entry(f2[k]));
        lemma_filter_elem_in(f1, retryable_entry(), k);
        let a = choose|a: int| 0 <= a < f1.len() && f1[a] == f2[k];
        f1.lemma_filter_pred(retryable_entry(), k);
        lemma_filter_elem_in(entries, exited_entry(exited), a);
        let j = choose|j: int| 0 <= j < entries.len() && entries[j] == f1[a];
        if entries[j].workbook_id == workbook_id {
            assert(entries[j].restart_count >= crate::MAX_RESTARTS);
        }
    }
}

/// A running status for a session whose jobs are all settled creates
/// exactly one active job; the same status arriving again for the same
/// session changes nothing.
pub proof fn lemma_running_event_idempotent(
    jobs: Seq<JobModel>,
    active: Option<Seq<char>>,
    session: Seq<char>,
    status: Seq<char>,
    n1: u64,
    n2: u64,
)
    requires
        classify_status_spec(status) == StatusClass::Running,
        !has_active_for_session(jobs, session),
    ensures
        ({
            let eff1 = apply_status_spec(jobs, active, session, status, n1);
            let eff2 = apply_status_spec(eff1.jobs, active, session, status, n2);
            &&& crate::strutil::count_where(
                eff1.jobs,
                crate::jobs::active_by_session(session),
            ) == 1
            &&& eff2.jobs == eff1.jobs
            &&& eff2.action is None
            &&& eff2.bump is NoBump
        }),
{
    let wb = or_empty(active);
    let j = crate::jobs::new_job_model(wb, session, job_description(), n1);
    let eff1 = apply_status_spec(jobs, active, session, status, n1);
    let asess = crate::jobs::active_by_session(session);
    crate::strutil::lemma_count_where_pos(jobs, asess);
    crate::strutil::lemma_count_where_bounds(jobs, asess);
    assert(!(exists|i: int| 0 <= i < jobs.len() && asess(jobs[i]))) by {
        if exists|i: int| 0 <= i < jobs.len() && asess(jobs[i]) {
            let i = choose|i: int| 0 <= i < jobs.len() && asess(jobs[i]);
            assert(jobs[i].session_id == session && jobs[i].status == JobStatus::Running);
        }
    }
    assert(crate::strutil::count_where(jobs, asess) == 0);
    lemma_first_where(jobs, crate::jobs::by_id(j.id));
    match first_where(jobs, crate::jobs::by_id(j.id)) {
        Some(i) => {
            assert(eff1.jobs == jobs.update(i, j));
            crate::strutil::lemma_count_where_update(jobs, asess, i, j);
            assert(asess(j));
            if asess(jobs[i]) {
                crate::strutil::lemma_count_where_pos(jobs, asess);
            }
            assert(eff1.jobs[i] == j);
        },
        None => {
            assert(eff1.jobs == jobs.push(j));
            crate::strutil::lemma_count_where_push(jobs, asess, j);
            assert(eff1.jobs[jobs.len() as int] == j);
        },
    }
    crate::strutil::lemma_count_where_pos(eff1.jobs, asess);
    assert(has_active_for_session(eff1.jobs, session));
}

/// A terminal status for a session moves the session's first job to the
/// matching terminal state, and when that job was running the count of
/// running jobs goes down by exactly one and the owning workbook's
/// counter is asked down with it.
pub proof fn lemma_terminal_event_settles_job(
    jobs: Seq<JobModel>,
    active: Option<Seq<char>>,
    session: Seq<char>,
    status: Seq<char>,
    now: u64,
)
    requires
        classify_status_spec(status) == StatusClass::Completed || classify_status_spec(status)
            == StatusClass::Failed,
        forall|a: int, b: int| 0 <= a < b < jobs.len() ==> jobs[a].id != jobs[b].id,
    ensures
        ({
            let eff = apply_status_spec(jobs, active, session, status, now);
            let settled = if classify_status_spec(status) == StatusClass::Completed {
                JobStatus::Completed
            } else {
                JobStatus::Failed
            };
            match first_where(jobs, by_session(session)) {
                Some(i) => {
                    &&& eff.jobs == jobs.update(
                        i,
                        (JobModel { status: settled, updated_at: now, ..jobs[i] }),
                    )
                    &&& crate::jobs::count_running(eff.jobs) == crate::jobs::count_running(jobs)
                        - (if jobs[i].status == JobStatus::Running {
                        1int
                    } else {
                        0int
                    })
                    &&& eff.bump == (if jobs[i].status == JobStatus::Running {
                        BumpModel::Down(jobs[i].workbook_id)
                    } else {
                        BumpModel::NoBump
                    })
                },
                None => eff.jobs == jobs && eff.bump is NoBump,
            }
        }),
{
    lemma_first_where(jobs, by_session(session));
    match first_where(jobs, by_session(session)) {
        Some(i) => {
            assert forall|x: int| 0 <= x < i implies !crate::jobs::by_id(jobs[i].id)(
                jobs[x],
            ) by {
                assert(jobs[x].id != jobs[i].id);
            }
            lemma_first_where_at(jobs, crate::jobs::by_id(jobs[i].id), i);
            let settled = if classify_status_spec(status) == StatusClass::Completed {
                JobStatus::Completed
            } else {
                JobStatus::Failed
            };
            let updated = JobModel { status: settled, updated_at: now, ..jobs[i] };
            crate::strutil::lemma_count_where_update(jobs, crate::jobs::running_job(), i,
                updated);
        },
        None => {},
    }
}

} // verus!
