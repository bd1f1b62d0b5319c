use workbook_supervisor::ports::PortPool;
use workbook_supervisor::registry::{RuntimeInfo, RuntimeManager};
use workbook_supervisor::supervisor::{
    classify_health_response, close_workbook_window, commit_started, monitor_step, plan_start,
    runtime_status_report, stop_all_runtimes, stop_runtime, window_label, CloseOutcome, Sidecar,
    StartDecision, SupervisorError,
};
use workbook_supervisor::{MAX_RESTARTS, RUNTIME_PORT_END, RUNTIME_PORT_START};

fn demo_info(workbook_id: &str, port: u16) -> RuntimeInfo {
    RuntimeInfo {
        workbook_id: workbook_id.to_string(),
        runtime_port: port,
        postgres_port: 55101,
        worker_port: 55201,
        process_key: 7,
        directory: "/tmp/demo".to_string(),
        restart_count: 0,
        active_jobs: 0,
        windows: Vec::new(),
    }
}

#[test]
fn allocate_hands_out_distinct_ports() {
    let mut pool = PortPool::new(55001, 55005);
    let mut seen = Vec::new();
    for _ in 0..5 {
        let p = pool.allocate().expect("range not yet exhausted");
        assert!(!seen.contains(&p));
        seen.push(p);
    }
    assert_eq!(pool.allocate(), None);
}

#[test]
fn allocate_after_exhaustion_fails_until_release() {
    let mut pool = PortPool::new(55001, 55002);
    assert_eq!(pool.allocate(), Some(55001));
    assert_eq!(pool.allocate(), Some(55002));
    assert_eq!(pool.allocate(), None);
    pool.release(55001);
    assert_eq!(pool.allocate(), Some(55001));
    assert_eq!(pool.allocate(), None);
}

#[test]
fn round_robin_covers_whole_range_before_repeating() {
    let n = (RUNTIME_PORT_END - RUNTIME_PORT_START + 1) as usize;
    let mut pool = PortPool::new(RUNTIME_PORT_START, RUNTIME_PORT_END);
    let mut first_round = Vec::new();
    for _ in 0..n {
        first_round.push(pool.allocate().unwrap());
    }
    for p in &first_round {
        pool.release(*p);
    }
    let mut second_round = Vec::new();
    for _ in 0..n {
        second_round.push(pool.allocate().unwrap());
    }
    let mut sorted = second_round.clone();
    sorted.sort();
    sorted.dedup();
    assert_eq!(sorted.len(), n, "second round repeated a port early");
    assert_eq!(sorted.first(), Some(&RUNTIME_PORT_START));
    assert_eq!(sorted.last(), Some(&RUNTIME_PORT_END));
}

#[test]
fn released_port_is_not_reused_immediately() {
    let mut pool = PortPool::new(55001, 55004);
    let a = pool.allocate().unwrap();
    assert_eq!(a, 55001);
    pool.release(a);
    // Round robin: the cursor moved past 55001, so the next allocation
    // picks the next port rather than the just-released one.
    assert_eq!(pool.allocate(), Some(55002));
}

#[test]
fn registry_insert_get_remove() {
    let mut m = RuntimeManager::new();
    assert!(!m.has_runtime("wb-1"));
    let port = m.allocate_port().unwrap();
    m.insert("wb-1".to_string(), demo_info("wb-1", port));
    assert!(m.has_runtime("wb-1"));
    assert_eq!(m.count(), 1);
    assert_eq!(m.get("wb-1").unwrap().runtime_port, port);
    assert_eq!(m.workbook_ids(), vec!["wb-1".to_string()]);
    let removed = m.remove("wb-1").unwrap();
    assert_eq!(removed.runtime_port, port);
    assert!(!m.has_runtime("wb-1"));
    assert!(m.remove("wb-1").is_none());
}

#[test]
fn insert_marks_the_advertised_port_allocated() {
    let mut m = RuntimeManager::new();
    // The worker advertised 55003; later allocations must skip it.
    m.insert("wb-1".to_string(), demo_info("wb-1", 55003));
    assert_eq!(m.allocate_port(), Some(55001));
    assert_eq!(m.allocate_port(), Some(55002));
    assert_eq!(m.allocate_port(), Some(55004));
}

#[test]
fn registry_counts_busy_workbooks() {
    let mut m = RuntimeManager::new();
    m.insert("wb-1".to_string(), demo_info("wb-1", 55001));
    m.insert("wb-2".to_string(), demo_info("wb-2", 55002));
    assert!(!m.any_active_jobs());
    m.increment_jobs_for("wb-2");
    assert!(m.any_active_jobs());
    assert_eq!(m.workbooks_with_active_jobs(), vec!["wb-2".to_string()]);
    assert!(m.get("wb-2").unwrap().has_active_jobs());
    m.decrement_jobs_for("wb-2");
    assert!(!m.any_active_jobs());
    // A counter at zero stays at zero.
    m.decrement_jobs_for("wb-2");
    assert_eq!(m.get("wb-2").unwrap().active_jobs, 0);
}

#[test]
fn teardown_gate_needs_no_windows_and_no_jobs() {
    let mut m = RuntimeManager::new();
    m.insert("t".to_string(), demo_info("t", 55001));
    m.register_window("t", "workbook_t_w1".to_string());
    m.register_window("t", "workbook_t_w2".to_string());
    // Registering the same window twice keeps one entry.
    m.register_window("t", "workbook_t_w1".to_string());
    assert_eq!(m.get("t").unwrap().windows.len(), 2);

    let empty_after_w1 = m.unregister_window("t", "workbook_t_w1");
    assert!(!empty_after_w1);
    assert!(!m.get("t").unwrap().teardown_eligible());

    let empty_after_w2 = m.unregister_window("t", "workbook_t_w2");
    assert!(empty_after_w2);
    assert!(m.get("t").unwrap().teardown_eligible());
}

#[test]
fn close_window_blocked_by_active_jobs_unless_forced() {
    let mut m = RuntimeManager::new();
    m.insert("t".to_string(), demo_info("t", 55001));
    m.register_window("t", "workbook_t".to_string());
    m.increment_jobs_for("t");
    let r = close_workbook_window(&mut m, "t", "workbook_t", false);
    assert!(matches!(r, CloseOutcome::Blocked));
    assert!(m.has_runtime("t"));
    // Forcing unregisters the window but keeps the busy worker running.
    let r = close_workbook_window(&mut m, "t", "workbook_t", true);
    assert!(matches!(r, CloseOutcome::Closed));
    assert!(m.has_runtime("t"));
}

#[test]
fn closing_last_window_of_idle_worker_stops_it() {
    let mut m = RuntimeManager::new();
    m.insert("t".to_string(), demo_info("t", 55001));
    m.register_window("t", "workbook_t".to_string());
    let r = close_workbook_window(&mut m, "t", "workbook_t", false);
    match r {
        CloseOutcome::ClosedAndStopped(info) => {
            assert_eq!(info.workbook_id, "t");
            assert_eq!(info.runtime_port, 55001);
        }
        _ => panic!("expected the worker to be handed back for stopping"),
    }
    assert!(!m.has_runtime("t"));
}

#[test]
fn start_is_idempotent_for_registered_tenant() {
    let mut m = RuntimeManager::new();
    assert_eq!(plan_start(&m, "wb-1"), StartDecision::NeedSpawn);
    commit_started(
        &mut m,
        "wb-1".to_string(),
        "/tmp/wb1".to_string(),
        55001,
        55101,
        55201,
        1,
        0,
    );
    assert_eq!(plan_start(&m, "wb-1"), StartDecision::AlreadyRunning(55001));
}

#[test]
fn commit_started_reports_port_in_message() {
    let mut m = RuntimeManager::new();
    let status = commit_started(
        &mut m,
        "wb-1".to_string(),
        "/tmp/wb1".to_string(),
        55001,
        55101,
        55201,
        1,
        0,
    );
    assert!(status.running);
    assert_eq!(status.workbook_id, "wb-1");
    assert_eq!(status.runtime_port, 55001);
    assert_eq!(status.message, "Workbook server started on port 55001");
}

#[test]
fn stop_runtime_removes_entry_and_reports() {
    let mut m = RuntimeManager::new();
    commit_started(
        &mut m,
        "wb-1".to_string(),
        "/tmp/wb1".to_string(),
        55001,
        55101,
        55201,
        1,
        0,
    );
    let (status, removed) = stop_runtime(&mut m, "wb-1");
    assert!(!status.running);
    assert_eq!(status.message, "Runtime stopped");
    assert_eq!(removed.unwrap().runtime_port, 55001);
    let (status, removed) = stop_runtime(&mut m, "wb-1");
    assert_eq!(status.message, "Runtime was not running");
    assert!(removed.is_none());
}

#[test]
fn crashed_worker_below_bound_is_replanned_with_count_up_one() {
    let mut m = RuntimeManager::new();
    commit_started(
        &mut m,
        "wb-1".to_string(),
        "/tmp/wb1".to_string(),
        55001,
        55101,
        55201,
        1,
        0,
    );
    let plans = monitor_step(&mut m, &vec!["wb-1".to_string()]);
    assert_eq!(plans.len(), 1);
    assert_eq!(plans[0].workbook_id, "wb-1");
    assert_eq!(plans[0].directory, "/tmp/wb1");
    assert_eq!(plans[0].restart_count, 1);
    assert!(!m.has_runtime("wb-1"));
}

#[test]
fn monitor_leaves_live_workers_alone() {
    let mut m = RuntimeManager::new();
    commit_started(
        &mut m,
        "wb-1".to_string(),
        "/tmp/wb1".to_string(),
        55001,
        55101,
        55201,
        1,
        0,
    );
    commit_started(
        &mut m,
        "wb-2".to_string(),
        "/tmp/wb2".to_string(),
        55002,
        55102,
        55202,
        2,
        0,
    );
    let plans = monitor_step(&mut m, &vec!["wb-2".to_string()]);
    assert_eq!(plans.len(), 1);
    assert!(m.has_runtime("wb-1"));
    assert!(!m.has_runtime("wb-2"));
}

#[test]
fn tenant_is_abandoned_after_max_restarts() {
    let mut m = RuntimeManager::new();
    commit_started(
        &mut m,
        "wb-1".to_string(),
        "/tmp/wb1".to_string(),
        55001,
        55101,
        55201,
        1,
        0,
    );
    let exited = vec!["wb-1".to_string()];
    for attempt in 1..=MAX_RESTARTS {
        let plans = monitor_step(&mut m, &exited);
        assert_eq!(plans.len(), 1, "attempt {attempt} should be planned");
        assert_eq!(plans[0].restart_count, attempt);
        // The caller re-spawns and commits with the planned count.
        commit_started(
            &mut m,
            plans[0].workbook_id.clone(),
            plans[0].directory.clone(),
            55001,
            55101,
            55201,
            1,
            plans[0].restart_count,
        );
    }
    // The worker now carries restart_count == MAX_RESTARTS; one more
    // crash abandons the tenant: no entry, no plan.
    let plans = monitor_step(&mut m, &exited);
    assert!(plans.is_empty());
    assert!(!m.has_runtime("wb-1"));
    // And an absent tenant is never planned again.
    let plans = monitor_step(&mut m, &exited);
    assert!(plans.is_empty());
    assert!(!m.has_runtime("wb-1"));
}

#[test]
fn spawn_handshake_restart_scenario() {
    // A tenant starts at its directory, the worker advertises its port,
    // and after an external kill a fresh registration carries
    // restart_count == 1 (the backoff and handshake timing lie with the
    // caller).
    let line = br#"{"type":"ready","runtimePort":55001}"#;
    let port = workbook_supervisor::events::parse_ready_port(line).expect("ready line");
    assert_eq!(port, 55001);

    let mut m = RuntimeManager::new();
    let status = commit_started(
        &mut m,
        "wb-1".to_string(),
        "/tmp/wb1".to_string(),
        port,
        55101,
        55201,
        1,
        0,
    );
    assert!(status.running);
    assert_eq!(status.runtime_port, 55001);

    let plans = monitor_step(&mut m, &vec!["wb-1".to_string()]);
    assert_eq!(plans.len(), 1);
    let port2 = workbook_supervisor::events::parse_ready_port(line).unwrap();
    commit_started(
        &mut m,
        plans[0].workbook_id.clone(),
        plans[0].directory.clone(),
        port2,
        55101,
        55201,
        2,
        plans[0].restart_count,
    );
    assert_eq!(m.get("wb-1").unwrap().restart_count, 1);
}

#[test]
fn stop_all_runtimes_empties_the_registry() {
    let mut m = RuntimeManager::new();
    commit_started(&mut m, "a".to_string(), "/tmp/a".to_string(), 55001, 0, 0, 1, 0);
    commit_started(&mut m, "b".to_string(), "/tmp/b".to_string(), 55002, 0, 0, 2, 0);
    let removed = stop_all_runtimes(&mut m);
    assert_eq!(removed.len(), 2);
    assert_eq!(m.count(), 0);
    // Their ports are free again.
    m.insert("c".to_string(), demo_info("c", 55001));
    assert!(m.has_runtime("c"));
}

#[test]
fn health_classification_wants_json() {
    let ok = classify_health_response(true, &b"[]".to_vec());
    assert!(ok.healthy);
    assert_eq!(ok.message, "Server is healthy");
    let ok = classify_health_response(true, &b"{}".to_vec());
    assert!(ok.healthy);
    let html = classify_health_response(true, &b"<html>".to_vec());
    assert!(!html.healthy);
    assert_eq!(html.message, "Server returned HTML instead of JSON");
    let down = classify_health_response(false, &b"[]".to_vec());
    assert!(!down.healthy);
    assert_eq!(down.message, "Failed to connect");
}

#[test]
fn status_report_follows_registry_and_probe() {
    let mut m = RuntimeManager::new();
    let r = runtime_status_report(&m, "wb-1", true);
    assert!(!r.running);
    assert_eq!(r.message, "Runtime is not running");
    commit_started(&mut m, "wb-1".to_string(), "/tmp/wb1".to_string(), 55001, 0, 0, 1, 0);
    let r = runtime_status_report(&m, "wb-1", true);
    assert!(r.running);
    assert_eq!(r.runtime_port, 55001);
    assert_eq!(r.message, "Runtime is running");
    let r = runtime_status_report(&m, "wb-1", false);
    assert!(!r.running);
    assert_eq!(r.message, "Runtime is starting...");
}

#[test]
fn window_label_prefixes_workbook_id() {
    assert_eq!(window_label("wb-1"), "workbook_wb-1");
    assert_eq!(window_label(""), "workbook_");
}

#[test]
fn supervisor_error_messages() {
    let e = SupervisorError::SpawnFailure("no such file".to_string());
    assert_eq!(e.message(), "Failed to start runtime: no such file");
    assert_eq!(SupervisorError::HandshakeTimeout.message(), "Timeout waiting for runtime to start");
    assert_eq!(SupervisorError::PortExhaustion.message(), "No free runtime port");
}

#[test]
fn sidecar_names() {
    assert_eq!(Sidecar::Cli.name(), "hands-cli");
    assert_eq!(Sidecar::WorkbookServer.name(), "hands-workbook-server");
    assert_eq!(Sidecar::Agent.name(), "hands-agent");
}
