use workbook_supervisor::events::{data_payload, drain_events, parse_ready_port,
    parse_session_event, split_record};
use workbook_supervisor::jobs::{JobInfo, JobRegistry, JobStatus, SessionEvent, StatusClass};
use workbook_supervisor::registry::RuntimeManager;
use workbook_supervisor::supervisor::{commit_started, handle_session_event,
    handle_session_status, JobAction};

#[test]
fn status_strings_fall_into_their_buckets() {
    for s in ["running", "pending", "streaming"] {
        assert!(SessionEvent::is_running_status(s));
        assert!(matches!(SessionEvent::classify_status(s), StatusClass::Running));
    }
    for s in ["completed", "idle", "done"] {
        assert!(SessionEvent::is_completed_status(s));
        assert!(matches!(SessionEvent::classify_status(s), StatusClass::Completed));
    }
    for s in ["failed", "error", "cancelled"] {
        assert!(SessionEvent::is_failed_status(s));
        assert!(matches!(SessionEvent::classify_status(s), StatusClass::Failed));
    }
    assert!(!SessionEvent::is_running_status("done"));
    assert!(!SessionEvent::is_completed_status("running"));
    assert!(!SessionEvent::is_failed_status("idle"));
    assert!(matches!(SessionEvent::classify_status("paused"), StatusClass::Other));
}

#[test]
fn job_id_carries_session_and_timestamp() {
    let job = JobInfo::new_at("wb-1".to_string(), "s1".to_string(), "work".to_string(), 1234);
    assert_eq!(job.id, "job_s1_1234");
    assert_eq!(job.started_at, 1234);
    assert_eq!(job.updated_at, 1234);
    assert!(job.is_active());
    assert_eq!(job.status, JobStatus::Running);
}

#[test]
fn job_id_decimal_rendering_edges() {
    let job = JobInfo::new_at("wb".to_string(), "s".to_string(), "d".to_string(), 0);
    assert_eq!(job.id, "job_s_0");
    let job = JobInfo::new_at("wb".to_string(), "s".to_string(), "d".to_string(), u64::MAX);
    assert_eq!(job.id, "job_s_18446744073709551615");
}

#[test]
fn register_and_update_status_drive_the_counter() {
    let mut reg = JobRegistry::new();
    assert_eq!(reg.active_count(), 0);
    let id = reg.register_at("wb-1", "s1", "work", 10);
    assert_eq!(id, "job_s1_10");
    assert_eq!(reg.active_count(), 1);
    assert!(reg.has_active_jobs("wb-1"));
    assert!(!reg.has_active_jobs("wb-2"));

    reg.update_status_at(&id, JobStatus::Completed, 20);
    assert_eq!(reg.active_count(), 0);
    assert!(!reg.has_active_jobs("wb-1"));
    let job = reg.get(&id).unwrap();
    assert_eq!(job.status, JobStatus::Completed);
    assert_eq!(job.updated_at, 20);
    // Updating an unknown id changes nothing.
    reg.update_status_at("job_zz_1", JobStatus::Failed, 30);
    assert_eq!(reg.active_count(), 0);
}

#[test]
fn complete_fail_cancel_settle_a_job() {
    let mut reg = JobRegistry::new();
    let a = reg.register_at("wb", "sa", "w", 1);
    let b = reg.register_at("wb", "sb", "w", 2);
    let c = reg.register_at("wb", "sc", "w", 3);
    assert_eq!(reg.active_count(), 3);
    reg.complete(&a);
    reg.fail(&b);
    reg.cancel(&c);
    assert_eq!(reg.active_count(), 0);
    assert_eq!(reg.get(&a).unwrap().status, JobStatus::Completed);
    assert_eq!(reg.get(&b).unwrap().status, JobStatus::Failed);
    assert_eq!(reg.get(&c).unwrap().status, JobStatus::Cancelled);
}

#[test]
fn find_by_session_sees_any_status_find_active_only_running() {
    let mut reg = JobRegistry::new();
    let id = reg.register_at("wb", "s1", "w", 5);
    assert!(reg.find_by_session("s1").is_some());
    assert!(reg.find_active_by_session("s1").is_some());
    reg.update_status_at(&id, JobStatus::Completed, 6);
    assert!(reg.find_by_session("s1").is_some());
    assert!(reg.find_active_by_session("s1").is_none());
    assert!(reg.find_by_session("nope").is_none());
}

#[test]
fn list_active_filters_and_orders() {
    let mut reg = JobRegistry::new();
    let a = reg.register_at("wb-1", "sa", "w", 1);
    let _b = reg.register_at("wb-2", "sb", "w", 2);
    let _c = reg.register_at("wb-1", "sc", "w", 3);
    reg.complete(&a);
    let active = reg.list_active();
    assert_eq!(active.len(), 2);
    assert_eq!(active[0].session_id, "sb");
    assert_eq!(active[1].session_id, "sc");
    let wb1 = reg.list_active_for_workbook("wb-1");
    assert_eq!(wb1.len(), 1);
    assert_eq!(wb1[0].session_id, "sc");
    let workbooks = reg.workbooks_with_active_jobs();
    assert_eq!(workbooks, vec!["wb-2".to_string(), "wb-1".to_string()]);
}

#[test]
fn cleanup_purges_only_stale_terminal_jobs() {
    let mut reg = JobRegistry::new();
    let old_done = reg.register_at("wb", "s1", "w", 100);
    let fresh_done = reg.register_at("wb", "s2", "w", 100);
    let _still_running = reg.register_at("wb", "s3", "w", 100);
    reg.update_status_at(&old_done, JobStatus::Completed, 1000);
    reg.update_status_at(&fresh_done, JobStatus::Completed, 5000);
    reg.cleanup_before(1000);
    assert!(reg.get(&old_done).is_none(), "terminal and at the cutoff: purged");
    assert!(reg.get(&fresh_done).is_some(), "terminal but recent: kept");
    assert!(reg.find_by_session("s3").is_some(), "running jobs are never purged");
    assert_eq!(reg.active_count(), 1);
}

#[test]
fn split_record_needs_a_blank_line() {
    let buffer = b"data: one\n\nrest".to_vec();
    let (rec, rest) = split_record(&buffer).unwrap();
    assert_eq!(rec, b"data: one".to_vec());
    assert_eq!(rest, b"rest".to_vec());
    assert!(split_record(&b"data: partial\n".to_vec()).is_none());
    assert!(split_record(&Vec::new()).is_none());
}

#[test]
fn data_payload_takes_first_data_line() {
    assert_eq!(data_payload(b"data: {\"a\":1}"), Some(b"{\"a\":1}".to_vec()));
    assert_eq!(data_payload(b"event: x\ndata: p\ndata: q"), Some(b"p".to_vec()));
    assert_eq!(data_payload(b"event: x\nid: 4"), None);
    assert_eq!(data_payload(b""), None);
}

#[test]
fn parse_session_event_reads_the_json_payload() {
    let ev = parse_session_event(br#"{"type":"session.status","sessionId":"s1","status":"running"}"#);
    match ev {
        SessionEvent::SessionStatus { session_id, status } => {
            assert_eq!(session_id, "s1");
            assert_eq!(status, "running");
        }
        _ => panic!("expected a session.status event"),
    }
    let ev = parse_session_event(br#"{"type":"session.updated","sessionId":"s2"}"#);
    assert!(matches!(ev, SessionEvent::SessionUpdated { status: None, .. }));
    let ev = parse_session_event(br#"{"type":"message.part.updated","sessionId":"s3"}"#);
    assert!(matches!(ev, SessionEvent::MessagePartUpdated { .. }));
    assert!(matches!(parse_session_event(br#"{"type":"other"}"#), SessionEvent::Unknown));
    assert!(matches!(parse_session_event(b"not json"), SessionEvent::Unknown));
    // A status event without its session id means nothing.
    assert!(matches!(
        parse_session_event(br#"{"type":"session.status","status":"running"}"#),
        SessionEvent::Unknown
    ));
}

#[test]
fn parse_ready_port_wants_type_ready_and_a_port() {
    assert_eq!(parse_ready_port(br#"{"type":"ready","runtimePort":55001}"#), Some(55001));
    assert_eq!(parse_ready_port(br#"{"type":"ready"}"#), None);
    assert_eq!(parse_ready_port(br#"{"type":"ready","runtimePort":70000}"#), None);
    assert_eq!(parse_ready_port(br#"{"type":"log","runtimePort":55001}"#), None);
    assert_eq!(parse_ready_port(b"Server listening..."), None);
}

#[test]
fn drain_events_consumes_complete_records_only() {
    let mut buffer = Vec::new();
    buffer.extend_from_slice(b"data: {\"type\":\"session.status\",\"sessionId\":\"s1\",\"status\":\"running\"}\n\n");
    buffer.extend_from_slice(b"event: noise\n\n");
    buffer.extend_from_slice(b"data: {\"type\":\"session.status\",\"sessionId\":\"s1\",\"status\":\"comp");
    let events = drain_events(&mut buffer);
    assert_eq!(events.len(), 1);
    assert!(matches!(events[0], SessionEvent::SessionStatus { .. }));
    // The incomplete record waits for more bytes.
    buffer.extend_from_slice(b"leted\"}\n\n");
    let events = drain_events(&mut buffer);
    assert_eq!(events.len(), 1);
    match &events[0] {
        SessionEvent::SessionStatus { session_id, status } => {
            assert_eq!(session_id, "s1");
            assert_eq!(status, "completed");
        }
        _ => panic!("expected the completed event"),
    }
    assert!(buffer.is_empty());
}

#[test]
fn running_event_twice_creates_exactly_one_job() {
    let mut jobs = JobRegistry::new();
    let mut runtimes = RuntimeManager::new();
    let active = "wb-1".to_string();
    commit_started(&mut runtimes, active.clone(), "/tmp/wb1".to_string(), 55001, 55101, 55201, 1, 0);

    let r1 = handle_session_status(&mut jobs, &mut runtimes, Some(&active), "s1", "running", 10);
    assert!(matches!(r1, Some(JobAction::Started(_))));
    let r2 = handle_session_status(&mut jobs, &mut runtimes, Some(&active), "s1", "running", 11);
    assert!(r2.is_none());

    assert_eq!(jobs.active_count(), 1);
    assert_eq!(jobs.list_active().len(), 1);
    assert_eq!(runtimes.get("wb-1").unwrap().active_jobs, 1);
}

#[test]
fn completed_event_settles_the_job_and_counter() {
    let mut jobs = JobRegistry::new();
    let mut runtimes = RuntimeManager::new();
    let active = "wb-1".to_string();
    commit_started(&mut runtimes, active.clone(), "/tmp/wb1".to_string(), 55001, 55101, 55201, 1, 0);

    handle_session_status(&mut jobs, &mut runtimes, Some(&active), "s1", "running", 10);
    assert_eq!(runtimes.get("wb-1").unwrap().active_jobs, 1);
    let r = handle_session_status(&mut jobs, &mut runtimes, Some(&active), "s1", "completed", 20);
    assert!(matches!(r, Some(JobAction::Completed(_))));
    assert_eq!(jobs.find_by_session("s1").unwrap().status, JobStatus::Completed);
    assert_eq!(jobs.active_count(), 0);
    assert_eq!(runtimes.get("wb-1").unwrap().active_jobs, 0);
    // A terminal event for a session without jobs changes nothing.
    let r = handle_session_status(&mut jobs, &mut runtimes, Some(&active), "s9", "failed", 30);
    assert!(r.is_none());
}

#[test]
fn failed_event_marks_the_job_failed() {
    let mut jobs = JobRegistry::new();
    let mut runtimes = RuntimeManager::new();
    handle_session_status(&mut jobs, &mut runtimes, None, "s1", "running", 10);
    let r = handle_session_status(&mut jobs, &mut runtimes, None, "s1", "error", 20);
    assert!(matches!(r, Some(JobAction::Failed(_))));
    assert_eq!(jobs.find_by_session("s1").unwrap().status, JobStatus::Failed);
}

#[test]
fn session_updated_with_status_is_redispatched() {
    let mut jobs = JobRegistry::new();
    let mut runtimes = RuntimeManager::new();
    let ev = SessionEvent::SessionUpdated {
        session_id: "s1".to_string(),
        status: Some("running".to_string()),
    };
    let r = handle_session_event(&mut jobs, &mut runtimes, None, &ev, 10);
    assert!(matches!(r, Some(JobAction::Started(_))));
    let ev = SessionEvent::SessionUpdated { session_id: "s1".to_string(), status: None };
    let r = handle_session_event(&mut jobs, &mut runtimes, None, &ev, 11);
    assert!(r.is_none());
    let r = handle_session_event(&mut jobs, &mut runtimes, None, &SessionEvent::Unknown, 12);
    assert!(r.is_none());
    assert_eq!(jobs.active_count(), 1);
}

#[test]
fn stream_scenario_running_then_completed() {
    // The feed delivers two data records for session s1; afterwards the
    // job stands Completed and the active count is back where it began.
    let mut jobs = JobRegistry::new();
    let mut runtimes = RuntimeManager::new();
    let active = "wb-1".to_string();
    commit_started(&mut runtimes, active.clone(), "/tmp/wb1".to_string(), 55001, 55101, 55201, 1, 0);
    let before = jobs.active_count();

    let mut buffer = Vec::new();
    buffer.extend_from_slice(b"data: {\"type\":\"session.status\",\"sessionId\":\"s1\",\"status\":\"running\"}\n\n");
    buffer.extend_from_slice(b"data: {\"type\":\"session.status\",\"sessionId\":\"s1\",\"status\":\"completed\"}\n\n");
    let events = drain_events(&mut buffer);
    assert_eq!(events.len(), 2);
    let mut now = 100;
    for ev in &events {
        handle_session_event(&mut jobs, &mut runtimes, Some(&active), ev, now);
        now += 1;
    }
    assert_eq!(jobs.find_by_session("s1").unwrap().status, JobStatus::Completed);
    assert_eq!(jobs.active_count(), before);
    assert_eq!(runtimes.get("wb-1").unwrap().active_jobs, 0);
}

#[test]
fn clock_based_entry_points_work() {
    // The clock-reading variants mirror the explicit-time ones.
    let mut reg = JobRegistry::new();
    let id = reg.register("wb-1", "s1", "work");
    assert!(id.starts_with("job_s1_"));
    assert_eq!(reg.active_count(), 1);
    reg.update_status(&id, JobStatus::Completed);
    assert_eq!(reg.active_count(), 0);
    reg.cleanup_old();
    let job = JobInfo::new("wb".to_string(), "s".to_string(), "d".to_string());
    assert!(job.is_active());
    assert_eq!(job.started_at, job.updated_at);
}
