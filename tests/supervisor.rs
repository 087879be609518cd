use parakeet::supervisor::{
    finish_stop, parse_pid, plan_start, plan_stop, poll_start, status, tail_lines, DaemonState,
    PollStep, StartStep, StopPlan, StopReport, SupervisorError, DEFAULT_LOG_LINES, START_POLLS,
};

#[test]
fn start_is_noop_while_running() {
    let alive = DaemonState::observe(Some(42), true);
    assert_eq!(plan_start(&alive), StartStep::AlreadyRunning);
    let stale = DaemonState::observe(Some(42), false);
    assert_eq!(plan_start(&stale), StartStep::Launch);
    let none = DaemonState::observe(None, true);
    assert!(!none.alive);
    assert_eq!(plan_start(&none), StartStep::Launch);
}

#[test]
fn start_twice_spawns_once() {
    let first = plan_start(&DaemonState::observe(None, false));
    assert_eq!(first, StartStep::Launch);
    let second = plan_start(&DaemonState::observe(Some(1234), true));
    assert_eq!(second, StartStep::AlreadyRunning);
}

#[test]
fn poll_start_times_out_after_bound() {
    assert_eq!(START_POLLS, 240);
    assert_eq!(poll_start(true, 0), Ok(PollStep::Ready));
    assert_eq!(poll_start(true, 239), Ok(PollStep::Ready));
    assert_eq!(poll_start(false, 0), Ok(PollStep::Wait));
    assert_eq!(poll_start(false, 238), Ok(PollStep::Wait));
    assert_eq!(poll_start(false, 239), Err(SupervisorError::DaemonStartTimeout));
}

#[test]
fn stop_not_running_cleans_and_succeeds() {
    for s in [DaemonState::observe(None, false), DaemonState::observe(Some(9), false)] {
        let plan = plan_stop(&s);
        assert_eq!(plan, StopPlan { signal: None, remove_pidfile: true, remove_socket: true });
        assert_eq!(finish_stop(&plan, false), Ok(StopReport::WasNotRunning));
        assert_eq!(finish_stop(&plan, true), Ok(StopReport::WasNotRunning));
    }
}

#[test]
fn stop_running_signals_and_reports_failure() {
    let plan = plan_stop(&DaemonState::observe(Some(77), true));
    assert_eq!(plan.signal, Some(77));
    assert!(plan.remove_pidfile && plan.remove_socket);
    assert_eq!(finish_stop(&plan, true), Ok(StopReport::Stopped));
    assert_eq!(finish_stop(&plan, false), Err(SupervisorError::StopSignalFailed(77)));
}

#[test]
fn status_follows_lifecycle() {
    assert_eq!(status(&DaemonState::observe(Some(5), true)), Ok(()));
    assert_eq!(status(&DaemonState::observe(None, false)), Err(SupervisorError::NotRunning));
    assert_eq!(status(&DaemonState::observe(Some(5), false)), Err(SupervisorError::NotRunning));
}

#[test]
fn parse_pid_reads_trimmed_decimal() {
    assert_eq!(parse_pid(&"1234\n".to_string()), Some(1234));
    assert_eq!(parse_pid(&"  77 \r\n".to_string()), Some(77));
    assert_eq!(parse_pid(&"+8".to_string()), Some(8));
    assert_eq!(parse_pid(&"4294967295".to_string()), Some(u32::MAX));
    assert_eq!(parse_pid(&"4294967296".to_string()), None);
    assert_eq!(parse_pid(&"99999999999999999999".to_string()), None);
    assert_eq!(parse_pid(&"".to_string()), None);
    assert_eq!(parse_pid(&"+".to_string()), None);
    assert_eq!(parse_pid(&"-1".to_string()), None);
    assert_eq!(parse_pid(&"12a".to_string()), None);
    assert_eq!(parse_pid(&"1 2".to_string()), None);
}

#[test]
fn tail_lines_keeps_last_n() {
    let log = "one\ntwo\nthree\n".to_string();
    assert_eq!(tail_lines(&log, 2), vec!["two".to_string(), "three".to_string()]);
    assert_eq!(tail_lines(&log, 10).len(), 3);
    assert!(tail_lines(&log, 0).is_empty());
    assert!(tail_lines(&"".to_string(), DEFAULT_LOG_LINES).is_empty());
    assert_eq!(DEFAULT_LOG_LINES, 80);
}
