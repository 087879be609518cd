use parakeet::dispatch::{Action, DispatchError, Dispatcher, Phase, Source};
use parakeet::record::{Field, Key, Record};

fn text(s: &str) -> Field {
    Field::Text(s.to_string())
}

fn canned() -> Record {
    vec![
        (Key::Transcript, text("hello world")),
        (Key::Source, text("served-by-daemon")),
        (Key::Model, text("m1")),
        (Key::Device, text("cpu")),
        (Key::Format, text("text")),
    ]
}

fn lines(v: &[&str]) -> Vec<String> {
    v.iter().map(|s| s.to_string()).collect()
}

#[test]
fn daemon_serves_canned_response() {
    let mut d = Dispatcher::new();
    assert!(matches!(d.begin(true), Action::AskDaemon));
    let line = "  {\"transcript\":\"hello world\"}\n".to_string();
    match d.on_daemon_line(Some(line)) {
        Action::ParseDaemonPayload(p) => assert_eq!(p, "{\"transcript\":\"hello world\"}"),
        other => panic!("unexpected {:?}", other),
    }
    match d.on_daemon_payload(Some(canned())) {
        Action::Deliver(Source::Daemon, r) => {
            assert_eq!(r.transcript, "hello world");
            assert_eq!(r.device, "cpu");
        }
        other => panic!("unexpected {:?}", other),
    }
    assert_eq!(d.phase, Phase::Done);
}

#[test]
fn unreachable_daemon_falls_back_to_subprocess() {
    let mut d = Dispatcher::new();
    d.begin(true);
    assert!(matches!(d.on_daemon_line(None), Action::RunWorker));
    let out = lines(&["loading", "{\"transcript\":\"hi\"}", "done"]);
    match d.on_worker_exit(true, &out, &Vec::new()) {
        Action::ParseWorkerPayload(p) => assert_eq!(p, "{\"transcript\":\"hi\"}"),
        other => panic!("unexpected {:?}", other),
    }
    match d.on_worker_payload(Some(canned())) {
        Action::Deliver(Source::Subprocess, r) => assert_eq!(r.transcript, "hello world"),
        other => panic!("unexpected {:?}", other),
    }
}

#[test]
fn stale_socket_falls_back_without_error() {
    let mut d = Dispatcher::new();
    d.begin(true);
    let a = d.on_daemon_line(None);
    assert!(matches!(a, Action::RunWorker));
    assert_eq!(d.phase, Phase::AwaitWorkerExit);
}

#[test]
fn empty_or_garbage_daemon_reply_falls_back() {
    let mut d = Dispatcher::new();
    d.begin(true);
    assert!(matches!(d.on_daemon_line(Some(" \r\n".to_string())), Action::RunWorker));

    let mut d = Dispatcher::new();
    d.begin(true);
    d.on_daemon_line(Some("not json".to_string()));
    assert!(matches!(d.on_daemon_payload(None), Action::RunWorker));

    let mut d = Dispatcher::new();
    d.begin(true);
    d.on_daemon_line(Some("{}".to_string()));
    assert!(matches!(d.on_daemon_payload(Some(Vec::new())), Action::RunWorker));
}

#[test]
fn no_daemon_goes_straight_to_subprocess() {
    let mut d = Dispatcher::new();
    assert!(matches!(d.begin(false), Action::RunWorker));
    assert_eq!(d.phase, Phase::AwaitWorkerExit);
}

#[test]
fn worker_without_structured_line_fails() {
    let mut d = Dispatcher::new();
    d.begin(false);
    let out = lines(&["progress 10%", "progress 100%"]);
    assert!(matches!(
        d.on_worker_exit(true, &out, &Vec::new()),
        Action::Fail(DispatchError::NoStructuredOutput)
    ));
    assert_eq!(d.phase, Phase::Done);
}

#[test]
fn worker_failure_carries_trimmed_stderr() {
    let mut d = Dispatcher::new();
    d.begin(false);
    let err = lines(&["  Traceback", "boom  "]);
    match d.on_worker_exit(false, &lines(&["{\"x\":1}"]), &err) {
        Action::Fail(DispatchError::WorkerFailure(m)) => assert_eq!(m, "Traceback\nboom"),
        other => panic!("unexpected {:?}", other),
    }
}

#[test]
fn worker_payload_picks_last_structured_line() {
    let mut d = Dispatcher::new();
    d.begin(false);
    let out = lines(&["{\"first\":1}", "  {\"second\":2}  ", "tail"]);
    match d.on_worker_exit(true, &out, &Vec::new()) {
        Action::ParseWorkerPayload(p) => assert_eq!(p, "{\"second\":2}"),
        other => panic!("unexpected {:?}", other),
    }
    assert!(matches!(
        d.on_worker_payload(None),
        Action::Fail(DispatchError::MalformedResponse)
    ));
}
