use parakeet::frame::{frame_line, read_frame, FrameError, MAX_LINE};
use parakeet::record::{Field, Key, Record};
use parakeet::request::{
    build_request, decode_request, encode_request, preflight, OutputFormat, Request,
    RequestError, ValidationError,
};
use parakeet::response::decode_response;

fn text(s: &str) -> Field {
    Field::Text(s.to_string())
}

fn sample_request() -> Request {
    Request {
        input: "a.wav".to_string(),
        output: None,
        model: "m1".to_string(),
        device: "auto".to_string(),
        vocab: None,
        format: OutputFormat::Text,
        timestamps: false,
        fuzzy_vocab: true,
        verbose: false,
    }
}

fn same_request(a: &Request, b: &Request) -> bool {
    a.input == b.input
        && a.output == b.output
        && a.model == b.model
        && a.device == b.device
        && a.vocab == b.vocab
        && a.format == b.format
        && a.timestamps == b.timestamps
        && a.fuzzy_vocab == b.fuzzy_vocab
        && a.verbose == b.verbose
}

#[test]
fn request_round_trips_through_payload() {
    let r = sample_request();
    let back = decode_request(&encode_request(&r)).unwrap();
    assert!(same_request(&r, &back));

    let full = Request {
        input: "/tmp/x y.wav".to_string(),
        output: Some("out.md".to_string()),
        model: "nvidia/parakeet-tdt-0.6b-v3".to_string(),
        device: "cuda".to_string(),
        vocab: Some("v.txt".to_string()),
        format: OutputFormat::Md,
        timestamps: true,
        fuzzy_vocab: false,
        verbose: true,
    };
    let back = decode_request(&encode_request(&full)).unwrap();
    assert!(same_request(&full, &back));
}

#[test]
fn encoded_request_lists_fields_in_order() {
    let rec = encode_request(&sample_request());
    let keys: Vec<&str> = rec.iter().map(|(k, _)| k.name()).collect();
    assert_eq!(
        keys,
        vec!["input", "output", "model", "device", "vocab", "format", "timestamps", "fuzzy_vocab", "verbose"]
    );
    assert!(matches!(&rec[0].1, Field::Text(s) if s == "a.wav"));
    assert!(matches!(&rec[1].1, Field::Null));
    assert!(matches!(&rec[5].1, Field::Text(s) if s == "text"));
    assert!(matches!(&rec[7].1, Field::Flag(true)));
}

#[test]
fn decode_request_rejects_missing_wrong_and_repeated_fields() {
    let good = encode_request(&sample_request());

    let mut missing = good.clone();
    missing.remove(2);
    assert_eq!(decode_request(&missing).unwrap_err(), RequestError::MalformedRequest);

    let mut wrong = good.clone();
    wrong[6] = (Key::Timestamps, text("no"));
    assert!(decode_request(&wrong).is_err());

    let mut repeated = good.clone();
    repeated.push((Key::Model, text("m2")));
    assert!(decode_request(&repeated).is_err());

    let mut bad_format = good.clone();
    bad_format[5] = (Key::Format, text("html"));
    assert!(decode_request(&bad_format).is_err());
}

#[test]
fn decode_request_accepts_absent_optionals_and_ignores_other_keys() {
    let mut rec: Record = encode_request(&sample_request());
    rec.remove(4);
    rec.remove(1);
    rec.push((Key::Transcript, text("ignored")));
    let r = decode_request(&rec).unwrap();
    assert_eq!(r.output, None);
    assert_eq!(r.vocab, None);
    assert_eq!(r.model, "m1");
}

fn canned_response() -> Record {
    vec![
        (Key::Transcript, text("hello world")),
        (Key::Source, text("served-by-daemon")),
        (Key::Model, text("m1")),
        (Key::Device, text("cpu")),
        (Key::Format, text("text")),
    ]
}

#[test]
fn decode_response_reads_canned_response() {
    let r = decode_response(&canned_response()).unwrap();
    assert_eq!(r.transcript, "hello world");
    assert_eq!(r.source, "served-by-daemon");
    assert_eq!(r.device, "cpu");
    assert_eq!(r.output_path, None);
}

#[test]
fn decode_response_checks_metrics_and_required_fields() {
    let mut with_metrics = canned_response();
    with_metrics.push((Key::Metrics, Field::Object));
    assert!(decode_response(&with_metrics).is_some());

    let mut bad_metrics = canned_response();
    bad_metrics.push((Key::Metrics, text("fast")));
    assert!(decode_response(&bad_metrics).is_none());

    let mut no_transcript = canned_response();
    no_transcript.remove(0);
    assert!(decode_response(&no_transcript).is_none());

    let mut path = canned_response();
    path.push((Key::OutputPath, text("o.txt")));
    assert_eq!(decode_response(&path).unwrap().output_path, Some("o.txt".to_string()));
}

#[test]
fn build_request_applies_defaults() {
    let r = build_request(
        "a.wav".to_string(),
        None,
        None,
        "auto".to_string(),
        None,
        OutputFormat::Md,
        false,
        true,
        false,
    );
    assert_eq!(r.model, "nvidia/parakeet-tdt-0.6b-v3");
    assert!(!r.fuzzy_vocab);
    let r = build_request(
        "a.wav".to_string(),
        None,
        Some("m1".to_string()),
        "auto".to_string(),
        None,
        OutputFormat::Text,
        false,
        false,
        false,
    );
    assert_eq!(r.model, "m1");
    assert!(r.fuzzy_vocab);
}

#[test]
fn preflight_checks_in_order() {
    assert_eq!(preflight(false, false, false), Err(ValidationError::InputMissing));
    assert_eq!(preflight(true, false, false), Err(ValidationError::WorkerEnvironmentMissing));
    assert_eq!(preflight(true, true, false), Err(ValidationError::WorkerScriptMissing));
    assert_eq!(preflight(true, true, true), Ok(()));
}

#[test]
fn frame_round_trip() {
    let p = "{\"input\":\"a.wav\"}".to_string();
    let line = frame_line(&p).unwrap();
    assert_eq!(line, "{\"input\":\"a.wav\"}\n");
    assert_eq!(read_frame(&line, MAX_LINE).unwrap(), p);
}

#[test]
fn frame_rejects_embedded_newline() {
    assert_eq!(frame_line(&"a\nb".to_string()), Err(FrameError::EmbeddedNewline));
}

#[test]
fn read_frame_bounds_and_stops_at_first_line() {
    assert_eq!(read_frame(&"abcdef\n".to_string(), 3), Err(FrameError::OversizedRequest));
    assert_eq!(read_frame(&"abc\n".to_string(), 3).unwrap(), "abc");
    assert_eq!(read_frame(&"one\ntwo\n".to_string(), 10).unwrap(), "one");
    assert_eq!(read_frame(&"tail".to_string(), 10).unwrap(), "tail");
    assert_eq!(read_frame(&"".to_string(), 10).unwrap(), "");
}
