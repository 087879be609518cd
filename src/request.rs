use vstd::prelude::*;
use crate::record::{
    Field, FieldV, Key, Record, need_flag, need_text, opt_text, read_flag, read_opt_text,
    read_text, record_view, scan,
};

verus! {

/// Output-format selector of a request.
#[derive(Clone, Copy, Debug, PartialEq, Eq, Structural)]
pub enum OutputFormat {
    Text,
    Md,
}

impl OutputFormat {
    pub open spec fn spec_name(self) -> Seq<char> {
        match self {
            OutputFormat::Text => "text"@,
            OutputFormat::Md => "md"@,
        }
    }

    /// The wire name of the format.
    pub fn name(&self) -> (r: &'static str)
        ensures
            r@ == self.spec_name(),
    {
        match self {
            OutputFormat::Text => "text",
            OutputFormat::Md => "md",
        }
    }
}

/// The format named by a wire string, if any.
pub open spec fn format_named(t: Seq<char>) -> Option<OutputFormat> {
    if t == "text"@ {
        Some(OutputFormat::Text)
    } else if t == "md"@ {
        Some(OutputFormat::Md)
    } else {
        None
    }
}

pub fn parse_format(t: &String) -> (r: Option<OutputFormat>)
    ensures
        r == format_named(t@),
{
    if *t == String::from_str("text") {
        Some(OutputFormat::Text)
    } else if *t == String::from_str("md") {
        Some(OutputFormat::Md)
    } else {
        None
    }
}

/// One unit of work for the transcription worker.
#[derive(Clone, Debug)]
pub struct Request {
    pub input: String,
    pub output: Option<String>,
    pub model: String,
    pub device: String,
    pub vocab: Option<String>,
    pub format: OutputFormat,
    pub timestamps: bool,
    pub fuzzy_vocab: bool,
    pub verbose: bool,
}

/// Mathematical model of a [`Request`].
pub struct RequestV {
    pub input: Seq<char>,
    pub output: Option<Seq<char>>,
    pub model: Seq<char>,
    pub device: Seq<char>,
    pub vocab: Option<Seq<char>>,
    pub format: OutputFormat,
    pub timestamps: bool,
    pub fuzzy_vocab: bool,
    pub verbose: bool,
}

pub open spec fn opt_view(o: Option<String>) -> Option<Seq<char>> {
    match o {
        Some(s) => Some(s@),
        None => None,
    }
}

impl View for Request {
    type V = RequestV;

    open spec fn view(&self) -> RequestV {
        RequestV {
            input: self.input@,
            output: opt_view(self.output),
            model: self.model@,
            device: self.device@,
            vocab: opt_view(self.vocab),
            format: self.format,
            timestamps: self.timestamps,
            fuzzy_vocab: self.fuzzy_vocab,
            verbose: self.verbose,
        }
    }
}

/// An optional string as a payload value: `null` when absent.
pub open spec fn opt_field(o: Option<Seq<char>>) -> FieldV {
    match o {
        Some(t) => FieldV::Text(t),
        None => FieldV::Null,
    }
}

/// The payload of a request: every field once, in declaration order.
pub open spec fn request_payload(r: RequestV) -> Seq<(Key, FieldV)> {
    seq![
        (Key::Input, FieldV::Text(r.input)),
        (Key::Output, opt_field(r.output)),
        (Key::Model, FieldV::Text(r.model)),
        (Key::Device, FieldV::Text(r.device)),
        (Key::Vocab, opt_field(r.vocab)),
        (Key::Format, FieldV::Text(r.format.spec_name())),
        (Key::Timestamps, FieldV::Flag(r.timestamps)),
        (Key::FuzzyVocab, FieldV::Flag(r.fuzzy_vocab)),
        (Key::Verbose, FieldV::Flag(r.verbose)),
    ]
}

/// The request a payload describes: each required field present once with
/// the right type, each optional one absent, null or a string, the format
/// one of the known names. Keys that a request does not have are ignored.
pub open spec fn request_of(s: Seq<(Key, FieldV)>) -> Option<RequestV> {
    let format = match need_text(s, Key::Format) {
        Some(t) => format_named(t),
        None => None,
    };
    if need_text(s, Key::Input) is Some && opt_text(s, Key::Output) is Some && need_text(
        s,
        Key::Model,
    ) is Some && need_text(s, Key::Device) is Some && opt_text(s, Key::Vocab) is Some
        && format is Some && need_flag(s, Key::Timestamps) is Some && need_flag(
        s,
        Key::FuzzyVocab,
    ) is Some && need_flag(s, Key::Verbose) is Some {
        Some(
            RequestV {
                input: need_text(s, Key::Input)->0,
                output: opt_text(s, Key::Output)->0,
                model: need_text(s, Key::Model)->0,
                device: need_text(s, Key::Device)->0,
                vocab: opt_text(s, Key::Vocab)->0,
                format: format->0,
                timestamps: need_flag(s, Key::Timestamps)->0,
                fuzzy_vocab: need_flag(s, Key::FuzzyVocab)->0,
                verbose: need_flag(s, Key::Verbose)->0,
            },
        )
    } else {
        None
    }
}

/// Failure to read a request payload.
#[derive(Clone, Copy, Debug, PartialEq, Eq, Structural)]
pub enum RequestError {
    MalformedRequest,
}

fn opt_to_field(o: &Option<String>) -> (f: Field)
    ensures
        f@ == opt_field(opt_view(*o)),
{
    match o {
        Some(s) => Field::Text(s.clone()),
        None => Field::Null,
    }
}

/// Encodes a request as a payload.
pub fn encode_request(r: &Request) -> (rec: Record)
    ensures
        record_view(rec@) == request_payload(r@),
{
    let mut rec: Record = Vec::new();
    rec.push((Key::Input, Field::Text(r.input.clone())));
    rec.push((Key::Output, opt_to_field(&r.output)));
    rec.push((Key::Model, Field::Text(r.model.clone())));
    rec.push((Key::Device, Field::Text(r.device.clone())));
    rec.push((Key::Vocab, opt_to_field(&r.vocab)));
    rec.push((Key::Format, Field::Text(String::from_str(r.format.name()))));
    rec.push((Key::Timestamps, Field::Flag(r.timestamps)));
    rec.push((Key::FuzzyVocab, Field::Flag(r.fuzzy_vocab)));
    rec.push((Key::Verbose, Field::Flag(r.verbose)));
    assert(record_view(rec@) =~= request_payload(r@));
    rec
}

/// Decodes a request payload; fails exactly when the payload describes no request.
pub fn decode_request(rec: &Record) -> (r: Result<Request, RequestError>)
    ensures
        match r {
            Ok(q) => request_of(record_view(rec@)) == Some(q@),
            Err(e) => request_of(record_view(rec@)) is None && e == RequestError::MalformedRequest,
        },
{
    let ghost s = record_view(rec@);
    let input = read_text(rec, Key::Input);
    let output = read_opt_text(rec, Key::Output);
    let model = read_text(rec, Key::Model);
    let device = read_text(rec, Key::Device);
    let vocab = read_opt_text(rec, Key::Vocab);
    let format_text = read_text(rec, Key::Format);
    let format = match &format_text {
        Some(t) => parse_format(t),
        None => None,
    };
    let timestamps = read_flag(rec, Key::Timestamps);
    let fuzzy_vocab = read_flag(rec, Key::FuzzyVocab);
    let verbose = read_flag(rec, Key::Verbose);
    match (input, output, model, device, vocab, format, timestamps, fuzzy_vocab, verbose) {
        (
            Some(input),
            Some(output),
            Some(model),
            Some(device),
            Some(vocab),
            Some(format),
            Some(timestamps),
            Some(fuzzy_vocab),
            Some(verbose),
        ) => {
            let q = Request {
                input,
                output,
                model,
                device,
                vocab,
                format,
                timestamps,
                fuzzy_vocab,
                verbose,
            };
            assert(opt_view(q.output) == opt_text(s, Key::Output)->0);
            assert(opt_view(q.vocab) == opt_text(s, Key::Vocab)->0);
            Ok(q)
        },
        _ => Err(RequestError::MalformedRequest),
    }
}

/// Decoding the payload of an encoded request gives that request back.
pub proof fn lemma_request_round_trip(r: RequestV)
    ensures
        request_of(request_payload(r)) == Some(r),
{
    let s = request_payload(r);
    reveal_with_fuel(scan, 10);
    reveal_strlit("text");
    reveal_strlit("md");
    assert(s.drop_last().drop_last().drop_last().drop_last().drop_last().drop_last().drop_last().drop_last().drop_last() =~= Seq::<(Key, FieldV)>::empty());
    assert("md"@.len() != "text"@.len());
    assert(format_named(r.format.spec_name()) == Some(r.format));
    let d = request_of(s)->0;
    assert(d.output == r.output);
    assert(d.vocab == r.vocab);
}

/// The model used when the caller names none.
pub fn default_model() -> (r: &'static str)
    ensures
        r@ == "nvidia/parakeet-tdt-0.6b-v3"@,
{
    "nvidia/parakeet-tdt-0.6b-v3"
}

/// Builds the request for a transcription from the caller's options: the
/// default model when none is named, fuzzy vocabulary matching unless it is
/// switched off.
pub fn build_request(
    input: String,
    output: Option<String>,
    model: Option<String>,
    device: String,
    vocab: Option<String>,
    format: OutputFormat,
    timestamps: bool,
    no_fuzzy_vocab: bool,
    verbose: bool,
) -> (r: Request)
    ensures
        r@ == (RequestV {
            input: input@,
            output: opt_view(output),
            model: match model {
                Some(m) => m@,
                None => "nvidia/parakeet-tdt-0.6b-v3"@,
            },
            device: device@,
            vocab: opt_view(vocab),
            format,
            timestamps,
            fuzzy_vocab: !no_fuzzy_vocab,
            verbose,
        }),
{
    let model = match model {
        Some(m) => m,
        None => String::from_str(default_model()),
    };
    Request { input, output, model, device, vocab, format, timestamps, fuzzy_vocab: !no_fuzzy_vocab, verbose }
}

/// Reasons to refuse a transcription before any path is tried.
#[derive(Clone, Copy, Debug, PartialEq, Eq, Structural)]
pub enum ValidationError {
    InputMissing,
    WorkerEnvironmentMissing,
    WorkerScriptMissing,
}

/// Checks, in order, that the input, the worker's environment and the
/// worker's script exist.
pub fn preflight(input_exists: bool, env_exists: bool, script_exists: bool) -> (r: Result<
    (),
    ValidationError,
>)
    ensures
        r == if !input_exists {
            Err(ValidationError::InputMissing)
        } else if !env_exists {
            Err(ValidationError::WorkerEnvironmentMissing)
        } else if !script_exists {
            Err(ValidationError::WorkerScriptMissing)
        } else {
            Ok(())
        },
{
    if !input_exists {
        Err(ValidationError::InputMissing)
    } else if !env_exists {
        Err(ValidationError::WorkerEnvironmentMissing)
    } else if !script_exists {
        Err(ValidationError::WorkerScriptMissing)
    } else {
        Ok(())
    }
}

} // verus!
