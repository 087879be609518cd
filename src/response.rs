use vstd::prelude::*;
use crate::record::{
    Key, Record, check_opt_object, need_text, opt_object_ok, opt_text, read_opt_text, read_text,
    record_view,
};
use crate::request::opt_view;

verus! {

/// What the worker produced for one request. Timing metrics, when the
/// worker reports them, travel beside it as an uninterpreted object.
#[derive(Clone, Debug)]
pub struct Response {
    pub transcript: String,
    pub output_path: Option<String>,
    pub source: String,
    pub model: String,
    pub device: String,
    pub format: String,
}

/// Mathematical model of a [`Response`].
pub struct ResponseV {
    pub transcript: Seq<char>,
    pub output_path: Option<Seq<char>>,
    pub source: Seq<char>,
    pub model: Seq<char>,
    pub device: Seq<char>,
    pub format: Seq<char>,
}

impl View for Response {
    type V = ResponseV;

    open spec fn view(&self) -> ResponseV {
        ResponseV {
            transcript: self.transcript@,
            output_path: opt_view(self.output_path),
            source: self.source@,
            model: self.model@,
            device: self.device@,
            format: self.format@,
        }
    }
}

/// The response a payload describes: the string fields present once as
/// strings, the output path absent, null or a string, the metrics absent,
/// null or an object.
pub open spec fn response_of(s: Seq<(Key, crate::record::FieldV)>) -> Option<ResponseV> {
    if need_text(s, Key::Transcript) is Some && opt_text(s, Key::OutputPath) is Some && need_text(
        s,
        Key::Source,
    ) is Some && need_text(s, Key::Model) is Some && need_text(s, Key::Device) is Some
        && need_text(s, Key::Format) is Some && opt_object_ok(s, Key::Metrics) {
        Some(
            ResponseV {
                transcript: need_text(s, Key::Transcript)->0,
                output_path: opt_text(s, Key::OutputPath)->0,
                source: need_text(s, Key::Source)->0,
                model: need_text(s, Key::Model)->0,
                device: need_text(s, Key::Device)->0,
                format: need_text(s, Key::Format)->0,
            },
        )
    } else {
        None
    }
}

/// Decodes a response payload; `None` exactly when it describes no response.
pub fn decode_response(rec: &Record) -> (r: Option<Response>)
    ensures
        match r {
            Some(q) => response_of(record_view(rec@)) == Some(q@),
            None => response_of(record_view(rec@)) is None,
        },
{
    let transcript = read_text(rec, Key::Transcript);
    let output_path = read_opt_text(rec, Key::OutputPath);
    let source = read_text(rec, Key::Source);
    let model = read_text(rec, Key::Model);
    let device = read_text(rec, Key::Device);
    let format = read_text(rec, Key::Format);
    let metrics_ok = check_opt_object(rec, Key::Metrics);
    if !metrics_ok {
        return None;
    }
    match (transcript, output_path, source, model, device, format) {
        (
            Some(transcript),
            Some(output_path),
            Some(source),
            Some(model),
            Some(device),
            Some(format),
        ) => {
            let q = Response { transcript, output_path, source, model, device, format };
            assert(opt_view(q.output_path) == opt_text(record_view(rec@), Key::OutputPath)->0);
            Some(q)
        },
        _ => None,
    }
}

} // verus!
