use vstd::prelude::*;
use crate::record::{FieldV, Key, Record, record_view};
use crate::request::opt_view;
use crate::response::{Response, decode_response, response_of};
use crate::text::{chars_of, push_text, skip_lead, string_of_chars, lead_end, trim_chars, trimmed};
use crate::vocab::texts;

verus! {

/// Which path served a request.
#[derive(Clone, Copy, Debug, PartialEq, Eq, Structural)]
pub enum Source {
    Daemon,
    Subprocess,
}

/// Failures that reach the user. A failing daemon is never one of them: it
/// only sends the request down the subprocess path.
#[derive(Clone, Debug)]
pub enum DispatchError {
    /// The worker exited unsuccessfully; its standard error, trimmed.
    WorkerFailure(String),
    /// The worker succeeded but printed no line that starts with `{`.
    NoStructuredOutput,
    /// The worker's last structured line describes no response.
    MalformedResponse,
}

/// Where a dispatch stands.
#[derive(Clone, Copy, Debug, PartialEq, Eq, Structural)]
pub enum Phase {
    Start,
    AwaitDaemonLine,
    AwaitDaemonPayload,
    AwaitWorkerExit,
    AwaitWorkerPayload,
    Done,
}

/// What the caller must do next.
#[derive(Clone, Debug)]
pub enum Action {
    /// Connect to the daemon socket with timeouts, send the request line,
    /// and read one line back; report `None` on any failure.
    AskDaemon,
    /// Parse this text as a JSON object; report `None` if it is not one.
    ParseDaemonPayload(String),
    /// Run the worker as a subprocess with the request, draining both of
    /// its output streams, and report how it exited and what it printed.
    RunWorker,
    /// Parse this text as a JSON object; report `None` if it is not one.
    ParseWorkerPayload(String),
    /// Hand the response to the user.
    Deliver(Source, Response),
    /// Report the failure to the user.
    Fail(DispatchError),
}

/// The client side of one request: the daemon first when allowed, the
/// subprocess otherwise or when the daemon fails in any way. Exactly one of
/// the two paths serves the request, and the `Source` of a delivered
/// response names the one that did.
pub struct Dispatcher {
    pub phase: Phase,
}

/// Whether a line of worker output looks like a structured payload: its
/// first character after leading whitespace is `{`.
pub open spec fn structured(l: Seq<char>) -> bool {
    skip_lead(l).len() > 0 && skip_lead(l)[0] == '{'
}

/// The index of the last structured line, if any.
pub open spec fn last_structured(lines: Seq<Seq<char>>) -> Option<int>
    decreases lines.len(),
{
    if lines.len() == 0 {
        None
    } else if structured(lines.last()) {
        Some(lines.len() - 1)
    } else {
        last_structured(lines.drop_last())
    }
}

/// Lines joined with line feeds between them.
pub open spec fn join_lines(lines: Seq<Seq<char>>) -> Seq<char>
    decreases lines.len(),
{
    if lines.len() == 0 {
        seq![]
    } else if lines.len() == 1 {
        lines[0]
    } else {
        join_lines(lines.drop_last()) + seq!['\n'] + lines.last()
    }
}

/// The phase after the daemon's reply line (`None`: no reply at all).
pub open spec fn daemon_line_phase(line: Option<Seq<char>>) -> Phase {
    match line {
        Some(l) => if trimmed(l).len() > 0 {
            Phase::AwaitDaemonPayload
        } else {
            Phase::AwaitWorkerExit
        },
        None => Phase::AwaitWorkerExit,
    }
}

/// The phase after the daemon's payload (`None`: not a JSON object).
pub open spec fn daemon_payload_phase(rec: Option<Seq<(Key, FieldV)>>) -> Phase {
    match rec {
        Some(s) => if response_of(s) is Some {
            Phase::Done
        } else {
            Phase::AwaitWorkerExit
        },
        None => Phase::AwaitWorkerExit,
    }
}

pub open spec fn opt_record(rec: Option<Record>) -> Option<Seq<(Key, FieldV)>> {
    match rec {
        Some(r) => Some(record_view(r@)),
        None => None,
    }
}

/// Finds the last structured line.
pub fn find_structured(lines: &Vec<String>) -> (r: Option<usize>)
    ensures
        match r {
            Some(k) => k < lines@.len() && last_structured(texts(lines@)) == Some(k as int),
            None => last_structured(texts(lines@)) is None,
        },
{
    let ghost ls = texts(lines@);
    let mut k: usize = lines.len();
    assert(ls.subrange(0, k as int) =~= ls);
    while k > 0
        invariant
            k <= lines@.len(),
            ls == texts(lines@),
            last_structured(ls) == last_structured(ls.subrange(0, k as int)),
        decreases k,
    {
        let chars = chars_of(lines[k - 1].as_str());
        let a = lead_end(&chars);
        let ghost pre = ls.subrange(0, k as int);
        assert(pre.last() == chars@);
        if a < chars.len() && chars[a] == '{' {
            return Some(k - 1);
        }
        assert(pre.drop_last() =~= ls.subrange(0, k as int - 1));
        k = k - 1;
    }
    None
}

/// The text of lines joined with line feeds, trimmed.
pub fn joined_trimmed(lines: &Vec<String>) -> (r: String)
    ensures
        r@ == trimmed(join_lines(texts(lines@))),
{
    let mut s = String::new();
    let mut k: usize = 0;
    while k < lines.len()
        invariant
            k <= lines@.len(),
            s@ == join_lines(texts(lines@).subrange(0, k as int)),
        decreases lines@.len() - k,
    {
        if k > 0 {
            push_text(&mut s, "\n");
        }
        push_text(&mut s, lines[k].as_str());
        proof {
            reveal_strlit("\n");
            let ts = texts(lines@).subrange(0, k as int + 1);
            assert(ts.drop_last() =~= texts(lines@).subrange(0, k as int));
        }
        k = k + 1;
    }
    assert(texts(lines@).subrange(0, lines@.len() as int) =~= texts(lines@));
    string_of_chars(&trim_chars(&chars_of(s.as_str())))
}

impl Dispatcher {
    pub fn new() -> (d: Dispatcher)
        ensures
            d.phase == Phase::Start,
    {
        Dispatcher { phase: Phase::Start }
    }

    /// Chooses the first path: the daemon unless it is not to be used.
    pub fn begin(&mut self, use_daemon: bool) -> (a: Action)
        requires
            old(self).phase == Phase::Start,
        ensures
            use_daemon ==> a is AskDaemon && final(self).phase == Phase::AwaitDaemonLine,
            !use_daemon ==> a is RunWorker && final(self).phase == Phase::AwaitWorkerExit,
    {
        if use_daemon {
            self.phase = Phase::AwaitDaemonLine;
            Action::AskDaemon
        } else {
            self.phase = Phase::AwaitWorkerExit;
            Action::RunWorker
        }
    }

    /// Takes the daemon's reply line, or `None` when the socket was absent,
    /// refused, timed out or broke. An empty reply falls back as well.
    pub fn on_daemon_line(&mut self, line: Option<String>) -> (a: Action)
        requires
            old(self).phase == Phase::AwaitDaemonLine,
        ensures
            final(self).phase == daemon_line_phase(opt_view(line)),
            final(self).phase == Phase::AwaitWorkerExit ==> a is RunWorker,
            final(self).phase == Phase::AwaitDaemonPayload ==> a is ParseDaemonPayload
                && a->ParseDaemonPayload_0@ == trimmed(line->0@),
    {
        match line {
            Some(l) => {
                let t = trim_chars(&chars_of(l.as_str()));
                if t.len() > 0 {
                    self.phase = Phase::AwaitDaemonPayload;
                    Action::ParseDaemonPayload(string_of_chars(&t))
                } else {
                    self.phase = Phase::AwaitWorkerExit;
                    Action::RunWorker
                }
            },
            None => {
                self.phase = Phase::AwaitWorkerExit;
                Action::RunWorker
            },
        }
    }

    /// Takes the daemon's parsed payload, or `None` when it was not a JSON
    /// object. A payload that describes no response falls back too.
    pub fn on_daemon_payload(&mut self, rec: Option<Record>) -> (a: Action)
        requires
            old(self).phase == Phase::AwaitDaemonPayload,
        ensures
            final(self).phase == daemon_payload_phase(opt_record(rec)),
            final(self).phase == Phase::AwaitWorkerExit ==> a is RunWorker,
            final(self).phase == Phase::Done ==> a is Deliver && a->Deliver_0 == Source::Daemon
                && Some(a->Deliver_1@) == response_of(record_view(rec->0@)),
    {
        match rec {
            Some(r) => match decode_response(&r) {
                Some(resp) => {
                    self.phase = Phase::Done;
                    Action::Deliver(Source::Daemon, resp)
                },
                None => {
                    self.phase = Phase::AwaitWorkerExit;
                    Action::RunWorker
                },
            },
            None => {
                self.phase = Phase::AwaitWorkerExit;
                Action::RunWorker
            },
        }
    }

    /// Takes how the worker exited and the lines it printed on its standard
    /// output and standard error, once both were drained.
    pub fn on_worker_exit(&mut self, success: bool, stdout: &Vec<String>, stderr: &Vec<String>) -> (a: Action)
        requires
            old(self).phase == Phase::AwaitWorkerExit,
        ensures
            !success ==> final(self).phase == Phase::Done && a is Fail
                && a->Fail_0 is WorkerFailure && a->Fail_0->WorkerFailure_0@ == trimmed(
                join_lines(texts(stderr@)),
            ),
            success && last_structured(texts(stdout@)) is None ==> final(self).phase
                == Phase::Done && a is Fail && a->Fail_0 is NoStructuredOutput,
            success && last_structured(texts(stdout@)) is Some ==> final(self).phase
                == Phase::AwaitWorkerPayload && a is ParseWorkerPayload
                && a->ParseWorkerPayload_0@ == trimmed(
                texts(stdout@)[last_structured(texts(stdout@))->0],
            ),
    {
        if !success {
            self.phase = Phase::Done;
            return Action::Fail(DispatchError::WorkerFailure(joined_trimmed(stderr)));
        }
        match find_structured(stdout) {
            Some(k) => {
                let t = trim_chars(&chars_of(stdout[k].as_str()));
                self.phase = Phase::AwaitWorkerPayload;
                Action::ParseWorkerPayload(string_of_chars(&t))
            },
            None => {
                self.phase = Phase::Done;
                Action::Fail(DispatchError::NoStructuredOutput)
            },
        }
    }

    /// Takes the worker's parsed payload, or `None` when it was not a JSON
    /// object.
    pub fn on_worker_payload(&mut self, rec: Option<Record>) -> (a: Action)
        requires
            old(self).phase == Phase::AwaitWorkerPayload,
        ensures
            final(self).phase == Phase::Done,
            match opt_record(rec) {
                Some(s) => match response_of(s) {
                    Some(v) => a is Deliver && a->Deliver_0 == Source::Subprocess
                        && a->Deliver_1@ == v,
                    None => a is Fail && a->Fail_0 is MalformedResponse,
                },
                None => a is Fail && a->Fail_0 is MalformedResponse,
            },
    {
        self.phase = Phase::Done;
        match rec {
            Some(r) => match decode_response(&r) {
                Some(resp) => Action::Deliver(Source::Subprocess, resp),
                None => Action::Fail(DispatchError::MalformedResponse),
            },
            None => Action::Fail(DispatchError::MalformedResponse),
        }
    }
}

/// A daemon that is absent, refuses the connection, times out, answers with
/// an empty line or with anything that is not a response sends the request
/// down the subprocess path; none of these ends the dispatch with an error.
pub proof fn lemma_daemon_failure_falls_back(
    line: Option<Seq<char>>,
    rec: Option<Seq<(Key, FieldV)>>,
)
    ensures
        daemon_line_phase(None) == Phase::AwaitWorkerExit,
        line is Some && trimmed(line->0).len() == 0 ==> daemon_line_phase(line)
            == Phase::AwaitWorkerExit,
        rec is None || response_of(rec->0) is None ==> daemon_payload_phase(rec)
            == Phase::AwaitWorkerExit,
        daemon_line_phase(line) != Phase::Done,
{
}

} // verus!
