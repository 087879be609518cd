use vstd::prelude::*;
use crate::text::{chars_of, char_lines, lines_of, split_lines, string_of_chars, trim_chars, trimmed};
use crate::vocab::texts;

verus! {

/// How many times `start` looks for the socket file, a second apart,
/// before it gives up.
pub const START_POLLS: u32 = 240;

/// How many log lines `logs` shows when not told otherwise.
pub const DEFAULT_LOG_LINES: usize = 80;

/// The daemon as the persisted files and a fresh liveness probe show it.
#[derive(Clone, Copy, Debug, PartialEq, Eq, Structural)]
pub struct DaemonState {
    /// The process id recorded in the PID file, if it holds one.
    pub pid: Option<u32>,
    /// Whether a liveness probe of that process id succeeded.
    pub alive: bool,
}

impl DaemonState {
    /// Only a recorded process that answers the probe counts as running.
    pub open spec fn running(self) -> bool {
        self.pid is Some && self.alive
    }

    /// Builds the state from the recorded pid and the probe's answer; with
    /// no pid recorded there is nothing to probe.
    pub fn observe(pid: Option<u32>, probe_ok: bool) -> (s: DaemonState)
        ensures
            s.pid == pid,
            s.alive == (pid is Some && probe_ok),
    {
        DaemonState { pid, alive: pid.is_some() && probe_ok }
    }

    pub fn is_running(&self) -> (r: bool)
        ensures
            r == self.running(),
    {
        self.pid.is_some() && self.alive
    }
}

/// The state while a freshly launched daemon lives.
pub open spec fn after_launch(child: u32) -> DaemonState {
    DaemonState { pid: Some(child), alive: true }
}

/// The state once `stop` has removed the PID file.
pub open spec fn after_stop() -> DaemonState {
    DaemonState { pid: None, alive: false }
}

/// The state once the recorded process has died without `stop`.
pub open spec fn after_crash(s: DaemonState) -> DaemonState {
    DaemonState { pid: s.pid, alive: false }
}

/// Failures of the supervisor's commands.
#[derive(Clone, Copy, Debug, PartialEq, Eq, Structural)]
pub enum SupervisorError {
    DaemonStartTimeout,
    StopSignalFailed(u32),
    NotRunning,
    LogFileUnavailable,
}

/// What `start` does first.
#[derive(Clone, Copy, Debug, PartialEq, Eq, Structural)]
pub enum StartStep {
    /// A live daemon holds the PID file: nothing to do.
    AlreadyRunning,
    /// Create the directories, remove a stale socket file, spawn the
    /// server, record its pid, then poll for the socket.
    Launch,
}

pub open spec fn start_step(s: DaemonState) -> StartStep {
    if s.running() {
        StartStep::AlreadyRunning
    } else {
        StartStep::Launch
    }
}

pub fn plan_start(s: &DaemonState) -> (r: StartStep)
    ensures
        r == start_step(*s),
{
    if s.is_running() {
        StartStep::AlreadyRunning
    } else {
        StartStep::Launch
    }
}

/// What `start` does after one look for the socket file.
#[derive(Clone, Copy, Debug, PartialEq, Eq, Structural)]
pub enum PollStep {
    Ready,
    Wait,
}

/// Decides after look number `looks` (counting from zero) whether the
/// daemon is up, whether to wait and look again, or whether start failed.
pub fn poll_start(socket_present: bool, looks: u32) -> (r: Result<PollStep, SupervisorError>)
    ensures
        socket_present ==> r == Ok::<PollStep, SupervisorError>(PollStep::Ready),
        !socket_present && looks + 1 < START_POLLS ==> r == Ok::<PollStep, SupervisorError>(
            PollStep::Wait,
        ),
        !socket_present && looks + 1 >= START_POLLS ==> r == Err::<PollStep, SupervisorError>(
            SupervisorError::DaemonStartTimeout,
        ),
{
    if socket_present {
        Ok(PollStep::Ready)
    } else if looks < START_POLLS - 1 {
        Ok(PollStep::Wait)
    } else {
        Err(SupervisorError::DaemonStartTimeout)
    }
}

/// What `stop` does: signal the recorded process if it is alive, then
/// remove the PID file and the socket file in every case.
#[derive(Clone, Copy, Debug, PartialEq, Eq, Structural)]
pub struct StopPlan {
    pub signal: Option<u32>,
    pub remove_pidfile: bool,
    pub remove_socket: bool,
}

pub open spec fn stop_plan(s: DaemonState) -> StopPlan {
    StopPlan {
        signal: if s.running() {
            s.pid
        } else {
            None
        },
        remove_pidfile: true,
        remove_socket: true,
    }
}

pub fn plan_stop(s: &DaemonState) -> (r: StopPlan)
    ensures
        r == stop_plan(*s),
{
    let signal = if s.is_running() {
        s.pid
    } else {
        None
    };
    StopPlan { signal, remove_pidfile: true, remove_socket: true }
}

/// How `stop` ended.
#[derive(Clone, Copy, Debug, PartialEq, Eq, Structural)]
pub enum StopReport {
    Stopped,
    WasNotRunning,
}

pub open spec fn stop_outcome(plan: StopPlan, signal_ok: bool) -> Result<StopReport, SupervisorError> {
    match plan.signal {
        None => Ok(StopReport::WasNotRunning),
        Some(pid) => if signal_ok {
            Ok(StopReport::Stopped)
        } else {
            Err(SupervisorError::StopSignalFailed(pid))
        },
    }
}

/// The result of `stop`, given whether the signal (if one was sent) went out.
pub fn finish_stop(plan: &StopPlan, signal_ok: bool) -> (r: Result<StopReport, SupervisorError>)
    ensures
        r == stop_outcome(*plan, signal_ok),
{
    match plan.signal {
        None => Ok(StopReport::WasNotRunning),
        Some(pid) => if signal_ok {
            Ok(StopReport::Stopped)
        } else {
            Err(SupervisorError::StopSignalFailed(pid))
        },
    }
}

pub open spec fn status_of(s: DaemonState) -> Result<(), SupervisorError> {
    if s.running() {
        Ok(())
    } else {
        Err(SupervisorError::NotRunning)
    }
}

/// `status`: success when running, `NotRunning` otherwise, for scripts.
pub fn status(s: &DaemonState) -> (r: Result<(), SupervisorError>)
    ensures
        r == status_of(*s),
{
    if s.is_running() {
        Ok(())
    } else {
        Err(SupervisorError::NotRunning)
    }
}

/// The state once `start` has succeeded: the live daemon it found, or the
/// one it launched.
pub open spec fn after_start(s: DaemonState, child: u32) -> DaemonState {
    if s.running() {
        s
    } else {
        after_launch(child)
    }
}

/// Starting twice in a row spawns once: after a successful start, the next
/// start finds the daemon running and launches nothing.
pub proof fn lemma_start_idempotent(s: DaemonState, child: u32)
    ensures
        start_step(after_start(s, child)) == StartStep::AlreadyRunning,
{
}

/// Stopping a daemon that is not running signals nothing, still removes
/// the PID and socket files, and succeeds whatever happens.
pub proof fn lemma_stop_not_running(s: DaemonState, signal_ok: bool)
    requires
        !s.running(),
    ensures
        stop_plan(s) == (StopPlan { signal: None, remove_pidfile: true, remove_socket: true }),
        stop_outcome(stop_plan(s), signal_ok) == Ok::<StopReport, SupervisorError>(
            StopReport::WasNotRunning,
        ),
{
}

/// Status reports running after a successful start, and not running after
/// stop or once the recorded process has died.
pub proof fn lemma_status_follows_lifecycle(s: DaemonState, child: u32)
    ensures
        status_of(after_start(s, child)) == Ok::<(), SupervisorError>(()),
        status_of(after_stop()) == Err::<(), SupervisorError>(SupervisorError::NotRunning),
        status_of(after_crash(s)) == Err::<(), SupervisorError>(SupervisorError::NotRunning),
{
}

/// Whether every character is an ASCII digit.
pub open spec fn all_digits(s: Seq<char>) -> bool {
    forall|i: int| 0 <= i < s.len() ==> '0' <= #[trigger] s[i] <= '9'
}

/// The number that a string of decimal digits denotes.
pub open spec fn digits_value(s: Seq<char>) -> nat
    decreases s.len(),
{
    if s.len() == 0 {
        0
    } else {
        10 * digits_value(s.drop_last()) + (s.last() as nat - '0' as nat) as nat
    }
}

/// A process id as the PID file holds it, after trimming: an optional `+`
/// and one or more decimal digits, at most `u32::MAX`, as `u32::from_str`
/// reads it.
pub open spec fn pid_of(t: Seq<char>) -> Option<u32> {
    let d = if t.len() > 0 && t[0] == '+' {
        t.drop_first()
    } else {
        t
    };
    if d.len() > 0 && all_digits(d) && digits_value(d) <= u32::MAX {
        Some(digits_value(d) as u32)
    } else {
        None
    }
}

proof fn lemma_digits_value_grows(s: Seq<char>, i: int)
    requires
        0 <= i <= s.len(),
        all_digits(s),
    ensures
        digits_value(s.subrange(0, i)) <= digits_value(s),
    decreases s.len() - i,
{
    if i < s.len() {
        lemma_digits_value_grows(s, i + 1);
        assert(s.subrange(0, i + 1).drop_last() =~= s.subrange(0, i));
    } else {
        assert(s.subrange(0, i) =~= s);
    }
}

/// Reads the PID file's text: the process id it records, if any.
pub fn parse_pid(raw: &String) -> (r: Option<u32>)
    ensures
        r == pid_of(trimmed(raw@)),
{
    let t = trim_chars(&chars_of(raw.as_str()));
    let n = t.len();
    let mut i: usize = 0;
    if n > 0 && t[0] == '+' {
        i = 1;
    }
    let start = i;
    let ghost d = t@.subrange(start as int, n as int);
    assert(d =~= (if t@.len() > 0 && t@[0] == '+' {
        t@.drop_first()
    } else {
        t@
    }));
    if start == n {
        return None;
    }
    let mut acc: u64 = 0;
    while i < n
        invariant
            start <= i <= n == t@.len(),
            d == t@.subrange(start as int, n as int),
            d == (if t@.len() > 0 && t@[0] == '+' {
                t@.drop_first()
            } else {
                t@
            }),
            d.len() > 0,
            t@ == trimmed(raw@),
            acc == digits_value(d.subrange(0, i - start)),
            acc <= u32::MAX,
            all_digits(d.subrange(0, i - start)),
        decreases n - i,
    {
        let c = t[i];
        if !('0' <= c && c <= '9') {
            assert(d[i - start] == c);
            assert(!('0' <= d[i - start] <= '9'));
            assert(!all_digits(d));
            assert(pid_of(t@) is None);
            return None;
        }
        let ghost pre = d.subrange(0, i - start);
        let ghost next = d.subrange(0, i - start + 1);
        assert(next.drop_last() =~= pre);
        assert(next.last() == c);
        acc = acc * 10 + (c as u64 - '0' as u64);
        assert(acc == digits_value(next));
        i = i + 1;
        assert(all_digits(next)) by {
            assert forall|k: int| 0 <= k < next.len() implies '0' <= #[trigger] next[k] <= '9' by {
                if k < pre.len() {
                    assert(next[k] == pre[k]);
                }
            }
        }
        if acc > u32::MAX as u64 {
            proof {
                if all_digits(d) {
                    lemma_digits_value_grows(d, i - start);
                }
            }
            assert(pid_of(t@) is None);
            return None;
        }
    }
    assert(d.subrange(0, n - start) =~= d);
    Some(acc as u32)
}

/// The last `n` elements of a list, or all of it when it is shorter.
pub open spec fn last_n<A>(s: Seq<A>, n: nat) -> Seq<A> {
    if s.len() <= n {
        s
    } else {
        s.subrange(s.len() - n, s.len() as int)
    }
}

/// `logs`: the last `n` lines of the log file's text.
pub fn tail_lines(content: &String, n: usize) -> (r: Vec<String>)
    ensures
        texts(r@) == last_n(lines_of(content@), n as nat),
{
    let lines = split_lines(&chars_of(content.as_str()));
    let len = lines.len();
    let start: usize = if len > n {
        len - n
    } else {
        0
    };
    let mut out: Vec<String> = Vec::new();
    let mut k: usize = start;
    while k < len
        invariant
            start <= k <= len == lines@.len(),
            texts(out@) == char_lines(lines@).subrange(start as int, k as int),
        decreases len - k,
    {
        let s = string_of_chars(&lines[k]);
        let ghost before = out@;
        out.push(s);
        assert(texts(out@) =~= texts(before).push(s@));
        assert(texts(out@) =~= char_lines(lines@).subrange(start as int, k as int + 1));
        k = k + 1;
    }
    assert(char_lines(lines@).subrange(0, len as int) =~= char_lines(lines@));
    out
}

} // verus!
