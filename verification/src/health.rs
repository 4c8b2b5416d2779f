//! Health-check decisions and the per-check polling engine.
//!
//! Probing a machine is I/O and happens outside this library; what is
//! verified here is every decision around it. [`check_health`] judges one
//! observation of the network or of a process against a check's
//! expectations. [`CheckEngine`] is the state machine of one polling check:
//! `Waiting → Running → {Healthy | TimedOut}`, where the timeout budget is
//! examined at every loop head before an attempt is made, and a failed
//! attempt only means "not healthy yet".

use vstd::prelude::*;

use crate::config::{CheckView, HealthCheck};

verus! {

/// Whether `pattern` is a syntactically valid regular expression. Only
/// `regex_matches` gives this name meaning.
pub uninterp spec fn regex_valid(pattern: Seq<char>) -> bool;

/// Whether `pattern` has a match inside `text`. Only `regex_matches` gives
/// this name meaning.
pub uninterp spec fn regex_match(pattern: Seq<char>, text: Seq<char>) -> bool;

/// Whether `pattern` compiles and has a match inside `text`; none when the
/// pattern does not compile.
///
/// Relies on regex::Regex::new and regex::Regex::is_match: compilation
/// succeeds or fails on the pattern alone, and matching is a function of
/// pattern and haystack alone; `regex_valid` and `regex_match` name those
/// two outcomes.
#[verifier::external_body]
fn regex_matches(pattern: &str, text: &str) -> (r: Option<bool>)
    ensures
        r is Some <==> regex_valid(pattern@),
        r matches Some(m) ==> m == regex_match(pattern@, text@),
{
    match regex::Regex::new(pattern) {
        Ok(re) => Some(re.is_match(text)),
        Err(_) => None,
    }
}

/// One observation of the outside world, handed back by whatever performed
/// a check's probe.
pub enum ProbeReply {
    /// The HTTP request got a response; `body` carries the response text
    /// when it was fetched and could be read.
    HttpReply { status: u16, body: Option<String> },
    /// The HTTP request could not be made.
    HttpFailed,
    /// The TCP connection was established.
    PortConnected,
    /// The TCP connection could not be established.
    PortUnreachable,
    /// The shell command ran; `code` is its exit code, if it exited with
    /// one.
    ShellDone { code: Option<i32>, stdout: String },
    /// The shell command could not be run.
    ShellFailed,
}

/// Mathematical image of a [`ProbeReply`].
pub enum ReplyView {
    HttpReply { status: u16, body: Option<Seq<char>> },
    HttpFailed,
    PortConnected,
    PortUnreachable,
    ShellDone { code: Option<i32>, stdout: Seq<char> },
    ShellFailed,
}

impl View for ProbeReply {
    type V = ReplyView;

    open spec fn view(&self) -> ReplyView {
        match self {
            ProbeReply::HttpReply { status, body } => ReplyView::HttpReply {
                status: *status,
                body: body.deep_view(),
            },
            ProbeReply::HttpFailed => ReplyView::HttpFailed,
            ProbeReply::PortConnected => ReplyView::PortConnected,
            ProbeReply::PortUnreachable => ReplyView::PortUnreachable,
            ProbeReply::ShellDone { code, stdout } => ReplyView::ShellDone {
                code: *code,
                stdout: stdout@,
            },
            ProbeReply::ShellFailed => ReplyView::ShellFailed,
        }
    }
}

/// What one attempt of `check` concludes from the observation `reply`: an
/// HTTP response must bear the expected status (when one is named) and its
/// body must contain a match of the pattern (when one is named); a port
/// check asks only that the connection was made; a shell command must exit
/// with the expected code (when one is named) and its output must contain
/// a match of the pattern (when one is named). A failed probe, and an
/// observation of the wrong kind, count as not healthy.
pub open spec fn health_decision(check: CheckView, reply: ReplyView) -> bool {
    match (check, reply) {
        (
            CheckView::Http { status, regex, .. },
            ReplyView::HttpReply { status: got, body },
        ) => {
            &&& (status matches Some(want) ==> got == want)
            &&& (regex matches Some(pat) ==> body matches Some(text) && regex_valid(pat)
                && regex_match(pat, text))
        },
        (CheckView::Port { .. }, ReplyView::PortConnected) => true,
        (
            CheckView::Shell { status, regex, .. },
            ReplyView::ShellDone { code, stdout },
        ) => {
            &&& (status matches Some(want) ==> code == Some(want))
            &&& (regex matches Some(pat) ==> regex_valid(pat) && regex_match(pat, stdout))
        },
        _ => false,
    }
}

/// Judges one observation against a check's expectations.
pub fn check_health(check: &HealthCheck, reply: &ProbeReply) -> (healthy: bool)
    ensures
        healthy == health_decision(check@, reply@),
{
    match (check, reply) {
        (
            HealthCheck::Http { status, regex, .. },
            ProbeReply::HttpReply { status: got, body },
        ) => {
            if let Some(want) = status {
                if *got != *want {
                    return false;
                }
            }
            if let Some(pat) = regex {
                match body {
                    Some(text) => regex_matches(pat.as_str(), text.as_str()) == Some(true),
                    None => false,
                }
            } else {
                true
            }
        },
        (HealthCheck::Port { .. }, ProbeReply::PortConnected) => true,
        (
            HealthCheck::Shell { status, regex, .. },
            ProbeReply::ShellDone { code, stdout },
        ) => {
            if let Some(want) = status {
                if *code != Some(*want) {
                    return false;
                }
            }
            if let Some(pat) = regex {
                regex_matches(pat.as_str(), stdout.as_str()) == Some(true)
            } else {
                true
            }
        },
        _ => false,
    }
}

/// The retry interval of a check: how long, in milliseconds, to wait after
/// a failed attempt before the next one.
pub fn check_wait(check: &HealthCheck) -> (ms: u64)
    ensures
        ms == match check@ {
            CheckView::Http { retry, .. } => retry,
            CheckView::Port { retry, .. } => retry,
            CheckView::Shell { retry, .. } => retry,
        },
{
    match check {
        HealthCheck::Http { retry, .. } => *retry,
        HealthCheck::Port { retry, .. } => *retry,
        HealthCheck::Shell { retry, .. } => *retry,
    }
}

/// The polling timeout of a check, in milliseconds.
pub fn check_timeout(check: &HealthCheck) -> (ms: u64)
    ensures
        ms == match check@ {
            CheckView::Http { timeout, .. } => timeout,
            CheckView::Port { timeout, .. } => timeout,
            CheckView::Shell { timeout, .. } => timeout,
        },
{
    match check {
        HealthCheck::Http { timeout, .. } => *timeout,
        HealthCheck::Port { timeout, .. } => *timeout,
        HealthCheck::Shell { timeout, .. } => *timeout,
    }
}

/// Whether one attempt of `check` needs the HTTP response body: only an
/// HTTP check with a body pattern reads it.
pub fn check_wants_body(check: &HealthCheck) -> (r: bool)
    ensures
        r == (check@ matches CheckView::Http { regex, .. } && regex is Some),
{
    match check {
        HealthCheck::Http { regex, .. } => regex.is_some(),
        _ => false,
    }
}

/// State of one polling check.
#[derive(Clone, Copy, PartialEq, Eq, Structural, Debug)]
pub enum CheckStatus {
    /// Not yet started.
    Waiting,
    /// Started; attempts are being made.
    Running,
    /// An attempt succeeded within the budget.
    Healthy,
    /// The budget ran out before any attempt succeeded.
    TimedOut,
}

/// The state machine of one polling check. The driver starts it, then
/// before every attempt hands in the elapsed time: once the budget is
/// spent the check times out, without interrupting any attempt already in
/// progress; otherwise an attempt is made, and a failed attempt only
/// schedules the next one after the retry interval.
pub struct CheckEngine {
    /// Budget in milliseconds, measured from `start`.
    pub timeout_ms: u64,
    /// Pause between a failed attempt and the next attempt.
    pub retry_ms: u64,
    /// Where the check stands.
    pub status: CheckStatus,
}

impl CheckEngine {
    /// A fresh engine for `check`, not yet started.
    pub fn new(check: &HealthCheck) -> (e: CheckEngine)
        ensures
            e.status is Waiting,
            e.timeout_ms == match check@ {
                CheckView::Http { timeout, .. } => timeout,
                CheckView::Port { timeout, .. } => timeout,
                CheckView::Shell { timeout, .. } => timeout,
            },
            e.retry_ms == match check@ {
                CheckView::Http { retry, .. } => retry,
                CheckView::Port { retry, .. } => retry,
                CheckView::Shell { retry, .. } => retry,
            },
    {
        CheckEngine { timeout_ms: check_timeout(check), retry_ms: check_wait(check), status: CheckStatus::Waiting }
    }

    /// Begins polling: the moment the start timestamp is recorded.
    pub fn start(&mut self)
        requires
            old(self).status is Waiting,
        ensures
            final(self).status is Running,
            final(self).timeout_ms == old(self).timeout_ms,
            final(self).retry_ms == old(self).retry_ms,
    {
        self.status = CheckStatus::Running;
    }

    /// Examines the budget at a loop head. Returns whether an attempt may
    /// be made: once `elapsed_ms` reaches the budget the check is timed
    /// out, whatever any attempt in flight would have found.
    pub fn poll(&mut self, elapsed_ms: u64) -> (attempt: bool)
        requires
            old(self).status is Running,
        ensures
            attempt == (elapsed_ms < old(self).timeout_ms),
            final(self).status == if attempt {
                CheckStatus::Running
            } else {
                CheckStatus::TimedOut
            },
            final(self).timeout_ms == old(self).timeout_ms,
            final(self).retry_ms == old(self).retry_ms,
    {
        if elapsed_ms >= self.timeout_ms {
            self.status = CheckStatus::TimedOut;
            false
        } else {
            true
        }
    }

    /// Records what one attempt found. A healthy attempt settles the check;
    /// an unhealthy one leaves it running, to be retried after
    /// `retry_ms`.
    pub fn record_attempt(&mut self, healthy: bool) -> (settled: bool)
        requires
            old(self).status is Running,
        ensures
            settled == healthy,
            final(self).status == if healthy {
                CheckStatus::Healthy
            } else {
                CheckStatus::Running
            },
            final(self).timeout_ms == old(self).timeout_ms,
            final(self).retry_ms == old(self).retry_ms,
    {
        if healthy {
            self.status = CheckStatus::Healthy;
            true
        } else {
            false
        }
    }

    /// Whether the check has reached a terminal state.
    pub fn settled(&self) -> (r: bool)
        ensures
            r == (self.status is Healthy || self.status is TimedOut),
    {
        match self.status {
            CheckStatus::Healthy => true,
            CheckStatus::TimedOut => true,
            _ => false,
        }
    }
}

} // verus!
