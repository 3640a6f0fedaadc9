//! Daemon supervision decisions: the liveness check over the marker file,
//! the choice among candidate daemon locations, and the bounded readiness
//! poll. The surrounding binary performs the probes, the launch and the
//! sleeps, and feeds every observed fact back in.

use vstd::prelude::*;
use vstd::string::StringExecFns;
use crate::strutil::opt_str_view;
use crate::strutil::spec_parse_i32;
use crate::strutil::spec_trim;
use crate::strutil::parse_i32;
use crate::strutil::trim;

verus! {

pub const POLL_LIMIT: u64 = 50;

pub const POLL_INTERVAL_MS: u64 = 100;

/// A terminal supervision failure: no candidate daemon entry point found,
/// or the socket never appeared within the bounded poll.
#[derive(Debug, Clone, Copy, PartialEq, Eq, Structural)]
pub enum SupError {
    DaemonNotFound,
    StartTimeout,
}

impl SupError {
    /// The diagnostic line for this failure.
    pub fn message(&self) -> (r: String)
        ensures
            *self == SupError::DaemonNotFound ==> r@
                == "Daemon not found. Run from project directory or ensure daemon.js is alongside binary."@,
            *self == SupError::StartTimeout ==> r@ == "Daemon failed to start"@,
    {
        match self {
            SupError::DaemonNotFound => String::from_str(
                "Daemon not found. Run from project directory or ensure daemon.js is alongside binary.",
            ),
            SupError::StartTimeout => String::from_str("Daemon failed to start"),
        }
    }
}

/// The process id the liveness check should probe: present exactly when
/// the marker file was read and its trimmed contents parse as a decimal
/// process id.
pub open spec fn spec_probe_target(marker: Option<Seq<char>>) -> Option<i32> {
    match marker {
        None => None,
        Some(s) => spec_parse_i32(spec_trim(s)),
    }
}

/// Decides what the liveness check probes. `marker` is the marker file's
/// contents, `None` when the file is absent or unreadable; no probe target
/// is produced in that case.
pub fn liveness_probe_target(marker: &Option<String>) -> (r: Option<i32>)
    ensures
        r == spec_probe_target(opt_str_view(*marker)),
{
    match marker {
        None => None,
        Some(s) => parse_i32(trim(s.as_str())),
    }
}

/// An absent marker file settles the liveness check at once: nothing is
/// probed.
pub proof fn lemma_absent_marker_no_probe(marker: Option<Seq<char>>)
    requires
        marker is None,
    ensures
        spec_probe_target(marker) is None,
{
}

/// The warm fast path is taken exactly when the probed process exists and
/// the socket path is present on the filesystem.
pub fn already_reachable(probe_ok: bool, socket_exists: bool) -> (r: bool)
    ensures
        r == (probe_ok && socket_exists),
{
    probe_ok && socket_exists
}

/// Picks the daemon entry point among the fixed ordered candidates, given
/// which of them exist: the first existing one wins, and none existing is
/// the non-retryable location failure.
pub fn choose_candidate(exists: &Vec<bool>) -> (r: Option<usize>)
    ensures
        match r {
            Some(i) => i < exists@.len() && exists@[i as int] && forall|j: int|
                0 <= j < i ==> !exists@[j],
            None => forall|j: int| 0 <= j < exists@.len() ==> !exists@[j],
        },
{
    let mut i: usize = 0;
    while i < exists.len()
        invariant
            i <= exists@.len(),
            forall|j: int| 0 <= j < i ==> !exists@[j],
        decreases exists@.len() - i,
    {
        if exists[i] {
            return Some(i);
        }
        i += 1;
    }
    None
}

/// One decision of the bounded readiness poll.
#[derive(Debug, Clone, Copy, PartialEq, Eq, Structural)]
pub enum PollStep {
    /// The socket appeared: the daemon is reachable.
    Ready,
    /// Wait one fixed interval, then poll again as this attempt.
    Wait { next_attempt: u64 },
    /// The ceiling was reached with no socket: the startup failure.
    GiveUp,
}

pub open spec fn spec_poll_step(attempt: u64, socket_exists: bool) -> PollStep {
    if socket_exists {
        PollStep::Ready
    } else if attempt + 1 < POLL_LIMIT {
        PollStep::Wait { next_attempt: (attempt + 1) as u64 }
    } else {
        PollStep::GiveUp
    }
}

/// One step of the readiness poll, at 0-based `attempt`: the socket's
/// appearance ends the poll at once; otherwise the caller sleeps one fixed
/// interval and retries while attempts remain, and gives up at the fixed
/// ceiling.
pub fn poll_step(attempt: u64, socket_exists: bool) -> (r: PollStep)
    requires
        attempt < POLL_LIMIT,
    ensures
        r == spec_poll_step(attempt, socket_exists),
{
    if socket_exists {
        PollStep::Ready
    } else if attempt + 1 < POLL_LIMIT {
        PollStep::Wait { next_attempt: attempt + 1 }
    } else {
        PollStep::GiveUp
    }
}

/// How many socket checks a poll run makes from `attempt` on, when
/// `obs[i]` says whether the socket exists at attempt `i`; the run follows
/// `spec_poll_step` at every step.
pub open spec fn spec_polls_used(obs: Seq<bool>, attempt: int) -> int
    decreases POLL_LIMIT - attempt,
{
    if attempt < 0 || attempt >= POLL_LIMIT {
        0
    } else if obs[attempt] {
        1
    } else if attempt + 1 < POLL_LIMIT {
        1 + spec_polls_used(obs, attempt + 1)
    } else {
        1
    }
}

/// Whether a poll run from `attempt` ends ready (`true`) or gives up
/// (`false`).
pub open spec fn spec_poll_outcome(obs: Seq<bool>, attempt: int) -> bool
    decreases POLL_LIMIT - attempt,
{
    if attempt < 0 || attempt >= POLL_LIMIT {
        false
    } else if obs[attempt] {
        true
    } else if attempt + 1 < POLL_LIMIT {
        spec_poll_outcome(obs, attempt + 1)
    } else {
        false
    }
}

/// The poll is bounded: from attempt `a`, whatever the socket does, no
/// more checks are made than attempts remain, so a full run makes at most
/// the fixed ceiling of checks.
pub proof fn lemma_poll_bounded(obs: Seq<bool>, a: int)
    requires
        0 <= a < POLL_LIMIT,
    ensures
        1 <= spec_polls_used(obs, a) <= POLL_LIMIT - a,
    decreases POLL_LIMIT - a,
{
    if !obs[a] && a + 1 < POLL_LIMIT {
        lemma_poll_bounded(obs, a + 1);
    }
}

/// When the socket never appears, the poll terminates with the startup
/// failure after exactly the remaining number of attempts — at most the
/// fixed ceiling of checks at the fixed interval.
pub proof fn lemma_poll_never_ready(obs: Seq<bool>, a: int)
    requires
        0 <= a < POLL_LIMIT,
        forall|i: int| a <= i < POLL_LIMIT ==> !obs[i],
    ensures
        !spec_poll_outcome(obs, a),
        spec_polls_used(obs, a) == POLL_LIMIT - a,
    decreases POLL_LIMIT - a,
{
    if a + 1 < POLL_LIMIT {
        lemma_poll_never_ready(obs, a + 1);
    }
}

} // verus!
