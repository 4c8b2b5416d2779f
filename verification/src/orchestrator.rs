//! The orchestrator's state machine.
//!
//! Servers are woken strictly one after another: the frame for a server is
//! built and sent only once every earlier server has been judged healthy,
//! all of a server's checks then run to their own completion (none is
//! cancelled because a sibling settled first), and only when every check
//! has settled is the server's aggregate status pronounced — healthy if no
//! check timed out, timed out otherwise, which aborts the whole run. The
//! driver performs the I/O; every decision is taken here, against the
//! well-formedness invariant [`Orchestrator::wf`].

use vstd::prelude::*;

use crate::config::Server;
use crate::health::CheckStatus;

verus! {

/// Status of one server in the running pipeline.
#[derive(Clone, Copy, PartialEq, Eq, Structural, Debug)]
pub enum ServerStatus {
    /// Not yet reached.
    Waiting,
    /// Its WOL frame has been sent; its checks are running.
    WolSent,
    /// All checks settled and none timed out.
    Healthy,
    /// All checks settled and at least one timed out; the run aborts.
    TimedOut,
}

/// Runtime state of one server: its aggregate status and one slot per
/// health check.
pub struct ServerRun {
    pub status: ServerStatus,
    pub checks: Vec<CheckStatus>,
}

/// Every check of `s` has settled.
pub open spec fn checks_settled(s: ServerRun) -> bool {
    forall|k: int|
        0 <= k < s.checks@.len() ==> (#[trigger] s.checks@[k] is Healthy || s.checks@[k]
            is TimedOut)
}

/// Some check of `s` timed out.
pub open spec fn some_check_timed_out(s: ServerRun) -> bool {
    exists|k: int| 0 <= k < s.checks@.len() && #[trigger] s.checks@[k] is TimedOut
}

/// Every check of `s` settled healthy.
pub open spec fn all_checks_healthy(s: ServerRun) -> bool {
    forall|k: int| 0 <= k < s.checks@.len() ==> #[trigger] s.checks@[k] is Healthy
}

/// Every check of `s` is still waiting.
pub open spec fn all_checks_waiting(s: ServerRun) -> bool {
    forall|k: int| 0 <= k < s.checks@.len() ==> #[trigger] s.checks@[k] is Waiting
}

/// Every check of `s` has at least been started.
pub open spec fn all_checks_started(s: ServerRun) -> bool {
    forall|k: int| 0 <= k < s.checks@.len() ==> !(#[trigger] s.checks@[k] is Waiting)
}

/// What the driver must do next.
pub enum Action {
    /// Build and transmit the WOL frame of this server.
    SendFrame { server: usize },
    /// Run this server's checks and wait for all of them.
    AwaitChecks { server: usize },
    /// Every server settled healthy.
    Done,
    /// This server timed out; no later server is woken.
    Aborted { server: usize },
}

/// The orchestrator: per-server runtime state, the position of the server
/// being worked on, and whether the run has aborted.
pub struct Orchestrator {
    pub servers: Vec<ServerRun>,
    pub next: usize,
    pub failed: bool,
}

impl Orchestrator {
    /// The state machine's invariant: servers before `next` are healthy,
    /// servers after it untouched, and each server's aggregate status is
    /// consistent with its check slots — in particular, an aggregate is
    /// pronounced only over fully settled checks.
    pub open spec fn wf(&self) -> bool {
        &&& self.next <= self.servers@.len()
        &&& forall|j: int|
            0 <= j < self.next ==> (#[trigger] self.servers@[j]).status is Healthy
        &&& forall|j: int|
            self.next < j < self.servers@.len() ==> (#[trigger] self.servers@[j]).status
                is Waiting
        &&& (self.failed ==> self.next < self.servers@.len()
            && self.servers@[self.next as int].status is TimedOut)
        &&& (!self.failed && self.next < self.servers@.len()
            ==> (self.servers@[self.next as int].status is Waiting
                || self.servers@[self.next as int].status is WolSent))
        &&& forall|j: int|
            0 <= j < self.servers@.len() ==> {
                let s = #[trigger] self.servers@[j];
                &&& (s.status is Waiting ==> all_checks_waiting(s))
                &&& (s.status is WolSent ==> all_checks_started(s))
                &&& (s.status is Healthy ==> all_checks_healthy(s))
                &&& (s.status is TimedOut ==> checks_settled(s) && some_check_timed_out(s))
            }
    }

    /// A fresh pipeline over `order`: everything waiting, nothing failed.
    pub fn new(order: &Vec<Server>) -> (o: Orchestrator)
        ensures
            o.wf(),
            o.next == 0,
            !o.failed,
            o.servers@.len() == order@.len(),
            forall|j: int|
                0 <= j < order@.len() ==> (#[trigger] o.servers@[j]).status is Waiting
                    && o.servers@[j].checks@.len() == order@[j].check@.len(),
    {
        let mut servers: Vec<ServerRun> = Vec::new();
        let n = order.len();
        let mut j: usize = 0;
        while j < n
            invariant
                j <= n,
                n == order@.len(),
                servers@.len() == j,
                forall|q: int|
                    0 <= q < j ==> (#[trigger] servers@[q]).status is Waiting
                        && servers@[q].checks@.len() == order@[q].check@.len()
                        && all_checks_waiting(servers@[q]),
            decreases n - j,
        {
            let m = order[j].check.len();
            let mut checks: Vec<CheckStatus> = Vec::new();
            let mut k: usize = 0;
            while k < m
                invariant
                    k <= m,
                    checks@.len() == k,
                    forall|q: int| 0 <= q < k ==> #[trigger] checks@[q] is Waiting,
                decreases m - k,
            {
                checks.push(CheckStatus::Waiting);
                k = k + 1;
            }
            servers.push(ServerRun { status: ServerStatus::Waiting, checks });
            j = j + 1;
        }
        Orchestrator { servers, next: 0, failed: false }
    }

    /// What the driver must do next. A frame is sent for a server only
    /// when every earlier server has been judged healthy.
    pub fn next_action(&self) -> (a: Action)
        requires
            self.wf(),
        ensures
            self.failed <==> a matches Action::Aborted { .. },
            a matches Action::Aborted { server } ==> server == self.next
                && self.servers@[server as int].status is TimedOut,
            (!self.failed && self.next == self.servers@.len()) <==> a is Done,
            a matches Action::SendFrame { server } ==> {
                &&& server == self.next && server < self.servers@.len()
                &&& self.servers@[server as int].status is Waiting
                &&& forall|j: int|
                    0 <= j < server ==> (#[trigger] self.servers@[j]).status is Healthy
            },
            a matches Action::AwaitChecks { server } ==> server == self.next
                && self.servers@[server as int].status is WolSent,
            (!self.failed && self.next < self.servers@.len()
                && self.servers@[self.next as int].status is Waiting) <==> a matches Action::SendFrame { .. },
    {
        if self.failed {
            Action::Aborted { server: self.next }
        } else if self.next == self.servers.len() {
            Action::Done
        } else {
            match self.servers[self.next].status {
                ServerStatus::Waiting => Action::SendFrame { server: self.next },
                _ => Action::AwaitChecks { server: self.next },
            }
        }
    }

    /// Records that the current server's frame went out: the server is
    /// marked `WolSent` and all its check slots start running.
    pub fn frame_sent(&mut self)
        requires
            old(self).wf(),
            !old(self).failed,
            old(self).next < old(self).servers@.len(),
            old(self).servers@[old(self).next as int].status is Waiting,
        ensures
            final(self).wf(),
            final(self).next == old(self).next,
            !final(self).failed,
            final(self).servers@.len() == old(self).servers@.len(),
            final(self).servers@[old(self).next as int].status is WolSent,
            final(self).servers@[old(self).next as int].checks@.len() == old(self).servers@[old(self).next as int].checks@.len(),
            forall|k: int|
                0 <= k < final(self).servers@[old(self).next as int].checks@.len()
                    ==> #[trigger] final(self).servers@[old(self).next as int].checks@[k]
                    is Running,
            forall|j: int|
                0 <= j < old(self).servers@.len() && j != old(self).next
                    ==> #[trigger] final(self).servers@[j] == old(self).servers@[j],
    {
        let i = self.next;
        let m = self.servers[i].checks.len();
        let mut checks: Vec<CheckStatus> = Vec::new();
        let mut k: usize = 0;
        while k < m
            invariant
                k <= m,
                checks@.len() == k,
                forall|q: int| 0 <= q < k ==> #[trigger] checks@[q] is Running,
            decreases m - k,
        {
            checks.push(CheckStatus::Running);
            k = k + 1;
        }
        self.servers.set(i, ServerRun { status: ServerStatus::WolSent, checks });
    }

    /// Records the settlement of one check of the current server — healthy
    /// or timed out. Sibling slots are untouched: no check is cancelled
    /// because this one settled.
    pub fn check_settled(&mut self, check: usize, healthy: bool)
        requires
            old(self).wf(),
            !old(self).failed,
            old(self).next < old(self).servers@.len(),
            old(self).servers@[old(self).next as int].status is WolSent,
            check < old(self).servers@[old(self).next as int].checks@.len(),
            old(self).servers@[old(self).next as int].checks@[check as int] is Running,
        ensures
            final(self).wf(),
            final(self).next == old(self).next,
            !final(self).failed,
            final(self).servers@.len() == old(self).servers@.len(),
            final(self).servers@[old(self).next as int].status is WolSent,
            final(self).servers@[old(self).next as int].checks@ == old(self).servers@[old(self).next as int].checks@.update(
                check as int,
                if healthy {
                    CheckStatus::Healthy
                } else {
                    CheckStatus::TimedOut
                },
            ),
            forall|j: int|
                0 <= j < old(self).servers@.len() && j != old(self).next
                    ==> #[trigger] final(self).servers@[j] == old(self).servers@[j],
    {
        let i = self.next;
        let m = self.servers[i].checks.len();
        let mut checks: Vec<CheckStatus> = Vec::new();
        let mut k: usize = 0;
        while k < m
            invariant
                k <= m,
                check < m,
                i < self.servers@.len(),
                m == self.servers@[i as int].checks@.len(),
                checks@.len() == k,
                forall|q: int|
                    0 <= q < k && q != check ==> #[trigger] checks@[q] == self.servers@[i as int].checks@[q],
                forall|q: int|
                    0 <= q < k && q == check ==> #[trigger] checks@[q] == (if healthy {
                        CheckStatus::Healthy
                    } else {
                        CheckStatus::TimedOut
                    }),
            decreases m - k,
        {
            if k == check {
                if healthy {
                    checks.push(CheckStatus::Healthy);
                } else {
                    checks.push(CheckStatus::TimedOut);
                }
            } else {
                checks.push(self.servers[i].checks[k]);
            }
            k = k + 1;
        }
        proof {
            assert(checks@ =~= self.servers@[i as int].checks@.update(
                check as int,
                if healthy {
                    CheckStatus::Healthy
                } else {
                    CheckStatus::TimedOut
                },
            ));
        }
        self.servers.set(i, ServerRun { status: ServerStatus::WolSent, checks });
    }

    /// Pronounces the current server's aggregate status, once — and only
    /// once — all of its checks have settled: healthy when none timed out,
    /// else timed out, which aborts the run.
    pub fn finalize_server(&mut self) -> (timed_out: bool)
        requires
            old(self).wf(),
            !old(self).failed,
            old(self).next < old(self).servers@.len(),
            old(self).servers@[old(self).next as int].status is WolSent,
            checks_settled(old(self).servers@[old(self).next as int]),
        ensures
            final(self).wf(),
            timed_out == some_check_timed_out(old(self).servers@[old(self).next as int]),
            final(self).servers@.len() == old(self).servers@.len(),
            timed_out ==> final(self).failed && final(self).next == old(self).next && final(self).servers@[old(self).next as int].status is TimedOut,
            !timed_out ==> !final(self).failed && final(self).next == old(self).next + 1 && final(self).servers@[old(self).next as int].status is Healthy,
            final(self).servers@[old(self).next as int].checks@ == old(self).servers@[old(self).next as int].checks@,
            forall|j: int|
                0 <= j < old(self).servers@.len() && j != old(self).next
                    ==> #[trigger] final(self).servers@[j] == old(self).servers@[j],
    {
        let i = self.next;
        let m = self.servers[i].checks.len();
        let mut timed_out = false;
        let mut k: usize = 0;
        while k < m
            invariant
                k <= m,
                i < self.servers@.len(),
                m == self.servers@[i as int].checks@.len(),
                timed_out == exists|q: int|
                    0 <= q < k && #[trigger] self.servers@[i as int].checks@[q] is TimedOut,
            decreases m - k,
        {
            match self.servers[i].checks[k] {
                CheckStatus::TimedOut => {
                    timed_out = true;
                },
                _ => {},
            }
            k = k + 1;
        }
        let mut checks: Vec<CheckStatus> = Vec::new();
        let mut q: usize = 0;
        while q < m
            invariant
                q <= m,
                i < self.servers@.len(),
                m == self.servers@[i as int].checks@.len(),
                checks@.len() == q,
                forall|w: int|
                    0 <= w < q ==> #[trigger] checks@[w] == self.servers@[i as int].checks@[w],
            decreases m - q,
        {
            checks.push(self.servers[i].checks[q]);
            q = q + 1;
        }
        proof {
            assert(checks@ =~= self.servers@[i as int].checks@);
        }
        let n = self.servers.len();
        if timed_out {
            self.servers.set(i, ServerRun { status: ServerStatus::TimedOut, checks });
            self.failed = true;
            true
        } else {
            self.servers.set(i, ServerRun { status: ServerStatus::Healthy, checks });
            assert(i < n);
            self.next = i + 1;
            false
        }
    }
}

/// Fan-in: a server's aggregate status exists only after every one of its
/// checks has settled, and it is `TimedOut` exactly when some check timed
/// out — a lone slow sibling is always awaited, never cancelled.
pub proof fn lemma_fan_in_wait(o: &Orchestrator, i: int)
    requires
        o.wf(),
        0 <= i < o.servers@.len(),
        o.servers@[i].status is Healthy || o.servers@[i].status is TimedOut,
    ensures
        checks_settled(o.servers@[i]),
        o.servers@[i].status is TimedOut <==> some_check_timed_out(o.servers@[i]),
{
}

/// Sequential wake: if a server's frame has gone out (its status has left
/// `Waiting`), then every earlier server has been judged healthy, with all
/// of its checks settled.
pub proof fn lemma_sequential_wake(o: &Orchestrator, i: int)
    requires
        o.wf(),
        0 <= i < o.servers@.len(),
        !(o.servers@[i].status is Waiting),
    ensures
        forall|j: int|
            0 <= j < i ==> (#[trigger] o.servers@[j]).status is Healthy && checks_settled(
                o.servers@[j],
            ),
{
    assert(i <= o.next);
    assert forall|j: int| 0 <= j < i implies (#[trigger] o.servers@[j]).status is Healthy
        && checks_settled(o.servers@[j]) by {
        assert(o.servers@[j].status is Healthy);
        assert(all_checks_healthy(o.servers@[j]));
    }
}

} // verus!
