//! The single-threaded control loop that drives N edge-triggered sockets.
//!
//! Each socket is registered under a token equal to its index. The loop
//! blocks on the poller, and for every readiness notification drains the
//! named socket — reading until the read would block or the peer's close is
//! observed — then waits again, until every socket has closed. The reads
//! themselves are performed by the surrounding program; `EventLoop` holds
//! the state and makes every decision, so the policy itself is what is
//! verified here.

use vstd::prelude::*;
use crate::poll::WaitVerdict;

verus! {

/// What one non-blocking read of a socket came to, as reported by the
/// operating system.
#[derive(Clone, Copy, Debug, PartialEq, Eq, Structural)]
pub enum ReadOutcome {
    /// The read returned this many bytes; zero means the peer closed the
    /// connection (end of stream).
    Received(usize),
    /// No data is available now; the next edge-triggered notification will
    /// say when more arrives.
    WouldBlock,
    /// The read was interrupted by a signal.
    Interrupted,
    /// The read failed for any other reason; fatal.
    Failed,
}

/// The decision after one read of a socket being drained.
#[derive(Clone, Copy, Debug, PartialEq, Eq, Structural)]
pub enum DrainStep {
    /// Data arrived; keep reading — under edge-triggered reporting, bytes
    /// left behind now would never be reported again.
    Continue,
    /// The socket would block (or the read was interrupted); stop draining
    /// and wait for the next notification.
    Yield,
    /// End of stream: the peer closed, this socket is done.
    Finished,
    /// A fatal read error; abort the loop.
    Abort,
}

/// The decision after one blocking wait.
#[derive(Clone, Copy, Debug, PartialEq, Eq, Structural)]
pub enum LoopStep {
    /// Ready events arrived; drain the named sockets.
    Process,
    /// Nothing to do (timeout, spurious wakeup, or an interrupted wait);
    /// simply wait again.
    RetryWait,
    /// The wait failed; abort the loop.
    Abort,
}

/// The drain policy: what a correct edge-triggered consumer does with each
/// read outcome.
pub open spec fn drain_decision(o: ReadOutcome) -> DrainStep {
    match o {
        ReadOutcome::Received(n) => if n == 0 {
            DrainStep::Finished
        } else {
            DrainStep::Continue
        },
        ReadOutcome::WouldBlock => DrainStep::Yield,
        ReadOutcome::Interrupted => DrainStep::Yield,
        ReadOutcome::Failed => DrainStep::Abort,
    }
}

/// The wait policy: zero events and interrupted waits are retried, never
/// surfaced; only a genuine wait failure aborts.
pub open spec fn wait_decision(v: WaitVerdict) -> LoopStep {
    match v {
        WaitVerdict::Ready(n) => if n == 0 {
            LoopStep::RetryWait
        } else {
            LoopStep::Process
        },
        WaitVerdict::Interrupted => LoopStep::RetryWait,
        WaitVerdict::Failed => LoopStep::Abort,
    }
}

/// How many of the sockets have closed.
pub open spec fn count_closed(s: Seq<bool>) -> nat
    decreases s.len(),
{
    if s.len() == 0 {
        0
    } else {
        count_closed(s.drop_last()) + if s.last() {
            1nat
        } else {
            0nat
        }
    }
}

/// The per-socket state of the control loop: which sockets have reached end
/// of stream, and how many that is.
pub struct EventLoop {
    closed: Vec<bool>,
    handled: usize,
}

impl EventLoop {
    /// Whether socket `i` has reached end of stream.
    pub closed spec fn socket_closed(&self, i: int) -> bool {
        self.closed@[i]
    }

    /// How many sockets the loop drives.
    pub closed spec fn total(&self) -> nat {
        self.closed@.len()
    }

    /// The count of sockets observed closed so far.
    pub closed spec fn handled(&self) -> nat {
        self.handled as nat
    }

    /// The loop's invariant: the count is exactly the number of closed
    /// sockets.
    pub closed spec fn wf(&self) -> bool {
        self.handled == count_closed(self.closed@)
    }

    /// A loop over `n` sockets, none of them closed yet.
    pub fn new(n: usize) -> (r: EventLoop)
        ensures
            r.wf(),
            r.total() == n,
            r.handled() == 0,
            forall|i: int| 0 <= i < n ==> !r.socket_closed(i),
    {
        let mut closed: Vec<bool> = Vec::new();
        let mut i: usize = 0;
        while i < n
            invariant
                0 <= i <= n,
                closed@.len() == i,
                forall|k: int| 0 <= k < i ==> !closed@[k],
            decreases n - i,
        {
            closed.push(false);
            i += 1;
        }
        proof {
            lemma_count_closed_all_open(closed@);
        }
        EventLoop { closed, handled: 0 }
    }

    /// How many sockets the loop drives.
    pub fn socket_count(&self) -> (r: usize)
        ensures
            r == self.total(),
    {
        self.closed.len()
    }

    /// How many sockets have been observed closed so far.
    pub fn handled_count(&self) -> (r: usize)
        ensures
            r == self.handled(),
    {
        self.handled
    }

    /// Whether the loop is finished: every socket has closed. The loop must
    /// not terminate while any peer is still open.
    pub fn is_done(&self) -> (r: bool)
        requires
            self.wf(),
        ensures
            r <==> self.handled() == self.total(),
            r <==> (forall|i: int| 0 <= i < self.total() ==> self.socket_closed(i)),
    {
        proof {
            lemma_count_closed_bound(self.closed@);
            if self.handled == self.closed@.len() {
                assert forall|i: int| 0 <= i < self.total() implies self.socket_closed(i) by {
                    assert(self.closed@[i]);
                }
            }
            if forall|i: int| 0 <= i < self.total() ==> self.socket_closed(i) {
                assert forall|i: int| 0 <= i < self.closed@.len() implies self.closed@[i] by {
                    assert(self.socket_closed(i));
                }
            }
        }
        self.handled == self.closed.len()
    }

    /// The decision after one blocking wait: an empty result or an
    /// interrupted wait is retried, ready events are processed, and only a
    /// genuine failure aborts.
    pub fn on_wait(&self, v: WaitVerdict) -> (s: LoopStep)
        ensures
            s == wait_decision(v),
    {
        match v {
            WaitVerdict::Ready(n) => if n == 0 {
                LoopStep::RetryWait
            } else {
                LoopStep::Process
            },
            WaitVerdict::Interrupted => LoopStep::RetryWait,
            WaitVerdict::Failed => LoopStep::Abort,
        }
    }

    /// Applies the drain policy to one read outcome for the socket named by
    /// `token`, and records an observed close.
    ///
    /// A notification may still name a socket that already closed (the loop
    /// never removes a registration): end of stream on such a socket is
    /// ignored rather than counted twice, so the closed count stays exact.
    pub fn on_read(&mut self, token: usize, outcome: ReadOutcome) -> (s: DrainStep)
        requires
            old(self).wf(),
            token < old(self).total(),
        ensures
            final(self).wf(),
            s == drain_decision(outcome),
            final(self).total() == old(self).total(),
            s == DrainStep::Finished && !old(self).socket_closed(token as int) ==> {
                &&& final(self).handled() == old(self).handled() + 1
                &&& final(self).socket_closed(token as int)
                &&& forall|i: int|
                    0 <= i < old(self).total() && i != token ==> final(self).socket_closed(i)
                        == old(self).socket_closed(i)
            },
            !(s == DrainStep::Finished && !old(self).socket_closed(token as int)) ==> {
                &&& final(self).handled() == old(self).handled()
                &&& forall|i: int|
                    0 <= i < old(self).total() ==> final(self).socket_closed(i) == old(
                        self,
                    ).socket_closed(i)
            },
    {
        match outcome {
            ReadOutcome::Received(n) => {
                if n == 0 {
                    if !self.closed[token] {
                        let len = self.closed.len();
                        proof {
                            lemma_count_closed_bound(self.closed@);
                            if self.handled == len {
                                assert(self.closed@[token as int]);
                            }
                            assert(self.handled < len);
                            lemma_count_closed_update(self.closed@, token as int);
                        }
                        self.closed.set(token, true);
                        self.handled = self.handled + 1;
                    }
                    DrainStep::Finished
                } else {
                    DrainStep::Continue
                }
            },
            ReadOutcome::WouldBlock => DrainStep::Yield,
            ReadOutcome::Interrupted => DrainStep::Yield,
            ReadOutcome::Failed => DrainStep::Abort,
        }
    }
}

/// The bytes the drain policy observes before it stops, when the kernel
/// answers its reads with the outcomes of `script`, in order.
pub open spec fn drain_observed(script: Seq<ReadOutcome>) -> nat
    decreases script.len(),
{
    if script.len() == 0 {
        0
    } else if drain_decision(script[0]) == DrainStep::Continue {
        (match script[0] {
            ReadOutcome::Received(n) => n as nat,
            _ => 0,
        }) + drain_observed(script.drop_first())
    } else {
        0
    }
}

/// The decision the drain policy stops with on `script`, or `None` if the
/// script runs out while it would still keep reading.
pub open spec fn drain_final(script: Seq<ReadOutcome>) -> Option<DrainStep>
    decreases script.len(),
{
    if script.len() == 0 {
        None
    } else if drain_decision(script[0]) == DrainStep::Continue {
        drain_final(script.drop_first())
    } else {
        Some(drain_decision(script[0]))
    }
}

/// The total of a sequence of read sizes.
pub open spec fn sum_chunks(chunks: Seq<usize>) -> nat
    decreases chunks.len(),
{
    if chunks.len() == 0 {
        0
    } else {
        chunks[0] as nat + sum_chunks(chunks.drop_first())
    }
}

/// The read outcomes of a kernel that delivers exactly these chunks.
pub open spec fn chunk_outcomes(chunks: Seq<usize>) -> Seq<ReadOutcome> {
    chunks.map_values(|n: usize| ReadOutcome::Received(n))
}

/// Drain completeness under edge-triggered reporting: when a socket's
/// kernel queue holds K bytes, delivered as any chunks of successful reads,
/// followed by the peer's close, a drain that follows the policy — keep
/// reading after every successful read — observes all K bytes and then end
/// of stream within the one notification, never stopping early and never
/// needing a second notification for bytes already delivered.
pub proof fn lemma_drain_completeness(chunks: Seq<usize>)
    requires
        forall|i: int| 0 <= i < chunks.len() ==> chunks[i] > 0,
    ensures
        drain_observed(chunk_outcomes(chunks).push(ReadOutcome::Received(0))) == sum_chunks(
            chunks,
        ),
        drain_final(chunk_outcomes(chunks).push(ReadOutcome::Received(0))) == Some(
            DrainStep::Finished,
        ),
    decreases chunks.len(),
{
    let script = chunk_outcomes(chunks).push(ReadOutcome::Received(0));
    if chunks.len() == 0 {
        assert(script[0] == ReadOutcome::Received(0));
    } else {
        assert(script[0] == ReadOutcome::Received(chunks[0]));
        assert(script.drop_first() =~= chunk_outcomes(chunks.drop_first()).push(
            ReadOutcome::Received(0),
        ));
        lemma_drain_completeness(chunks.drop_first());
    }
}

/// A sequence with no closed socket counts zero.
proof fn lemma_count_closed_all_open(s: Seq<bool>)
    requires
        forall|i: int| 0 <= i < s.len() ==> !s[i],
    ensures
        count_closed(s) == 0,
    decreases s.len(),
{
    if s.len() > 0 {
        lemma_count_closed_all_open(s.drop_last());
    }
}

/// The closed count never exceeds the socket count, and reaches it only
/// when every socket is closed.
proof fn lemma_count_closed_bound(s: Seq<bool>)
    ensures
        count_closed(s) <= s.len(),
        count_closed(s) == s.len() <==> (forall|i: int| 0 <= i < s.len() ==> s[i]),
    decreases s.len(),
{
    if s.len() > 0 {
        lemma_count_closed_bound(s.drop_last());
        if count_closed(s) == s.len() {
            assert forall|i: int| 0 <= i < s.len() implies s[i] by {
                if i < s.len() - 1 {
                    assert(s.drop_last()[i] == s[i]);
                }
            }
        }
        if forall|i: int| 0 <= i < s.len() ==> s[i] {
            assert forall|i: int| 0 <= i < s.drop_last().len() implies s.drop_last()[i] by {
                assert(s.drop_last()[i] == s[i]);
            }
        }
    }
}

/// Marking one open socket closed raises the count by exactly one.
proof fn lemma_count_closed_update(s: Seq<bool>, j: int)
    requires
        0 <= j < s.len(),
        !s[j],
    ensures
        count_closed(s.update(j, true)) == count_closed(s) + 1,
    decreases s.len(),
{
    let t = s.update(j, true);
    if j == s.len() - 1 {
        assert(t.drop_last() =~= s.drop_last());
    } else {
        assert(t.drop_last() =~= s.drop_last().update(j, true));
        lemma_count_closed_update(s.drop_last(), j);
    }
}

} // verus!

