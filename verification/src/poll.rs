//! The interest registry and the poller.
//!
//! `Registry` models the kernel's interest list for one polling instance: it
//! owns the raw handle, records every registration that was added, and hands
//! the handle out exactly once at release time. `Poll` owns a `Registry` and
//! classifies the outcome of the blocking wait. The kernel calls themselves
//! (create, add interest, wait, close) are made by the surrounding program,
//! which feeds their raw results to the functions here.

use vstd::prelude::*;
use crate::event::Event;

verus! {

/// The error taxonomy of the core.
#[derive(Clone, Copy, Debug, PartialEq, Eq, Structural)]
pub enum PollError {
    /// Creating the polling instance failed: fatal to the constructor.
    AllocationFailed,
    /// A registration named a negative (invalid) descriptor.
    InvalidDescriptor,
    /// A registration named a descriptor that is already on the interest
    /// list; the kernel refuses a second add for the same descriptor.
    AlreadyRegistered,
    /// The blocking wait failed for a reason other than being interrupted.
    WaitFailed,
}

/// One entry of the interest list: descriptor, caller-chosen token, and the
/// interest bitmask the descriptor was registered under.
#[derive(Clone, Copy, Debug, PartialEq, Eq, Structural)]
pub struct Registration {
    pub fd: i32,
    pub token: usize,
    pub interests: u32,
}

/// Whether some entry of the interest list names descriptor `fd`.
pub open spec fn has_fd(regs: Seq<Registration>, fd: i32) -> bool {
    exists|i: int| 0 <= i < regs.len() && regs[i].fd == fd
}

/// The index of the entry registered under token `t`, if any.
pub open spec fn find_token(regs: Seq<Registration>, t: usize) -> Option<int>
    decreases regs.len(),
{
    if regs.len() == 0 {
        None
    } else if regs[0].token == t {
        Some(0)
    } else {
        match find_token(regs.drop_first(), t) {
            Some(i) => Some(i + 1),
            None => None,
        }
    }
}

/// Whether no two entries share a token.
pub open spec fn distinct_tokens(regs: Seq<Registration>) -> bool {
    forall|i: int, j: int|
        0 <= i < j < regs.len() ==> regs[i].token != regs[j].token
}

/// Whether some entry of the interest list was registered under token `t`.
pub open spec fn has_token(regs: Seq<Registration>, t: usize) -> bool {
    exists|i: int| 0 <= i < regs.len() && regs[i].token == t
}

/// Registering under a token not yet in use keeps the interest list's
/// tokens distinct, so the correlation of notifications to sockets stays
/// unambiguous as registrations accumulate.
pub proof fn lemma_register_keeps_tokens_distinct(regs: Seq<Registration>, r: Registration)
    requires
        distinct_tokens(regs),
        !has_token(regs, r.token),
    ensures
        distinct_tokens(regs.push(r)),
{
    let t = regs.push(r);
    assert forall|i: int, j: int| 0 <= i < j < t.len() implies t[i].token != t[j].token by {
        if j == regs.len() {
            assert(t[i] == regs[i]);
            assert(!(regs[i].token == r.token));
        } else {
            assert(t[i] == regs[i]);
            assert(t[j] == regs[j]);
        }
    }
}

/// Owner of the polling-instance handle; mediates every interest-list
/// mutation and releases the handle exactly once.
pub struct Registry {
    raw_fd: i32,
    released: bool,
    registrations: Vec<Registration>,
}

impl Registry {
    /// The raw kernel handle this registry owns.
    pub closed spec fn raw_fd(&self) -> i32 {
        self.raw_fd
    }

    /// Whether the handle has already been handed out for closing.
    pub closed spec fn is_released(&self) -> bool {
        self.released
    }

    /// The interest list as recorded so far, in registration order.
    pub closed spec fn registrations(&self) -> Seq<Registration> {
        self.registrations@
    }

    /// Takes ownership of a freshly created polling-instance handle.
    pub fn new(raw_fd: i32) -> (r: Registry)
        requires
            raw_fd >= 0,
        ensures
            r.raw_fd() == raw_fd,
            !r.is_released(),
            r.registrations() =~= Seq::<Registration>::empty(),
    {
        Registry { raw_fd, released: false, registrations: Vec::new() }
    }

    /// Adds interest in descriptor `fd` under `token`, and returns the event
    /// record the kernel must be handed for the add operation.
    ///
    /// Succeeds exactly when the descriptor is valid and not yet on the
    /// interest list; on failure the registry is unchanged.
    pub fn register(&mut self, fd: i32, token: usize, interests: u32) -> (r: Result<
        Event,
        PollError,
    >)
        requires
            !old(self).is_released(),
        ensures
            final(self).raw_fd() == old(self).raw_fd(),
            !final(self).is_released(),
            r is Ok <==> (fd >= 0 && !has_fd(old(self).registrations(), fd)),
            r matches Ok(ev) ==> {
                &&& ev.events == interests
                &&& ev.epoll_data == token
                &&& final(self).registrations() =~= old(self).registrations().push(
                    Registration { fd, token, interests },
                )
            },
            r is Err ==> final(self).registrations() =~= old(self).registrations(),
            fd < 0 ==> r == Result::<Event, PollError>::Err(PollError::InvalidDescriptor),
            fd >= 0 && has_fd(old(self).registrations(), fd) ==> r == Result::<
                Event,
                PollError,
            >::Err(PollError::AlreadyRegistered),
    {
        if fd < 0 {
            return Err(PollError::InvalidDescriptor);
        }
        let n = self.registrations.len();
        let mut i: usize = 0;
        while i < n
            invariant
                *self == *old(self),
                !self.is_released(),
                fd >= 0,
                0 <= i <= n,
                n == self.registrations.len(),
                forall|k: int| 0 <= k < i ==> self.registrations@[k].fd != fd,
            decreases n - i,
        {
            if self.registrations[i].fd == fd {
                return Err(PollError::AlreadyRegistered);
            }
            i += 1;
        }
        let ev = Event { events: interests, epoll_data: token };
        self.registrations.push(Registration { fd, token, interests });
        Ok(ev)
    }

    /// Hands out the raw handle for closing, exactly once.
    ///
    /// The first call yields the handle; every later call yields nothing and
    /// leaves the registry as it was. The caller that receives `Some` is the
    /// one obliged to close the handle.
    pub fn release(&mut self) -> (r: Option<i32>)
        ensures
            final(self).is_released(),
            final(self).raw_fd() == old(self).raw_fd(),
            final(self).registrations() =~= old(self).registrations(),
            old(self).is_released() ==> r is None,
            !old(self).is_released() ==> r == Some(old(self).raw_fd()),
    {
        if self.released {
            None
        } else {
            self.released = true;
            Some(self.raw_fd)
        }
    }
}

/// In an interest list whose tokens are distinct, the token echoed back in a
/// readiness notification identifies the one registration it came from:
/// looking the token up finds exactly the entry that was registered under
/// it, never another socket's.
pub proof fn lemma_token_identifies_registration(regs: Seq<Registration>, i: int)
    requires
        distinct_tokens(regs),
        0 <= i < regs.len(),
    ensures
        find_token(regs, regs[i].token) == Some(i),
    decreases regs.len(),
{
    if i == 0 {
    } else {
        assert(regs[0].token != regs[i].token);
        assert(distinct_tokens(regs.drop_first())) by {
            assert forall|p: int, q: int|
                0 <= p < q < regs.drop_first().len() implies regs.drop_first()[p].token
                != regs.drop_first()[q].token by {
                assert(regs.drop_first()[p] == regs[p + 1]);
                assert(regs.drop_first()[q] == regs[q + 1]);
            }
        }
        assert(regs.drop_first()[i - 1] == regs[i]);
        lemma_token_identifies_registration(regs.drop_first(), i - 1);
    }
}

/// What one blocking wait came to.
#[derive(Clone, Copy, Debug, PartialEq, Eq, Structural)]
pub enum WaitVerdict {
    /// The kernel reported this many ready events; zero is a timeout or a
    /// spurious wakeup and is not an error.
    Ready(usize),
    /// The wait was interrupted by a signal; the caller retries it.
    Interrupted,
    /// The wait failed for any other reason; fatal.
    Failed,
}

/// Classifies the raw result of the kernel's wait call: a non-negative
/// return is the count of ready events, a negative return is an error,
/// which is fatal unless the last-error state says the call was merely
/// interrupted by a signal.
pub open spec fn wait_verdict(raw: i32, interrupted: bool) -> WaitVerdict {
    if raw >= 0 {
        WaitVerdict::Ready(raw as usize)
    } else if interrupted {
        WaitVerdict::Interrupted
    } else {
        WaitVerdict::Failed
    }
}

/// Encodes the optional wait timeout for the kernel: `None` means block
/// indefinitely, written as the negative sentinel.
pub fn wait_timeout_arg(timeout_ms: Option<i32>) -> (r: i32)
    requires
        timeout_ms matches Some(t) ==> t >= 0,
    ensures
        timeout_ms matches Some(t) ==> r == t,
        timeout_ms is None ==> r == -1,
{
    match timeout_ms {
        Some(t) => t,
        None => -1,
    }
}

/// Owner of a `Registry`; provides the classification around the blocking
/// wait.
pub struct Poll {
    registry: Registry,
}

impl Poll {
    /// The registry this poller owns.
    pub closed spec fn spec_registry(&self) -> &Registry {
        &self.registry
    }

    /// Wraps the result of creating a polling instance: the kernel signals
    /// failure with a negative handle, which is fatal to construction;
    /// a valid handle yields a poller whose registry owns it.
    pub fn new(raw_fd: i32) -> (r: Result<Poll, PollError>)
        ensures
            r is Ok <==> raw_fd >= 0,
            r matches Ok(p) ==> {
                &&& p.spec_registry().raw_fd() == raw_fd
                &&& !p.spec_registry().is_released()
                &&& p.spec_registry().registrations() =~= Seq::<Registration>::empty()
            },
            r matches Err(e) ==> e == PollError::AllocationFailed,
    {
        if raw_fd < 0 {
            return Err(PollError::AllocationFailed);
        }
        Ok(Poll { registry: Registry::new(raw_fd) })
    }

    /// Read-only access to the registry, for registration calls made before
    /// polling begins.
    pub fn registry(&self) -> (r: &Registry)
        ensures
            r == self.spec_registry(),
    {
        &self.registry
    }

    /// Mutable access to the registry, to add interest or to release the
    /// handle.
    pub fn registry_mut(&mut self) -> (r: &mut Registry)
        ensures
            *r == *old(self).spec_registry(),
            *final(self).spec_registry() == *final(r),
    {
        &mut self.registry
    }

    /// Classifies the raw result of one wait call. Zero ready events is a
    /// valid outcome (timeout or spurious wakeup), not an error; a negative
    /// result is fatal unless the call was interrupted by a signal, in which
    /// case the caller simply retries.
    pub fn classify_wait(&self, raw: i32, interrupted: bool) -> (v: WaitVerdict)
        ensures
            v == wait_verdict(raw, interrupted),
    {
        if raw >= 0 {
            WaitVerdict::Ready(raw as usize)
        } else if interrupted {
            WaitVerdict::Interrupted
        } else {
            WaitVerdict::Failed
        }
    }
}

} // verus!
