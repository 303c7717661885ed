use a_epoll::control::{DrainStep, EventLoop, LoopStep, ReadOutcome};
use a_epoll::event::{Event, EPOLLET, EPOLLIN};
use a_epoll::poll::{wait_timeout_arg, Poll, PollError, WaitVerdict};

#[test]
fn event_echoes_its_token() {
    let ev = Event { events: EPOLLIN, epoll_data: 7 };
    assert_eq!(ev.token(), 7);
    assert_eq!(ev.events, 1);
}

#[test]
fn registration_tokens_do_not_cross() {
    let mut poll = Poll::new(3).unwrap();
    let reg = poll.registry_mut();
    let ev_a = reg.register(10, 0, EPOLLIN | EPOLLET).unwrap();
    let ev_b = reg.register(11, 1, EPOLLIN | EPOLLET).unwrap();
    // Each readiness record carries exactly the token of its own
    // registration, so delivery can never cross between the two sockets.
    assert_eq!(ev_a.token(), 0);
    assert_eq!(ev_b.token(), 1);
    assert_ne!(ev_a.token(), ev_b.token());
    assert_eq!(ev_a.events, EPOLLIN | EPOLLET);
}

#[test]
fn register_rejects_duplicate_descriptor() {
    let mut poll = Poll::new(3).unwrap();
    let reg = poll.registry_mut();
    reg.register(10, 0, EPOLLIN | EPOLLET).unwrap();
    assert_eq!(
        reg.register(10, 1, EPOLLIN | EPOLLET),
        Err(PollError::AlreadyRegistered)
    );
    // The failed call left the list unchanged: a different descriptor
    // still registers fine under the next token.
    assert!(reg.register(11, 1, EPOLLIN | EPOLLET).is_ok());
}

#[test]
fn register_rejects_invalid_descriptor() {
    let mut poll = Poll::new(3).unwrap();
    let reg = poll.registry_mut();
    assert_eq!(
        reg.register(-2, 0, EPOLLIN),
        Err(PollError::InvalidDescriptor)
    );
}

#[test]
fn creating_with_failed_handle_is_fatal() {
    assert!(matches!(Poll::new(-1), Err(PollError::AllocationFailed)));
    assert!(Poll::new(0).is_ok());
}

#[test]
fn zero_event_wait_is_not_an_error() {
    let poll = Poll::new(4).unwrap();
    // The kernel returning zero ready events (timeout or spurious wakeup)
    // classifies as a valid, empty outcome...
    let verdict = poll.classify_wait(0, false);
    assert_eq!(verdict, WaitVerdict::Ready(0));
    // ...and the loop just waits again instead of aborting.
    let lp = EventLoop::new(2);
    assert_eq!(lp.on_wait(verdict), LoopStep::RetryWait);
}

#[test]
fn interrupted_wait_is_retried_not_surfaced() {
    let poll = Poll::new(4).unwrap();
    let verdict = poll.classify_wait(-1, true);
    assert_eq!(verdict, WaitVerdict::Interrupted);
    let lp = EventLoop::new(2);
    assert_eq!(lp.on_wait(verdict), LoopStep::RetryWait);
    // Any other wait failure stays fatal.
    let failed = poll.classify_wait(-1, false);
    assert_eq!(failed, WaitVerdict::Failed);
    assert_eq!(lp.on_wait(failed), LoopStep::Abort);
}

#[test]
fn ready_events_are_processed() {
    let poll = Poll::new(4).unwrap();
    let lp = EventLoop::new(2);
    assert_eq!(lp.on_wait(poll.classify_wait(2, false)), LoopStep::Process);
}

#[test]
fn timeout_encoding() {
    assert_eq!(wait_timeout_arg(None), -1);
    assert_eq!(wait_timeout_arg(Some(0)), 0);
    assert_eq!(wait_timeout_arg(Some(250)), 250);
}

#[test]
fn release_hands_the_handle_out_exactly_once() {
    let mut poll = Poll::new(9).unwrap();
    let reg = poll.registry_mut();
    assert_eq!(reg.release(), Some(9));
    assert_eq!(reg.release(), None);
    assert_eq!(reg.release(), None);
}

#[test]
fn drain_observes_all_bytes_before_close() {
    // A peer sent 4096 bytes and closed; the kernel delivers them across
    // two reads after a single edge-triggered notification. The policy
    // keeps reading until it sees end of stream, so nothing is left behind.
    let mut lp = EventLoop::new(1);
    let mut observed = 0usize;
    let script = [
        ReadOutcome::Received(2048),
        ReadOutcome::Received(2048),
        ReadOutcome::Received(0),
    ];
    let mut steps = Vec::new();
    for outcome in script {
        let step = lp.on_read(0, outcome);
        if let ReadOutcome::Received(n) = outcome {
            if step == DrainStep::Continue {
                observed += n;
            }
        }
        steps.push(step);
        if step != DrainStep::Continue {
            break;
        }
    }
    assert_eq!(
        steps,
        vec![DrainStep::Continue, DrainStep::Continue, DrainStep::Finished]
    );
    assert_eq!(observed, 4096);
    assert_eq!(lp.handled_count(), 1);
    assert!(lp.is_done());
}

#[test]
fn would_block_yields_until_next_notification() {
    let mut lp = EventLoop::new(1);
    assert_eq!(lp.on_read(0, ReadOutcome::Received(512)), DrainStep::Continue);
    assert_eq!(lp.on_read(0, ReadOutcome::WouldBlock), DrainStep::Yield);
    assert_eq!(lp.on_read(0, ReadOutcome::Interrupted), DrainStep::Yield);
    assert_eq!(lp.handled_count(), 0);
    assert!(!lp.is_done());
}

#[test]
fn fatal_read_aborts() {
    let mut lp = EventLoop::new(1);
    assert_eq!(lp.on_read(0, ReadOutcome::Failed), DrainStep::Abort);
    assert_eq!(lp.handled_count(), 0);
}

#[test]
fn stale_close_is_not_counted_twice() {
    // The loop never removes a registration, so a late notification may
    // still name a socket that already closed; observing end of stream
    // there again must not inflate the count.
    let mut lp = EventLoop::new(2);
    assert_eq!(lp.socket_count(), 2);
    assert_eq!(lp.on_read(0, ReadOutcome::Received(0)), DrainStep::Finished);
    assert_eq!(lp.handled_count(), 1);
    assert_eq!(lp.on_read(0, ReadOutcome::Received(0)), DrainStep::Finished);
    assert_eq!(lp.handled_count(), 1);
    assert!(!lp.is_done());
    assert_eq!(lp.on_read(1, ReadOutcome::Received(0)), DrainStep::Finished);
    assert_eq!(lp.handled_count(), 2);
    assert!(lp.is_done());
}

// One simulated peer connection: the bytes the kernel will deliver for it,
// in chunks, once its delay elapses.
struct SimPeer {
    ready_at: u64,
    chunks: Vec<usize>,
    next_chunk: usize,
    eof_sent: bool,
}

impl SimPeer {
    fn read(&mut self) -> ReadOutcome {
        if self.next_chunk < self.chunks.len() {
            let n = self.chunks[self.next_chunk];
            self.next_chunk += 1;
            ReadOutcome::Received(n)
        } else if !self.eof_sent {
            self.eof_sent = true;
            ReadOutcome::Received(0)
        } else {
            ReadOutcome::WouldBlock
        }
    }
}

#[test]
fn end_to_end_three_sockets_slowest_last() {
    // Socket i's peer answers after (3 - i) * 1000 ms, sends its payload
    // and closes: socket 2 first, socket 0 last. The loop must drain each
    // payload fully and must not finish before the slowest peer closes.
    let n = 3usize;
    let mut peers: Vec<SimPeer> = (0..n)
        .map(|i| SimPeer {
            ready_at: (n as u64 - i as u64) * 1000,
            chunks: vec![600 * (i + 1), 424],
            next_chunk: 0,
            eof_sent: false,
        })
        .collect();
    let mut drained = vec![0usize; n];

    let mut poll = Poll::new(5).unwrap();
    for (i, _) in peers.iter().enumerate() {
        let ev = poll
            .registry_mut()
            .register(20 + i as i32, i, EPOLLIN | EPOLLET)
            .unwrap();
        assert_eq!(ev.token(), i);
    }

    let mut lp = EventLoop::new(n);
    // The simulated kernel: one wait result per call, in clock order, with
    // a spurious wakeup and an interrupted wait mixed in.
    let mut clock: u64 = 0;
    let mut wait_calls = 0;
    while !lp.is_done() {
        wait_calls += 1;
        assert!(wait_calls < 20, "loop failed to terminate");
        let raw: i32;
        let interrupted: bool;
        if wait_calls == 1 {
            // A signal arrives before anything is ready.
            raw = -1;
            interrupted = true;
        } else if wait_calls == 2 {
            // A spurious wakeup: zero events.
            raw = 0;
            interrupted = false;
        } else {
            clock += 1000;
            raw = peers.iter().filter(|p| p.ready_at == clock).count() as i32;
            interrupted = false;
        }
        let verdict = poll.classify_wait(raw, interrupted);
        match lp.on_wait(verdict) {
            LoopStep::RetryWait => continue,
            LoopStep::Abort => panic!("wait failure in simulation"),
            LoopStep::Process => {}
        }
        // Deliver one event per peer that became ready this tick.
        let ready: Vec<usize> = (0..n).filter(|&i| peers[i].ready_at == clock).collect();
        for token in ready {
            loop {
                let outcome = peers[token].read();
                let step = lp.on_read(token, outcome);
                match step {
                    DrainStep::Continue => {
                        if let ReadOutcome::Received(got) = outcome {
                            drained[token] += got;
                        }
                    }
                    DrainStep::Yield | DrainStep::Finished => break,
                    DrainStep::Abort => panic!("read failure in simulation"),
                }
            }
        }
        // Not done until the slowest peer (socket 0, at 3000 ms) has closed.
        if clock < 3000 {
            assert!(!lp.is_done());
        }
    }
    assert_eq!(lp.handled_count(), 3);
    assert_eq!(drained, vec![1024, 1624, 2224]);
    assert_eq!(clock, 3000);
    // Teardown: the polling instance is released exactly once.
    assert_eq!(poll.registry_mut().release(), Some(5));
    assert_eq!(poll.registry_mut().release(), None);
}
