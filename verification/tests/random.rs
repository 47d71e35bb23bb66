use simulation::fault::{DelayLatch, LatchStep};
use simulation::net::ReadStep;
use simulation::rng::Prng;
use simulation::runtime::{RunStep, Runtime};
use simulation::time::Duration;

/// Equal seeds give byte-identical streams.
#[test]
fn same_seed_same_stream() {
    let mut a = Prng::new(42);
    let mut b = Prng::new(42);
    for _ in 0..16 {
        assert_eq!(a.next_u64(), b.next_u64());
    }
}

/// Different seeds give different streams (spot check).
#[test]
fn different_seeds_differ() {
    let mut a = Prng::new(1);
    let mut b = Prng::new(2);
    assert_ne!(a.next_u64(), b.next_u64());
}

/// The parent's draws after a fork are the same whether the child is
/// drawn from heavily or never.
#[test]
fn fork_leaves_parent_stream_unchanged() {
    let mut parent_used = Prng::new(7);
    let mut parent_quiet = Prng::new(7);
    let mut child_used = parent_used.fork();
    let _child_quiet = parent_quiet.fork();
    for _ in 0..5 {
        child_used.next_u64();
    }
    for _ in 0..8 {
        assert_eq!(parent_used.next_u64(), parent_quiet.next_u64());
    }
}

/// The child stream differs from the parent's continuation.
#[test]
fn fork_is_independent_stream() {
    let mut parent = Prng::new(9);
    let mut child = parent.fork();
    assert_ne!(parent.next_u64(), child.next_u64());
}

/// `gen_range` stays within its bounds.
#[test]
fn gen_range_bounds() {
    let mut p = Prng::new(3);
    for _ in 0..50 {
        let r = p.gen_range(10, 17);
        assert!((10..17).contains(&r));
    }
    let one = p.gen_range(5, 6);
    assert_eq!(one, 5);
}

/// Runs the echo scenario under a latency fault: every read and write
/// first waits out a sampled delay on the virtual clock. Returns the
/// clock at completion.
fn faulted_echo_completion(seed: u64) -> u64 {
    let mut rt = Runtime::new_with_seed(seed).unwrap();
    let mut inj = rt.latency_fault();
    let handle = rt.localhost_handle();
    let (lid, bound) = rt.fabric.bind(handle.ip, 8080).unwrap();
    let client = rt.fabric.connect(handle.ip, bound).unwrap();
    let (server, _) = rt.fabric.accept(lid).unwrap().unwrap();
    let mut latch = DelayLatch::new();
    let mut wait_out = |rt: &mut Runtime, latch: &mut DelayLatch| loop {
        match latch.poll_latch(&mut rt.clock, &mut inj) {
            LatchStep::Ready => break,
            LatchStep::Registered(_) | LatchStep::NotYet => {
                rt.clock.park(None);
            }
        }
    };
    wait_out(&mut rt, &mut latch);
    rt.fabric.write(client, &vec![0x41]).unwrap().unwrap();
    wait_out(&mut rt, &mut latch);
    let echoed = match rt.fabric.read(server, 1).unwrap() {
        ReadStep::Data(bytes) => bytes,
        _ => panic!("expected the client's byte"),
    };
    wait_out(&mut rt, &mut latch);
    rt.fabric.write(server, &echoed).unwrap().unwrap();
    wait_out(&mut rt, &mut latch);
    match rt.fabric.read(client, 1).unwrap() {
        ReadStep::Data(bytes) => assert_eq!(bytes, vec![0x41]),
        _ => panic!("expected the echoed byte"),
    }
    rt.now().nanos
}

/// A latency fault is reproducible: two runtimes over the same seed
/// finish the faulted echo at the same simulated instant.
#[test]
fn latency_fault_reproducible() {
    let first = faulted_echo_completion(7);
    let second = faulted_echo_completion(7);
    assert_eq!(first, second);
    assert!(first > 0);
}

/// A whole run is a function of the seed: the same program over the
/// same seed observes the same sequence of clock readings.
#[test]
fn equal_seeds_equal_traces() {
    fn trace(seed: u64) -> Vec<u64> {
        let mut rt = Runtime::new_with_seed(seed).unwrap();
        let a = rt.spawn();
        let b = rt.spawn();
        let mut polled = [false, false];
        let mut observed = Vec::new();
        loop {
            match rt.next_action() {
                RunStep::Poll(id) => {
                    observed.push(rt.now().nanos);
                    let slot = if id == a { 0 } else { 1 };
                    if !polled[slot] {
                        polled[slot] = true;
                        let secs = if id == a { 10 } else { 30 };
                        rt.delay_from(id, Duration::from_secs(secs));
                    } else {
                        rt.sched.complete(id);
                    }
                }
                RunStep::Done => break,
            }
        }
        observed.push(rt.now().nanos);
        observed
    }
    assert_eq!(trace(11), trace(11));
}
