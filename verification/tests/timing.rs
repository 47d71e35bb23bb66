use simulation::clock::{Clock, ParkResult};
use simulation::errors::ErrorKind;
use simulation::runtime::timeout_outcome;
use simulation::runtime::{RunStep, Runtime};
use simulation::time::{Duration, Instant};

/// Delays accurately advance the clock: a 30 s sleep awaited to
/// completion moves `now` by exactly 30 s.
#[test]
fn delays() {
    let mut runtime = Runtime::new().unwrap();
    let start_time = runtime.now();
    let task = runtime.spawn();
    match runtime.next_action() {
        RunStep::Poll(id) => {
            assert_eq!(id, task);
            runtime.delay_from(id, Duration::from_secs(30));
        }
        RunStep::Done => panic!("expected the task to be polled"),
    }
    match runtime.next_action() {
        RunStep::Poll(id) => {
            assert_eq!(id, task);
            runtime.sched.complete(id);
        }
        RunStep::Done => panic!("expected the timer wake"),
    }
    assert!(matches!(runtime.next_action(), RunStep::Done));
    let end_time = runtime.now();
    assert!(end_time.nanos > start_time.nanos);
    assert_eq!(end_time.duration_since(start_time), Duration::from_secs(30));
}

/// Delays across spawned tasks advance the clock in accordance with the
/// length of each delay: a 10 s sleeper completes before a 30 s
/// sleeper, 20 s apart.
#[test]
fn ordering() {
    let mut runtime = Runtime::new().unwrap();
    let a = runtime.spawn();
    let b = runtime.spawn();
    let mut polled_a = false;
    let mut polled_b = false;
    let mut completed_at1: Option<Instant> = None;
    let mut completed_at2: Option<Instant> = None;
    loop {
        match runtime.next_action() {
            RunStep::Poll(id) if id == a => {
                if !polled_a {
                    polled_a = true;
                    runtime.delay_from(a, Duration::from_secs(10));
                } else {
                    completed_at1 = Some(runtime.now());
                    runtime.sched.complete(a);
                }
            }
            RunStep::Poll(id) if id == b => {
                if !polled_b {
                    polled_b = true;
                    runtime.delay_from(b, Duration::from_secs(30));
                } else {
                    completed_at2 = Some(runtime.now());
                    runtime.sched.complete(b);
                }
            }
            RunStep::Poll(_) => unreachable!(),
            RunStep::Done => break,
        }
    }
    let completed_at1 = completed_at1.unwrap();
    let completed_at2 = completed_at2.unwrap();
    assert!(completed_at1.nanos < completed_at2.nanos);
    assert_eq!(
        completed_at2.duration_since(completed_at1),
        Duration::from_secs(20)
    );
}

/// An empty world parks idle and terminates at once with the clock
/// untouched.
#[test]
fn idle_park_terminates() {
    let mut runtime = Runtime::new_with_seed(0).unwrap();
    let t0 = runtime.now();
    assert!(matches!(runtime.next_action(), RunStep::Done));
    assert_eq!(runtime.now(), t0);
}

/// Timers with identical deadlines fire in insertion order.
#[test]
fn equal_deadlines_fire_in_insertion_order() {
    let mut clock = Clock::new();
    let deadline = Instant::epoch().plus(Duration::from_secs(5));
    let t1 = clock.register(deadline);
    let t2 = clock.register(deadline);
    let out = clock.park(None);
    assert!(matches!(out.result, ParkResult::Advanced));
    assert_eq!(out.fired, vec![t1, t2]);
    assert_eq!(clock.now(), deadline);
}

/// A timer registered earlier with an earlier deadline fires in an
/// earlier park; the clock lands exactly on each deadline in turn.
#[test]
fn earlier_deadlines_fire_first() {
    let mut clock = Clock::new();
    let late = clock.register(Instant::epoch().plus(Duration::from_secs(10)));
    let early = clock.register(Instant::epoch().plus(Duration::from_secs(5)));
    let out1 = clock.park(None);
    assert_eq!(out1.fired, vec![early]);
    assert_eq!(clock.now().nanos, 5_000_000_000);
    let out2 = clock.park(None);
    assert_eq!(out2.fired, vec![late]);
    assert_eq!(clock.now().nanos, 10_000_000_000);
}

/// A bounded park advances by at most the bound and fires nothing that
/// is not yet due.
#[test]
fn bounded_park_respects_the_bound() {
    let mut clock = Clock::new();
    let _t = clock.register(Instant::epoch().plus(Duration::from_secs(5)));
    let out = clock.park(Some(Duration::from_secs(3)));
    assert!(matches!(out.result, ParkResult::Advanced));
    assert!(out.fired.is_empty());
    assert_eq!(clock.now().nanos, 3_000_000_000);
}

/// A park with nothing pending and no bound is the idle terminal state.
#[test]
fn empty_park_reports_idle() {
    let mut clock = Clock::new();
    let out = clock.park(None);
    assert!(matches!(out.result, ParkResult::Idle));
    assert!(out.fired.is_empty());
    assert_eq!(clock.now().nanos, 0);
}

/// A cancelled timer never fires.
#[test]
fn cancelled_timer_does_not_fire() {
    let mut clock = Clock::new();
    let t = clock.register(Instant::epoch().plus(Duration::from_secs(5)));
    clock.cancel(t);
    let out = clock.park(None);
    assert!(matches!(out.result, ParkResult::Idle));
    assert!(out.fired.is_empty());
    assert_eq!(clock.now().nanos, 0);
}

/// The timeout rule: the inner result wins when ready, the elapsed
/// timer wins otherwise, and neither means keep waiting.
#[test]
fn timeout_rule() {
    assert_eq!(timeout_outcome(true, false), Some(Ok(())));
    assert_eq!(timeout_outcome(true, true), Some(Ok(())));
    assert_eq!(timeout_outcome(false, true), Some(Err(ErrorKind::Elapsed)));
    assert_eq!(timeout_outcome(false, false), None);
}

/// Instant arithmetic saturates at the maximum.
#[test]
fn instant_arithmetic_saturates() {
    let far = Instant { nanos: u64::MAX - 5 };
    let later = far.plus(Duration::from_nanos(100));
    assert_eq!(later.nanos, u64::MAX);
    assert_eq!(Instant::epoch().duration_since(far), Duration::from_nanos(0));
}

/// Duration construction and addition saturate instead of wrapping.
#[test]
fn duration_arithmetic_saturates() {
    let huge = Duration::from_secs(u64::MAX);
    assert_eq!(huge.nanos, u64::MAX);
    let sum = Duration::from_nanos(u64::MAX - 1).plus(Duration::from_nanos(10));
    assert_eq!(sum.nanos, u64::MAX);
    assert_eq!(Duration::from_millis(2).nanos, 2_000_000);
}
