use std::time::Instant;
use synapse::bytes::{get_u64, put_u64};
use synapse::control::{ControlBlock, State, CONTROL_SIZE};
use synapse::shutdown::{
    can_reclaim_stale_region, classify, is_process_alive, proc_path, PeerStatus, ShutdownMode,
    ShutdownProtocol, Watchdog, WatchdogConfig,
};
use synapse::time::Duration;
use synapse::wait::{park_millis, park_sleep, WaitAction, WaitStrategy, Waiter};

fn alloc_control_block() -> ControlBlock {
    let mut mem = vec![0u8; 256];
    ControlBlock::init(&mut mem, 256, 0x12345, 1);
    ControlBlock::read(&mem)
}

fn config(millis: u64, missed_threshold: u32) -> WatchdogConfig {
    WatchdogConfig { heartbeat_interval: Duration::from_millis(millis), missed_threshold }
}

fn busy_wait(millis: u128) {
    let start = Instant::now();
    while start.elapsed().as_millis() < millis {
        std::hint::spin_loop();
    }
}

#[test]
fn test_watchdog_initial_state() {
    let cb = alloc_control_block();
    let mut wd = Watchdog::with_config(&cb, true, config(50, 3));
    // Initially peer heartbeat is 0 and we just started, so it's alive
    let status = wd.check_peer(&cb);
    assert_eq!(status, PeerStatus::Alive);
}

#[test]
fn test_watchdog_beat_and_check() {
    let mut cb = alloc_control_block();

    // Host watchdog
    let mut host_wd = Watchdog::with_config(&cb, true, config(10, 3));

    // Connector watchdog
    let mut conn_wd = Watchdog::with_config(&cb, false, config(10, 3));

    // Both beat
    host_wd.beat(&mut cb);
    conn_wd.beat(&mut cb);

    // Both should see each other as alive
    assert_eq!(host_wd.check_peer(&cb), PeerStatus::Alive);
    assert_eq!(conn_wd.check_peer(&cb), PeerStatus::Alive);

    // Verify heartbeat values advanced
    assert!(cb.creator_heartbeat > 0);
    assert!(cb.connector_heartbeat > 0);
}

#[test]
fn test_watchdog_peer_death_detection() {
    let cb = alloc_control_block();

    // host watching connector
    let mut wd = Watchdog::with_config(&cb, true, config(10, 3));

    // Initially alive
    assert_eq!(wd.check_peer(&cb), PeerStatus::Alive);

    // Wait long enough for 3+ missed beats
    busy_wait(40);

    let status = wd.check_peer(&cb);
    assert_eq!(status, PeerStatus::Dead);
}

#[test]
fn test_watchdog_stale_detection() {
    let cb = alloc_control_block();
    let mut wd = Watchdog::with_config(&cb, true, config(10, 5));

    // Wait for 2 missed beats but not 5
    busy_wait(25);

    let status = wd.check_peer(&cb);
    match status {
        PeerStatus::Stale { missed_beats } => {
            assert!(missed_beats >= 1 && missed_beats < 5);
        }
        PeerStatus::Alive => {
            // Timing can be imprecise, acceptable
        }
        PeerStatus::Dead => {
            panic!("Should not be dead yet");
        }
    }
}

#[test]
fn test_shutdown_graceful() {
    let mut cb = alloc_control_block();
    cb.set_state(State::Ready);

    let mut proto = ShutdownProtocol::new(true);

    assert!(proto.should_continue(&cb));
    assert!(!proto.is_shutting_down());

    // Initiate graceful shutdown
    assert!(proto.initiate(&mut cb, ShutdownMode::Graceful));
    assert!(proto.is_shutting_down());
    assert_eq!(cb.state(), State::Closing);
    assert!(proto.should_continue(&cb)); // Still processing during Closing

    // Complete shutdown
    proto.complete(&mut cb);
    assert_eq!(cb.state(), State::Dead);
    assert!(!proto.should_continue(&cb));
}

#[test]
fn test_shutdown_immediate() {
    let mut cb = alloc_control_block();
    cb.set_state(State::Ready);

    let mut proto = ShutdownProtocol::new(false);

    assert!(proto.initiate(&mut cb, ShutdownMode::Immediate));
    assert_eq!(cb.state(), State::Dead);
    assert!(!proto.should_continue(&cb));
}

#[test]
fn test_shutdown_double_initiate() {
    let mut cb = alloc_control_block();
    cb.set_state(State::Ready);

    let mut proto = ShutdownProtocol::new(true);

    assert!(proto.initiate(&mut cb, ShutdownMode::Graceful));
    // Second call should return false
    assert!(!proto.initiate(&mut cb, ShutdownMode::Graceful));
    // ... and change nothing.
    assert!(!proto.initiate(&mut cb, ShutdownMode::Immediate));
    assert_eq!(cb.state(), State::Closing);
}

#[test]
fn test_peer_shutdown_detection() {
    let mut cb = alloc_control_block();
    cb.set_state(State::Ready);

    let mut host_proto = ShutdownProtocol::new(true);
    let conn_proto = ShutdownProtocol::new(false);

    assert!(!conn_proto.peer_shutting_down(&cb));

    // Host initiates shutdown
    host_proto.initiate(&mut cb, ShutdownMode::Graceful);

    // Connector should detect it
    assert!(conn_proto.peer_shutting_down(&cb));
    assert!(host_proto.is_host());
    assert!(!conn_proto.is_host());
}

#[test]
fn test_shutdown_with_watchdog() {
    let mut mem = vec![0u8; 256];
    ControlBlock::init(&mut mem, 256, 0xDEAD, 1);
    let mut cb = ControlBlock::read(&mem);
    cb.set_state(State::Ready);

    // Host watchdog
    let mut host_wd = Watchdog::with_config(&cb, true, config(10, 3));

    // Connector watchdog
    let mut conn_wd = Watchdog::with_config(&cb, false, config(10, 3));

    // Both beat regularly
    host_wd.beat(&mut cb);
    conn_wd.beat(&mut cb);
    assert_eq!(host_wd.check_peer(&cb), PeerStatus::Alive);
    assert_eq!(conn_wd.check_peer(&cb), PeerStatus::Alive);

    // Host initiates graceful shutdown
    let mut proto = ShutdownProtocol::new(true);
    proto.initiate(&mut cb, ShutdownMode::Graceful);

    assert_eq!(cb.state(), State::Closing);

    // Complete shutdown
    proto.complete(&mut cb);
    assert_eq!(cb.state(), State::Dead);

    // Watchdog should detect dead state
    assert_eq!(host_wd.check_peer(&cb), PeerStatus::Dead);
}

fn entry_exists(pid: u64) -> bool {
    std::path::Path::new(&proc_path(pid)).exists()
}

#[test]
fn test_is_process_alive_zero() {
    assert!(!is_process_alive(0, entry_exists(0)));
    assert!(!is_process_alive(0, true));
}

#[test]
fn test_is_process_alive_nonexistent() {
    // PID that almost certainly doesn't exist
    assert!(!is_process_alive(4_000_000_000, entry_exists(4_000_000_000)));
}

#[test]
fn process_paths_and_liveness() {
    assert_eq!(proc_path(4_000_000_000), "/proc/4000000000");
    assert_eq!(proc_path(0), "/proc/0");
    assert!(is_process_alive(1, true));
    assert!(!is_process_alive(1, false));
    assert_eq!(ShutdownProtocol::cleanup_shm("my_region"), "/dev/shm/my_region");
}

#[test]
fn stale_regions() {
    let mut cb = alloc_control_block();
    assert!(!can_reclaim_stale_region(None, false));
    assert!(!can_reclaim_stale_region(Some(&cb), true));
    assert!(can_reclaim_stale_region(Some(&cb), false));
    cb.creator_pid = 0;
    assert!(can_reclaim_stale_region(Some(&cb), true));
    cb.creator_pid = 1;
    cb.magic = 0;
    assert!(can_reclaim_stale_region(Some(&cb), true));
}

#[test]
fn missed_beats_by_the_clock() {
    assert_eq!(classify(0, 10, 3), PeerStatus::Alive);
    assert_eq!(classify(9, 10, 3), PeerStatus::Alive);
    assert_eq!(classify(10, 10, 3), PeerStatus::Stale { missed_beats: 1 });
    assert_eq!(classify(29, 10, 3), PeerStatus::Stale { missed_beats: 2 });
    assert_eq!(classify(30, 10, 3), PeerStatus::Dead);
    assert_eq!(classify(0, 10, 0), PeerStatus::Dead);
    // An interval of zero counts as one millisecond.
    assert_eq!(classify(2, 0, 3), PeerStatus::Stale { missed_beats: 2 });
    // However long the silence.
    assert_eq!(classify(1 << 32, 10, 3), PeerStatus::Dead);
    assert_eq!(classify(u128::MAX, 1 << 40, u32::MAX), PeerStatus::Dead);
    assert_eq!(classify(1 << 33, 1 << 32, 3), PeerStatus::Stale { missed_beats: 2 });
    let mut cb = alloc_control_block();
    let wd = Watchdog::with_config(&cb, true, config(10, 3));
    assert_eq!(wd.judge(&cb, 1000), PeerStatus::Dead);
    cb.connector_heartbeat = 1;
    assert_eq!(wd.judge(&cb, 1000), PeerStatus::Alive);
    cb.set_state(State::Dead);
    assert_eq!(wd.judge(&cb, 0), PeerStatus::Dead);
}

#[test]
fn a_new_beat_restarts_the_wait() {
    let mut cb = alloc_control_block();
    let start = Instant::now();
    let later = start + std::time::Duration::from_millis(500);
    let mut wd = Watchdog::starting_at(&cb, true, config(10, 3), start);
    assert_eq!(wd.last_peer_beat, 0);
    assert_eq!(wd.last_peer_change, start);
    // No beat: nothing is noted.
    assert_eq!(wd.observe(&cb, 15, later), PeerStatus::Stale { missed_beats: 1 });
    assert_eq!(wd.last_peer_change, start);
    cb.connector_heartbeat = 7;
    assert_eq!(wd.observe(&cb, 500, later), PeerStatus::Alive);
    assert_eq!(wd.last_peer_beat, 7);
    assert_eq!(wd.last_peer_change, later);
    assert_eq!(wd.observe(&cb, 5, later), PeerStatus::Alive);
    // A dead bridge notes no beat.
    cb.connector_heartbeat = 8;
    cb.set_state(State::Dead);
    assert_eq!(wd.observe(&cb, 0, start), PeerStatus::Dead);
    assert_eq!(wd.last_peer_beat, 7);
}

#[test]
fn watchdog_defaults_and_wrapping_beats() {
    let mut cb = alloc_control_block();
    cb.creator_heartbeat = u64::MAX;
    let wd = Watchdog::new(&cb, true);
    assert_eq!(wd.heartbeat_interval(), Duration::from_millis(100));
    assert_eq!(wd.config.missed_threshold, 5);
    wd.beat(&mut cb);
    assert_eq!(cb.creator_heartbeat, 0);
    assert_eq!(cb.connector_heartbeat, 0);
}

#[test]
fn durations() {
    let d = Duration::from_millis(1500);
    assert_eq!((d.secs, d.nanos), (1, 500_000_000));
    assert_eq!(d.as_millis(), 1500);
    let left = d.minus(&Duration { secs: 0, nanos: 700_000_000 });
    assert_eq!((left.secs, left.nanos), (0, 800_000_000));
    assert!(d.reaches(&d));
    assert!(!left.reaches(&d));
}

/// Runs a wait to its end, spinning between polls.
fn run_wait(waiter: &Waiter, condition: impl Fn() -> bool, timeout: Duration) -> bool {
    let start = Instant::now();
    let mut polls = 0;
    loop {
        let found = condition();
        let now = start.elapsed();
        let elapsed = Duration { secs: now.as_secs(), nanos: now.subsec_nanos() };
        if let WaitAction::Done(result) = waiter.wait_until(polls, found, &elapsed, &timeout) {
            return result;
        }
        polls += 1;
        std::hint::spin_loop();
    }
}

#[test]
fn test_timeout() {
    let waiter = Waiter::new(WaitStrategy::Adaptive { spin_count: 10, yield_count: 5 });
    let start = Instant::now();
    let result = run_wait(
        &waiter,
        || false, // never satisfied
        Duration::from_millis(100),
    );
    let elapsed = start.elapsed();

    assert!(!result, "should timeout");
    assert!(
        elapsed.as_millis() >= 90,
        "should have waited ~100ms, got {:?}",
        elapsed
    );
}

#[test]
fn test_already_satisfied() {
    let flag = 1;

    for strategy in [
        WaitStrategy::Spin,
        WaitStrategy::Yield,
        WaitStrategy::Park,
        WaitStrategy::Adaptive { spin_count: 100, yield_count: 10 },
    ] {
        let waiter = Waiter::new(strategy);
        let result = run_wait(&waiter, || flag == 1, Duration::from_millis(100));
        assert!(
            result,
            "already satisfied should return immediately for {:?}",
            strategy
        );
    }
}

#[test]
fn test_default_strategy() {
    let strategy = WaitStrategy::default();
    assert_eq!(
        strategy,
        WaitStrategy::Adaptive { spin_count: 100, yield_count: 10 }
    );
}

#[test]
fn adaptive_phases() {
    let waiter = Waiter::new(WaitStrategy::Adaptive { spin_count: 2, yield_count: 3 });
    let elapsed = Duration::from_millis(30);
    let timeout = Duration::from_millis(100);
    let actions: Vec<WaitAction> =
        (0..7).map(|polls| waiter.wait_until(polls, false, &elapsed, &timeout)).collect();
    let park = WaitAction::Park { remaining: Duration::from_millis(70) };
    assert_eq!(
        actions,
        vec![
            WaitAction::Spin,
            WaitAction::Spin,
            WaitAction::Yield,
            WaitAction::Yield,
            WaitAction::Yield,
            park,
            park,
        ]
    );
    // A condition that holds ends the wait even after the timeout.
    assert_eq!(waiter.wait_until(9, true, &timeout, &elapsed), WaitAction::Done(true));
    assert_eq!(waiter.wait_until(0, false, &timeout, &timeout), WaitAction::Done(false));
    let spin = Waiter::new(WaitStrategy::Spin);
    assert_eq!(spin.wait_until(1 << 40, false, &elapsed, &timeout), WaitAction::Spin);
    let yielding = Waiter::new(WaitStrategy::Yield);
    assert_eq!(yielding.wait_until(0, false, &elapsed, &timeout), WaitAction::Spin);
    assert_eq!(yielding.wait_until(99, false, &elapsed, &timeout), WaitAction::Spin);
    assert_eq!(yielding.wait_until(100, false, &elapsed, &timeout), WaitAction::Yield);
    assert_eq!(yielding.wait_until(1 << 40, false, &elapsed, &timeout), WaitAction::Yield);
    let parking = Waiter::new(WaitStrategy::Park);
    assert_eq!(parking.wait_until(0, false, &elapsed, &timeout), park);
}

#[test]
fn park_spans() {
    assert_eq!(park_millis(&Duration::from_millis(1234)), 1234);
    assert_eq!(park_millis(&Duration { secs: 1 << 40, nanos: 0 }), u32::MAX);
    assert_eq!(park_sleep(&Duration::from_millis(70)), Duration::from_millis(1));
    let short = Duration { secs: 0, nanos: 5 };
    assert_eq!(park_sleep(&short), short);
}

#[test]
fn a_beat_is_one_more_at_its_place() {
    for is_host in [true, false] {
        let mut cb = alloc_control_block();
        cb.creator_heartbeat = u64::MAX;
        cb.connector_heartbeat = 41;
        let wd = Watchdog::new(&cb, is_host);
        let mut region = vec![0u8; CONTROL_SIZE];
        cb.write(&mut region);
        let before = get_u64(&region, wd.beat_at());
        put_u64(&mut region, wd.beat_at(), before.wrapping_add(1));
        wd.beat(&mut cb);
        assert_eq!(ControlBlock::read(&region), cb);
    }
}
