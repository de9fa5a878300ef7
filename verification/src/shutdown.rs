//! Graceful shutdown protocol and heartbeat watchdog.
//!
//! The heartbeats are the `creator_heartbeat` and `connector_heartbeat` fields of the control
//! block; shutdown is coordinated by its state.
use std::time::Instant;
use vstd::prelude::*;
use crate::bytes;
use crate::control;
use crate::control::{
    ControlBlock, State, CONNECTOR_HEARTBEAT_AT, CREATOR_HEARTBEAT_AT, MAGIC,
};
use crate::text;
use crate::text::push_decimal;
use crate::time::Duration;

verus! {

/// `std::time::Instant`: a reading of the monotonic clock.
#[verifier::external_type_specification]
#[verifier::external_body]
pub struct ExInstant(Instant);

/// `Instant::now` of std reads the clock. Nothing is claimed of the reading.
pub assume_specification[ Instant::now ]() -> Instant
;

/// `Instant::elapsed` of std gives the time since a reading. Nothing is claimed of it.
pub assume_specification[ Instant::elapsed ](since: &Instant) -> core::time::Duration
;

/// `Duration::as_millis` of std gives a span in whole milliseconds. The span comes from the
/// clock; nothing is claimed of the number.
pub assume_specification[ core::time::Duration::as_millis ](d: &core::time::Duration) -> u128
;

/// Whether the clock can give this reading.
pub open spec fn is_reading(now: Instant) -> bool {
    call_ensures(Instant::now, (), now)
}

/// Whether the clock can give this as the milliseconds since a reading.
pub open spec fn is_millis_since(since: Instant, millis: u128) -> bool {
    exists|span: core::time::Duration|
        {
            &&& #[trigger] call_ensures(Instant::elapsed, (&since,), span)
            &&& call_ensures(core::time::Duration::as_millis, (&span,), millis)
        }
}

/// Heartbeat interval in milliseconds: how often each side bumps its counter.
const DEFAULT_HEARTBEAT_INTERVAL_MS: u64 = 100;

/// Number of missed heartbeats before declaring the peer dead.
const DEFAULT_MISSED_THRESHOLD: u32 = 5;

/// Peer status returned by the watchdog.
#[derive(Debug, Clone, Copy, PartialEq, Eq, Structural)]
pub enum PeerStatus {
    /// Peer is alive: its heartbeat is advancing.
    Alive,
    /// Peer heartbeat is stale (missed some beats but below the threshold).
    Stale { missed_beats: u32 },
    /// Peer is considered dead (missed at least as many beats as the threshold).
    Dead,
}

/// Configuration for the watchdog.
#[derive(Debug, Clone, Copy)]
pub struct WatchdogConfig {
    /// How often to check/write heartbeats.
    pub heartbeat_interval: Duration,
    /// How many missed beats before declaring the peer dead.
    pub missed_threshold: u32,
}

impl Default for WatchdogConfig {
    fn default() -> (config: WatchdogConfig)
        ensures
            config.heartbeat_interval.wf(),
            config.heartbeat_interval.total_nanos() == 100_000_000,
            config.heartbeat_interval.total_millis() == 100,
            config.missed_threshold == 5,
    {
        WatchdogConfig {
            heartbeat_interval: Duration::from_millis(DEFAULT_HEARTBEAT_INTERVAL_MS),
            missed_threshold: DEFAULT_MISSED_THRESHOLD,
        }
    }
}

/// How many beats a peer has missed that was silent for so long, given the interval; one of less
/// than a millisecond counts as a millisecond.
pub open spec fn missed_beats(elapsed_ms: int, interval_ms: int) -> int {
    if interval_ms == 0 {
        elapsed_ms
    } else {
        elapsed_ms / interval_ms
    }
}

/// The status of a peer that has missed so many beats.
pub open spec fn status_of(missed: int, threshold: u32) -> PeerStatus {
    if missed >= threshold {
        PeerStatus::Dead
    } else if missed > 0 {
        PeerStatus::Stale { missed_beats: missed as u32 }
    } else {
        PeerStatus::Alive
    }
}

/// Classifies a peer whose heartbeat has not changed for `elapsed_ms` milliseconds. An interval of
/// zero counts as one millisecond.
pub fn classify(elapsed_ms: u128, interval_ms: u128, missed_threshold: u32) -> (status: PeerStatus)
    ensures
        status == status_of(missed_beats(elapsed_ms as int, interval_ms as int), missed_threshold),
{
    let interval: u128 = if interval_ms < 1 {
        1
    } else {
        interval_ms
    };
    let missed: u128 = elapsed_ms / interval;
    if missed >= missed_threshold as u128 {
        PeerStatus::Dead
    } else if missed > 0 {
        PeerStatus::Stale { missed_beats: missed as u32 }
    } else {
        PeerStatus::Alive
    }
}

/// Heartbeat watchdog that tracks peer liveness.
///
/// Each side (host or connector) calls `beat` periodically to update its own heartbeat, and
/// `check_peer` to verify that the other side is alive.
#[derive(Debug, Clone, Copy)]
pub struct Watchdog {
    /// Whether this side is the host.
    pub is_host: bool,
    /// Last observed peer heartbeat value.
    pub last_peer_beat: u64,
    /// When the peer heartbeat was last observed to change.
    pub last_peer_change: Instant,
    /// Configuration.
    pub config: WatchdogConfig,
}

impl Watchdog {
    /// The heartbeat of this side's peer.
    pub open spec fn peer_beat(self, cb: ControlBlock) -> u64 {
        if self.is_host {
            cb.connector_heartbeat
        } else {
            cb.creator_heartbeat
        }
    }

    /// Whether a check notes a new heartbeat of the peer.
    pub open spec fn sees_beat(self, cb: ControlBlock) -> bool {
        cb.current_state() != State::Dead && self.peer_beat(cb) != self.last_peer_beat
    }

    /// The peer's status, if its heartbeat last changed `elapsed_ms` milliseconds ago.
    pub open spec fn verdict(self, cb: ControlBlock, elapsed_ms: int) -> PeerStatus {
        if cb.current_state() == State::Dead {
            PeerStatus::Dead
        } else if self.sees_beat(cb) {
            PeerStatus::Alive
        } else {
            status_of(
                missed_beats(elapsed_ms, self.config.heartbeat_interval.total_millis()),
                self.config.missed_threshold,
            )
        }
    }

    /// The watchdog after the peer's present heartbeat was seen at `now`.
    pub open spec fn restarted(self, cb: ControlBlock, now: Instant) -> Watchdog {
        Watchdog { last_peer_beat: self.peer_beat(cb), last_peer_change: now, ..self }
    }

    /// Creates a watchdog with the default configuration.
    pub fn new(cb: &ControlBlock, is_host: bool) -> (watchdog: Watchdog)
        ensures
            watchdog.is_host == is_host,
            watchdog.last_peer_beat == watchdog.peer_beat(*cb),
            watchdog.config.heartbeat_interval.wf(),
            watchdog.config.heartbeat_interval.total_nanos() == 100_000_000,
            watchdog.config.heartbeat_interval.total_millis() == 100,
            watchdog.config.missed_threshold == 5,
            is_reading(watchdog.last_peer_change),
    {
        Watchdog::with_config(cb, is_host, WatchdogConfig::default())
    }

    /// Creates a watchdog that takes the peer's present heartbeat as just seen.
    pub fn with_config(cb: &ControlBlock, is_host: bool, config: WatchdogConfig) -> (watchdog:
        Watchdog)
        ensures
            watchdog.is_host == is_host,
            watchdog.last_peer_beat == watchdog.peer_beat(*cb),
            watchdog.config == config,
            is_reading(watchdog.last_peer_change),
    {
        Watchdog::starting_at(cb, is_host, config, Instant::now())
    }

    /// Creates a watchdog that takes the peer's present heartbeat as seen at `now`.
    pub fn starting_at(cb: &ControlBlock, is_host: bool, config: WatchdogConfig, now: Instant) -> (
    watchdog: Watchdog)
        ensures
            watchdog == (Watchdog {
                is_host,
                last_peer_beat: if is_host {
                    cb.connector_heartbeat
                } else {
                    cb.creator_heartbeat
                },
                last_peer_change: now,
                config,
            }),
    {
        let peer_beat: u64 = if is_host {
            cb.connector_heartbeat
        } else {
            cb.creator_heartbeat
        };
        Watchdog { is_host, last_peer_beat: peer_beat, last_peer_change: now, config }
    }

    fn peer_heartbeat(&self, cb: &ControlBlock) -> (beat: u64)
        ensures
            beat == self.peer_beat(*cb),
    {
        if self.is_host {
            cb.connector_heartbeat
        } else {
            cb.creator_heartbeat
        }
    }

    /// Bumps this side's own heartbeat counter, which wraps around.
    pub fn beat(&self, cb: &mut ControlBlock)
        ensures
            *final(cb) == self.beaten(*old(cb)),
    {
        if self.is_host {
            cb.creator_heartbeat = cb.creator_heartbeat.wrapping_add(1);
        } else {
            cb.connector_heartbeat = cb.connector_heartbeat.wrapping_add(1);
        }
    }

    /// Where this side's own heartbeat counter is in a region.
    pub fn beat_at(&self) -> (at: usize)
        ensures
            at == if self.is_host {
                CREATOR_HEARTBEAT_AT
            } else {
                CONNECTOR_HEARTBEAT_AT
            },
    {
        if self.is_host {
            CREATOR_HEARTBEAT_AT
        } else {
            CONNECTOR_HEARTBEAT_AT
        }
    }

    /// The control block after a beat of this side.
    pub open spec fn beaten(self, cb: ControlBlock) -> ControlBlock {
        if self.is_host {
            ControlBlock {
                creator_heartbeat: ((cb.creator_heartbeat + 1) % 0x1_0000_0000_0000_0000) as u64,
                ..cb
            }
        } else {
            ControlBlock {
                connector_heartbeat: ((cb.connector_heartbeat + 1) % 0x1_0000_0000_0000_0000)
                    as u64,
                ..cb
            }
        }
    }

    /// The peer's status, if its heartbeat last changed `elapsed_ms` milliseconds ago.
    pub fn judge(&self, cb: &ControlBlock, elapsed_ms: u128) -> (status: PeerStatus)
        ensures
            status == self.verdict(*cb, elapsed_ms as int),
            cb.state >= 3 ==> status == PeerStatus::Dead,
            cb.state < 3 && (if self.is_host {
                cb.connector_heartbeat
            } else {
                cb.creator_heartbeat
            }) != self.last_peer_beat ==> status == PeerStatus::Alive,
    {
        if cb.state() == State::Dead {
            return PeerStatus::Dead;
        }
        if self.peer_heartbeat(cb) != self.last_peer_beat {
            return PeerStatus::Alive;
        }
        classify(
            elapsed_ms,
            self.config.heartbeat_interval.as_millis(),
            self.config.missed_threshold,
        )
    }

    /// Checks peer liveness at `now`, `elapsed_ms` milliseconds after the peer's heartbeat was
    /// last seen to change. A new heartbeat is noted, and the wait for the next one starts at
    /// `now`.
    pub fn observe(&mut self, cb: &ControlBlock, elapsed_ms: u128, now: Instant) -> (status:
        PeerStatus)
        ensures
            status == old(self).verdict(*cb, elapsed_ms as int),
            old(self).sees_beat(*cb) ==> *final(self) == old(self).restarted(*cb, now),
            !old(self).sees_beat(*cb) ==> *final(self) == *old(self),
            final(self).is_host == old(self).is_host,
            final(self).config == old(self).config,
            ({
                let beat = if old(self).is_host {
                    cb.connector_heartbeat
                } else {
                    cb.creator_heartbeat
                };
                if cb.state >= 3 {
                    &&& status == PeerStatus::Dead
                    &&& *final(self) == *old(self)
                } else if beat != old(self).last_peer_beat {
                    &&& status == PeerStatus::Alive
                    &&& final(self).last_peer_beat == beat
                    &&& final(self).last_peer_change == now
                } else {
                    *final(self) == *old(self)
                }
            }),
    {
        let status: PeerStatus = self.judge(cb, elapsed_ms);
        if cb.state() != State::Dead {
            let current: u64 = self.peer_heartbeat(cb);
            if current != self.last_peer_beat {
                self.last_peer_beat = current;
                self.last_peer_change = now;
            }
        }
        status
    }

    /// Checks peer liveness by the clock: `observe` with the time since the last change and the
    /// time now.
    pub fn check_peer(&mut self, cb: &ControlBlock) -> (status: PeerStatus)
        ensures
            exists|elapsed_ms: u128|
                #[trigger] is_millis_since(old(self).last_peer_change, elapsed_ms) && status
                    == old(self).verdict(*cb, elapsed_ms as int),
            old(self).sees_beat(*cb) ==> {
                &&& is_reading(final(self).last_peer_change)
                &&& *final(self) == old(self).restarted(*cb, final(self).last_peer_change)
            },
            !old(self).sees_beat(*cb) ==> *final(self) == *old(self),
            final(self).is_host == old(self).is_host,
            final(self).config == old(self).config,
            ({
                let beat = if old(self).is_host {
                    cb.connector_heartbeat
                } else {
                    cb.creator_heartbeat
                };
                if cb.state >= 3 {
                    &&& status == PeerStatus::Dead
                    &&& *final(self) == *old(self)
                } else if beat != old(self).last_peer_beat {
                    &&& status == PeerStatus::Alive
                    &&& final(self).last_peer_beat == beat
                    &&& is_reading(final(self).last_peer_change)
                } else {
                    *final(self) == *old(self)
                }
            }),
    {
        let span: core::time::Duration = self.last_peer_change.elapsed();
        let elapsed_ms: u128 = span.as_millis();
        assert(call_ensures(Instant::elapsed, (&self.last_peer_change,), span));
        assert(is_millis_since(self.last_peer_change, elapsed_ms));
        let now: Instant = Instant::now();
        self.observe(cb, elapsed_ms, now)
    }

    /// The heartbeat interval.
    pub fn heartbeat_interval(&self) -> (interval: Duration)
        ensures
            interval == self.config.heartbeat_interval,
    {
        self.config.heartbeat_interval
    }
}

/// Shutdown mode.
#[derive(Debug, Clone, Copy, PartialEq, Eq, Structural)]
pub enum ShutdownMode {
    /// Drain buffers before cleaning up.
    Graceful,
    /// Set state to `Dead` immediately.
    Immediate,
}

/// Coordinates graceful shutdown of a bridge endpoint.
#[derive(Debug)]
pub struct ShutdownProtocol {
    pub is_host: bool,
    pub shutdown_initiated: bool,
}

/// The state that a shutdown begins with.
pub open spec fn first_state(mode: ShutdownMode) -> State {
    match mode {
        ShutdownMode::Graceful => State::Closing,
        ShutdownMode::Immediate => State::Dead,
    }
}

impl ShutdownProtocol {
    /// Creates a new shutdown protocol handler.
    pub fn new(is_host: bool) -> (protocol: ShutdownProtocol)
        ensures
            protocol.is_host == is_host,
            !protocol.shutdown_initiated,
    {
        ShutdownProtocol { is_host, shutdown_initiated: false }
    }

    /// Whether this side has initiated shutdown.
    pub fn is_shutting_down(&self) -> (r: bool)
        ensures
            r == self.shutdown_initiated,
    {
        self.shutdown_initiated
    }

    /// Initiates shutdown: `Graceful` sets the state to `Closing`, `Immediate` to `Dead`.
    ///
    /// Returns `true` if this call initiated the shutdown, `false` if it was already initiated.
    pub fn initiate(&mut self, cb: &mut ControlBlock, mode: ShutdownMode) -> (first: bool)
        ensures
            first == !old(self).shutdown_initiated,
            final(self).shutdown_initiated,
            final(self).is_host == old(self).is_host,
            first ==> *final(cb) == (ControlBlock { state: first_state(mode).number(), ..*old(cb) }),
            !first ==> *final(cb) == *old(cb),
    {
        if self.shutdown_initiated {
            return false;
        }
        self.shutdown_initiated = true;
        match mode {
            ShutdownMode::Graceful => {
                cb.set_state(State::Closing);
            },
            ShutdownMode::Immediate => {
                cb.set_state(State::Dead);
            },
        }
        true
    }

    /// Completes the shutdown sequence (called after draining buffers): sets the state to
    /// `Dead`.
    pub fn complete(&self, cb: &mut ControlBlock)
        ensures
            *final(cb) == (ControlBlock { state: State::Dead.number(), ..*old(cb) }),
    {
        cb.set_state(State::Dead);
    }

    /// Checks if the peer has signaled shutdown (state is `Closing` or `Dead`).
    pub fn peer_shutting_down(&self, cb: &ControlBlock) -> (r: bool)
        ensures
            r == (cb.current_state() == State::Closing || cb.current_state() == State::Dead),
    {
        let state: State = cb.state();
        state == State::Closing || state == State::Dead
    }

    /// Whether the bridge should continue processing messages: not once the state is `Dead`.
    pub fn should_continue(&self, cb: &ControlBlock) -> (r: bool)
        ensures
            r == (cb.current_state() != State::Dead),
    {
        cb.state() != State::Dead
    }

    /// Whether this endpoint is the host (responsible for cleanup).
    pub fn is_host(&self) -> (r: bool)
        ensures
            r == self.is_host,
    {
        self.is_host
    }

    /// The path of the file to remove when cleaning up the region `name`.
    pub fn cleanup_shm(name: &str) -> (path: String)
        ensures
            path@ == "/dev/shm/"@ + name@,
    {
        let mut path: String = String::new();
        path.append("/dev/shm/");
        path.append(name);
        assert(path@ =~= "/dev/shm/"@ + name@);
        path
    }
}

/// The path that exists while process `pid` lives.
pub fn proc_path(pid: u64) -> (path: String)
    ensures
        path@ == "/proc/"@ + text::decimal(pid as nat),
{
    let mut path: String = String::new();
    path.append("/proc/");
    push_decimal(&mut path, pid);
    assert(path@ =~= "/proc/"@ + text::decimal(pid as nat));
    path
}

/// Whether process `pid` is alive, given whether the system has an entry for it. No process has
/// the ID 0.
pub fn is_process_alive(pid: u64, entry_exists: bool) -> (alive: bool)
    ensures
        alive == (pid != 0 && entry_exists),
{
    if pid == 0 {
        return false;
    }
    entry_exists
}

/// Whether a region that was found can be unlinked and created again: its control block is
/// not one, or its creator is dead. `control` is `None` where there is no region to open, and
/// `entry_exists` tells whether the system has an entry for its creator.
pub fn can_reclaim_stale_region(control: Option<&ControlBlock>, entry_exists: bool) -> (r: bool)
    ensures
        r == match control {
            Some(cb) => cb.magic != MAGIC || cb.creator_pid == 0 || !entry_exists,
            None => false,
        },
{
    match control {
        Some(cb) => {
            if cb.magic != MAGIC {
                return true;
            }
            !is_process_alive(cb.creator_pid, entry_exists)
        },
        None => false,
    }
}

/// A peer that beats once is seen alive at the next check, however long it was silent, unless
/// the bridge is dead.
pub proof fn law_beat_is_seen(watchdog: Watchdog, cb: ControlBlock, after: ControlBlock, elapsed: int)
    requires
        watchdog.last_peer_beat == watchdog.peer_beat(cb),
        watchdog.peer_beat(after) == (watchdog.peer_beat(cb) + 1) % 0x1_0000_0000_0000_0000,
        after.state == cb.state,
        cb.current_state() != State::Dead,
    ensures
        watchdog.verdict(after, elapsed) == PeerStatus::Alive,
{
}

/// Adding one to the 64-bit number at `beat_at` in a region is a beat.
pub proof fn law_beat_in_a_region(watchdog: Watchdog, mem: Seq<u8>, at: int)
    requires
        mem.len() >= control::CONTROL_SIZE,
        at == if watchdog.is_host {
            CREATOR_HEARTBEAT_AT
        } else {
            CONNECTOR_HEARTBEAT_AT
        },
    ensures
        control::control_at(
            bytes::with_u64(
                mem,
                at,
                ((bytes::u64_at(mem, at) + 1) % 0x1_0000_0000_0000_0000) as u64,
            ),
        ) == watchdog.beaten(control::control_at(mem)),
{
    let beat = ((bytes::u64_at(mem, at) + 1) % 0x1_0000_0000_0000_0000) as u64;
    control::lemma_store_heartbeat(mem, watchdog.is_host, beat);
}

/// A silent peer is dead from as many intervals on as the threshold says, else alive for less
/// than one interval, and stale in between, with the number of whole intervals.
pub proof fn law_silence(watchdog: Watchdog, cb: ControlBlock, elapsed: int)
    requires
        cb.current_state() != State::Dead,
        !watchdog.sees_beat(cb),
        0 <= elapsed,
        0 < watchdog.config.heartbeat_interval.total_millis(),
    ensures
        ({
            let interval = watchdog.config.heartbeat_interval.total_millis();
            let threshold = watchdog.config.missed_threshold;
            let status = watchdog.verdict(cb, elapsed);
            &&& status == PeerStatus::Dead <==> elapsed >= threshold * interval
            &&& status == PeerStatus::Alive <==> elapsed < interval && threshold > 0
            &&& status matches PeerStatus::Stale { missed_beats } ==> missed_beats * interval
                <= elapsed < (missed_beats + 1) * interval
        }),
{
    let interval = watchdog.config.heartbeat_interval.total_millis();
    let threshold = watchdog.config.missed_threshold as int;
    let missed = elapsed / interval;
    vstd::arithmetic::div_mod::lemma_fundamental_div_mod(elapsed, interval);
    assert(missed >= threshold <==> elapsed >= threshold * interval) by (nonlinear_arith)
        requires
            elapsed == interval * missed + elapsed % interval,
            0 <= elapsed % interval < interval,
    ;
    assert(missed >= 1 <==> elapsed >= interval) by (nonlinear_arith)
        requires
            elapsed == interval * missed + elapsed % interval,
            0 <= elapsed % interval < interval,
    ;
    assert(missed * interval <= elapsed < (missed + 1) * interval) by (nonlinear_arith)
        requires
            elapsed == interval * missed + elapsed % interval,
            0 <= elapsed % interval < interval,
    ;
}

/// Once a new heartbeat was seen, the wait for the next one starts afresh: the same heartbeat is
/// judged by the time since then alone, whatever time went by before.
pub proof fn law_beat_restarts_wait(watchdog: Watchdog, cb: ControlBlock, now: Instant, elapsed: int)
    requires
        watchdog.sees_beat(cb),
    ensures
        ({
            let after = watchdog.restarted(cb, now);
            &&& !after.sees_beat(cb)
            &&& after.last_peer_change == now
            &&& after.verdict(cb, elapsed) == status_of(
                missed_beats(elapsed, watchdog.config.heartbeat_interval.total_millis()),
                watchdog.config.missed_threshold,
            )
        }),
{
}

/// Once dead, a bridge reports its peer dead whatever the heartbeats do.
pub proof fn law_dead_state(watchdog: Watchdog, cb: ControlBlock, elapsed: int)
    requires
        cb.current_state() == State::Dead,
    ensures
        watchdog.verdict(cb, elapsed) == PeerStatus::Dead,
{
}

/// A graceful shutdown goes through `Closing`, in which messages are still processed and the
/// peer learns of the shutdown, to `Dead`, in which they are not; an immediate one starts there.
pub proof fn law_shutdown_order(cb: ControlBlock)
    ensures
        ({
            let closing = ControlBlock { state: first_state(ShutdownMode::Graceful).number(), ..cb };
            let completed = ControlBlock { state: State::Dead.number(), ..closing };
            let immediate = ControlBlock {
                state: first_state(ShutdownMode::Immediate).number(),
                ..cb
            };
            &&& closing.current_state() == State::Closing
            &&& closing.current_state() != State::Dead
            &&& completed.current_state() == State::Dead
            &&& immediate == completed
            &&& closing == (ControlBlock { state: 2, ..cb })
            &&& completed == (ControlBlock { state: 3, ..cb })
        }),
{
}

/// A host watches the connector's heartbeat, and a connector the host's. Unless the bridge is
/// dead, any heartbeat other than the last one seen, by however much, shows the peer alive and is
/// noted, and the wait starts anew; and nothing else is.
pub proof fn law_any_new_beat(watchdog: Watchdog, cb: ControlBlock, elapsed: int, now: Instant)
    ensures
        ({
            let beat = if watchdog.is_host {
                cb.connector_heartbeat
            } else {
                cb.creator_heartbeat
            };
            let after = watchdog.restarted(cb, now);
            &&& watchdog.sees_beat(cb) <==> cb.state < 3 && beat != watchdog.last_peer_beat
            &&& cb.state < 3 && beat != watchdog.last_peer_beat ==> watchdog.verdict(cb, elapsed)
                == PeerStatus::Alive
            &&& after.last_peer_beat == beat
            &&& after.last_peer_change == now
            &&& after.is_host == watchdog.is_host
            &&& after.config == watchdog.config
        }),
{
}

/// Of a peer whose heartbeat has not changed, the silence alone decides: whole intervals count,
/// of at least a millisecond each.
pub proof fn law_verdict_by_silence(
    watchdog: Watchdog,
    cb: ControlBlock,
    elapsed: int,
    missed: int,
)
    requires
        cb.state < 3,
        watchdog.last_peer_beat == if watchdog.is_host {
            cb.connector_heartbeat
        } else {
            cb.creator_heartbeat
        },
        0 <= missed,
        ({
            let interval = watchdog.config.heartbeat_interval.total_millis();
            let unit = if interval < 1 {
                1
            } else {
                interval
            };
            missed * unit <= elapsed < (missed + 1) * unit
        }),
    ensures
        ({
            let threshold = watchdog.config.missed_threshold;
            let status = watchdog.verdict(cb, elapsed);
            &&& missed >= threshold ==> status == PeerStatus::Dead
            &&& 0 < missed < threshold ==> status == (PeerStatus::Stale {
                missed_beats: missed as u32,
            })
            &&& missed == 0 && 0 < threshold ==> status == PeerStatus::Alive
        }),
{
    let interval = watchdog.config.heartbeat_interval.total_millis();
    assert(0 <= interval);
    if interval >= 1 {
        let rest = elapsed - missed * interval;
        assert(elapsed == missed * interval + rest && 0 <= rest < interval) by (nonlinear_arith)
            requires
                rest == elapsed - missed * interval,
                missed * interval <= elapsed < (missed + 1) * interval,
        ;
        vstd::arithmetic::div_mod::lemma_fundamental_div_mod_converse(
            elapsed,
            interval,
            missed,
            rest,
        );
    }
}

/// A beat adds one to this side's own counter, and changes nothing else.
pub proof fn law_beat(watchdog: Watchdog, cb: ControlBlock)
    ensures
        ({
            let after = watchdog.beaten(cb);
            &&& watchdog.is_host ==> after == (ControlBlock {
                creator_heartbeat: after.creator_heartbeat,
                ..cb
            })
            &&& watchdog.is_host && cb.creator_heartbeat < u64::MAX ==> after.creator_heartbeat
                == cb.creator_heartbeat + 1
            &&& watchdog.is_host && cb.creator_heartbeat == u64::MAX ==> after.creator_heartbeat
                == 0
            &&& !watchdog.is_host ==> after == (ControlBlock {
                connector_heartbeat: after.connector_heartbeat,
                ..cb
            })
            &&& !watchdog.is_host && cb.connector_heartbeat < u64::MAX
                ==> after.connector_heartbeat == cb.connector_heartbeat + 1
            &&& !watchdog.is_host && cb.connector_heartbeat == u64::MAX
                ==> after.connector_heartbeat == 0
        }),
{
}

} // verus!
