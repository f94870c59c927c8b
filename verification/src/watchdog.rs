//! The liveness watchdogs. The client probes server liveness: every tick
//! it either rests (recent activity), sends a ping, or — after prolonged
//! silence — fails the connection. The server's watchdog is simpler: every
//! tick of its fixed period it unconditionally pings the peer, independent
//! of observed idle time, keeping the connection warm; it never gives up
//! on a peer, leaving dead-peer detection to the transport and to the
//! client's own watchdog on the same link.

use vstd::prelude::*;
use crate::control_proto::{spec_ping_name, ping_name as control_ping_name};
use crate::envelope::{spec_payload_frame, encode_payload_frame, lemma_small_envelope_fits};
use crate::json::{spec_time_obj, write_time_obj, lemma_dec_u64_len};
use crate::server_proto::{ping_name as server_ping_name};

verus! {

/// How long activity may lapse before the client probes with a ping.
pub const PING_INTERVAL_MS: u64 = 5000;

/// How long activity may lapse before the client declares the peer dead.
/// Strictly greater than [`PING_INTERVAL_MS`], so a ping sent at the
/// interval boundary has time to be answered before the timeout fires.
pub const PING_TIMEOUT_MS: u64 = 15000;

/// Activity-timestamp refreshes closer together than this are collapsed
/// (a performance choice, not a correctness requirement).
pub const ACTIVITY_DEBOUNCE_MS: u64 = 1000;

/// The fixed period of the server's per-peer watchdog pings.
pub const SERVER_PING_PERIOD_MS: u64 = 5000;

/// What one client watchdog tick decides.
#[derive(Clone, Copy, Debug, PartialEq, Eq, Structural)]
pub enum WatchdogVerdict {
    /// Recent activity: nothing to do this tick.
    Idle,
    /// The quiet spell has reached the ping interval: probe the peer.
    SendPing,
    /// The quiet spell has exceeded the timeout: the peer is dead.
    FailTimeout,
}

/// Milliseconds elapsed since `last`, saturating at zero when a clock
/// reads backwards.
pub open spec fn spec_elapsed(now: int, last: int) -> int {
    if now >= last {
        now - last
    } else {
        0
    }
}

/// The client watchdog's decision as a function of the quiet spell.
pub open spec fn spec_client_watchdog(now: int, last: int) -> WatchdogVerdict {
    if spec_elapsed(now, last) < PING_INTERVAL_MS {
        WatchdogVerdict::Idle
    } else if spec_elapsed(now, last) > PING_TIMEOUT_MS {
        WatchdogVerdict::FailTimeout
    } else {
        WatchdogVerdict::SendPing
    }
}

/// One tick of the client watchdog.
pub fn client_watchdog_tick(now_ms: u64, last_active_ms: u64) -> (r: WatchdogVerdict)
    ensures
        r == spec_client_watchdog(now_ms as int, last_active_ms as int),
{
    let elapsed: u64 = if now_ms >= last_active_ms {
        now_ms - last_active_ms
    } else {
        0
    };
    if elapsed < PING_INTERVAL_MS {
        WatchdogVerdict::Idle
    } else if elapsed > PING_TIMEOUT_MS {
        WatchdogVerdict::FailTimeout
    } else {
        WatchdogVerdict::SendPing
    }
}

/// The ping frame the client sends on a probe verdict.
pub fn client_ping_frame(now_ms: u64) -> (r: Vec<u8>)
    ensures
        r@ == spec_payload_frame(spec_ping_name(), spec_time_obj(now_ms as int)),
{
    let payload = write_time_obj(now_ms);
    let name = control_ping_name();
    proof {
        lemma_dec_u64_len(now_ms as int);
        lemma_small_envelope_fits(name@, payload@);
    }
    match encode_payload_frame(name.as_slice(), payload.as_slice()) {
        Ok(f) => f,
        Err(_) => vstd::pervasive::unreached(),
    }
}

/// One tick of the server watchdog, taken every [`SERVER_PING_PERIOD_MS`]:
/// the ping frame to send the peer, emitted unconditionally, independent
/// of observed idle time.
pub fn server_watchdog_tick(now_ms: u64) -> (r: Vec<u8>)
    ensures
        r@ == spec_payload_frame(
            crate::server_proto::spec_ping_name(),
            spec_time_obj(now_ms as int),
        ),
{
    let payload = write_time_obj(now_ms);
    let name = server_ping_name();
    proof {
        lemma_dec_u64_len(now_ms as int);
        lemma_small_envelope_fits(name@, payload@);
    }
    match encode_payload_frame(name.as_slice(), payload.as_slice()) {
        Ok(f) => f,
        Err(_) => vstd::pervasive::unreached(),
    }
}

/// Should a newly received frame refresh the activity timestamp, or is
/// the previous refresh recent enough to skip the write?
pub fn should_refresh_activity(now_ms: u64, last_active_ms: u64) -> (r: bool)
    ensures
        r == (spec_elapsed(now_ms as int, last_active_ms as int) >= ACTIVITY_DEBOUNCE_MS),
{
    let elapsed: u64 = if now_ms >= last_active_ms {
        now_ms - last_active_ms
    } else {
        0
    };
    elapsed >= ACTIVITY_DEBOUNCE_MS
}

/// Silence longer than the timeout makes the watchdog fail the
/// connection — never pass it as idle or as a mere ping.
pub proof fn lemma_watchdog_timeout(now: int, last: int)
    requires
        spec_elapsed(now, last) > PING_TIMEOUT_MS,
    ensures
        spec_client_watchdog(now, last) == WatchdogVerdict::FailTimeout,
{
}

/// Activity more recent than the ping interval keeps the watchdog
/// completely quiet: no ping is sent and no timeout can fire.
pub proof fn lemma_watchdog_quiet(now: int, last: int)
    requires
        spec_elapsed(now, last) < PING_INTERVAL_MS,
    ensures
        spec_client_watchdog(now, last) == WatchdogVerdict::Idle,
{
}

/// The safety margin of the policy constants: the ping interval lies
/// strictly inside the timeout, so there is a quiet spell at which the
/// watchdog probes rather than kills, and every verdict falls in exactly
/// one of the three bands.
pub proof fn lemma_watchdog_margin()
    ensures
        PING_INTERVAL_MS < PING_TIMEOUT_MS,
        forall|now: int, last: int|
            PING_INTERVAL_MS <= #[trigger] spec_elapsed(now, last) <= PING_TIMEOUT_MS
                ==> spec_client_watchdog(now, last) == WatchdogVerdict::SendPing,
{
}

} // verus!
