//! The arithmetic of the two clocks.
//!
//! The scheduler keeps two logical clocks. The wall clock counts
//! microseconds and paces the ticks; the media clock counts nanoseconds and
//! stamps the events. Both are unsigned integers, so no time is ever
//! negative and every step is exact.

use vstd::prelude::*;

verus! {

/// The number of media-clock units in one wall-clock unit.
pub const MEDIA_PER_WALL: u64 = 1000;

/// The tick duration of a new scheduler, in wall-clock units: 128 ms.
pub const DEFAULT_TEMPO: u64 = 128_000;

/// The lookahead of a new scheduler, in media-clock units: 100 ms.
pub const DEFAULT_LOOKAHEAD: u64 = 100_000_000;

/// What was out of order about the time at which the host fired a tick.
#[derive(Clone, Copy, PartialEq, Eq, Structural, Debug)]
pub enum Anomaly {
    /// The host's time lies before the time the tick was scheduled for.
    Early,
    /// The tick fired more than one tick duration late.
    Overrun,
}

/// The wait before the next tick, and what was odd about this one.
#[derive(Clone, Copy, PartialEq, Eq, Structural, Debug)]
pub struct Correction {
    pub delay: u64,
    pub anomaly: Option<Anomaly>,
}

/// A span of the wall clock, measured on the media clock.
pub open spec fn media_span(wall_span: nat) -> nat {
    wall_span * (MEDIA_PER_WALL as nat)
}

/// By how much a tick fired after the time it was scheduled for; 0 where
/// the host's time lies before that time.
pub open spec fn overshoot(scheduled: nat, actual: nat) -> nat {
    if actual >= scheduled {
        (actual - scheduled) as nat
    } else {
        0
    }
}

/// The wait before the next tick: one tick duration less the overshoot of
/// this tick, and 0 where the overshoot is a whole tick or more.
pub open spec fn next_delay(tempo: nat, scheduled: nat, actual: nat) -> nat {
    let late = overshoot(scheduled, actual);
    if late >= tempo {
        0
    } else {
        (tempo - late) as nat
    }
}

/// What is out of order about a tick scheduled for `scheduled` that fired
/// at `actual`.
pub open spec fn anomaly_of(tempo: nat, scheduled: nat, actual: nat) -> Option<Anomaly> {
    if actual < scheduled {
        Some(Anomaly::Early)
    } else if actual - scheduled > tempo {
        Some(Anomaly::Overrun)
    } else {
        None
    }
}

/// Computes the wait before the next tick from the tick duration, the time
/// this tick was scheduled for and the time at which it fired.
pub fn correct_drift(tempo: u64, scheduled: u64, actual: u64) -> (correction: Correction)
    ensures
        correction.delay == next_delay(tempo as nat, scheduled as nat, actual as nat),
        correction.anomaly == anomaly_of(tempo as nat, scheduled as nat, actual as nat),
{
    if actual < scheduled {
        Correction { delay: tempo, anomaly: Some(Anomaly::Early) }
    } else {
        let late: u64 = actual - scheduled;
        if late > tempo {
            Correction { delay: 0, anomaly: Some(Anomaly::Overrun) }
        } else {
            Correction { delay: tempo - late, anomaly: None }
        }
    }
}

/// Drift correction: a tick that fires at or after its scheduled time is
/// followed by a wait of the tick duration less the overshoot, and by no
/// wait at all where the overshoot is a tick duration or more. The wait is
/// never longer than a tick.
pub proof fn lemma_drift_correction(tempo: nat, scheduled: nat, actual: nat)
    requires
        actual >= scheduled,
    ensures
        actual - scheduled < tempo ==> next_delay(tempo, scheduled, actual) == tempo - (actual
            - scheduled),
        actual - scheduled >= tempo ==> next_delay(tempo, scheduled, actual) == 0,
        0 <= next_delay(tempo, scheduled, actual) <= tempo,
{
}

/// Drift does not add up: where a tick fires no more than one tick late,
/// the wait that follows ends exactly one tick duration after the time the
/// tick was scheduled for.
pub proof fn lemma_wait_ends_on_schedule(tempo: nat, scheduled: nat, actual: nat)
    requires
        scheduled <= actual <= scheduled + tempo,
    ensures
        actual + next_delay(tempo, scheduled, actual) == scheduled + tempo,
        anomaly_of(tempo, scheduled, actual) is None,
{
}

/// A time that lies before the scheduled one counts as no overshoot: the
/// wait is a whole tick.
pub proof fn lemma_early_waits_a_tick(tempo: nat, scheduled: nat, actual: nat)
    requires
        actual < scheduled,
    ensures
        next_delay(tempo, scheduled, actual) == tempo,
        anomaly_of(tempo, scheduled, actual) == Some(Anomaly::Early),
{
}

} // verus!
