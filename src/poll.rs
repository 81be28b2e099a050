//! The decisions of the poll loop. The loop itself (reading the sensors,
//! writing the output, sleeping) is the caller's; each tick it reports how
//! many readings were obtained and gets back what to do.

use crate::config::Configuration;
use vstd::prelude::*;

verus! {

/// What a tick does once the readings are in.
#[derive(Clone, Copy, Debug, PartialEq, Eq, Structural)]
pub enum TickAction {
    /// Convert the mean to the configured unit and write the record.
    Emit,
    /// Write one diagnostic line; the loop goes on.
    ReportFailure,
}

/// The outcome of one tick: what to write, then how long to sleep before
/// the next tick.
#[derive(Clone, Copy, Debug, PartialEq, Eq, Structural)]
pub struct Tick {
    pub action: TickAction,
    pub sleep_ms: u64,
}

/// Decides a tick from the number of readings obtained: a mean exists only
/// for a non-zero count. Either way the loop sleeps for exactly the
/// configured interval and carries on.
pub fn next_tick(config: &Configuration, readings: usize) -> (t: Tick)
    ensures
        t.action == (if readings > 0 {
            TickAction::Emit
        } else {
            TickAction::ReportFailure
        }),
        t.sleep_ms == config.poll_interval_ms,
{
    let action = if readings > 0 {
        TickAction::Emit
    } else {
        TickAction::ReportFailure
    };
    Tick { action, sleep_ms: config.poll_interval_ms }
}

} // verus!
