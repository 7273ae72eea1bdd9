//! The two stock-control buttons and the main loop's reaction to them and to
//! battery readings.
use vstd::prelude::*;
use crate::firmware::config::STOCK_MAX;
use crate::firmware::grocy::TagState;

verus! {

/// Possible button events.
#[derive(Debug, Clone, Copy, PartialEq, Eq, Structural)]
pub enum ButtonEvent {
    /// Increment stock count.
    Increment,
    /// Decrement stock count.
    Decrement,
}

/// Battery is sampled every this many main-loop ticks (25 × 200 ms = 5 s).
pub const BATTERY_SAMPLE_TICKS: u8 = 25;

/// Redraw only if the battery percentage changed by at least this many points.
pub const BATTERY_REDRAW_DELTA_PCT: u8 = 2;

/// Apply a button press to the tag: increment or decrement its stock, clamped.
pub fn apply_button_event(state: &mut TagState, event: ButtonEvent)
    ensures
        final(state).grocycode == old(state).grocycode,
        final(state).product_name == old(state).product_name,
        final(state).stock_count == match event {
            ButtonEvent::Increment => if old(state).stock_count < STOCK_MAX {
                old(state).stock_count + 1
            } else {
                old(state).stock_count as int
            },
            ButtonEvent::Decrement => if old(state).stock_count > 0 {
                old(state).stock_count - 1
            } else {
                old(state).stock_count as int
            },
        },
{
    match event {
        ButtonEvent::Increment => state.increment(),
        ButtonEvent::Decrement => state.decrement(),
    }
}

/// Advance the battery tick counter (wrapping); when it reaches
/// [`BATTERY_SAMPLE_TICKS`] it restarts at zero and a sample is due.
pub fn battery_tick(count: u8) -> (r: (u8, bool))
    ensures
        ({
            let next = if count == 255 {
                0
            } else {
                count + 1
            };
            if next >= BATTERY_SAMPLE_TICKS {
                r == (0u8, true)
            } else {
                r == (next as u8, false)
            }
        }),
{
    let next = count.wrapping_add(1);
    if next >= BATTERY_SAMPLE_TICKS {
        (0, true)
    } else {
        (next, false)
    }
}

/// Take a new battery sample into account: the shown percentage follows it, and
/// the display needs a redraw, only when it moved by at least
/// [`BATTERY_REDRAW_DELTA_PCT`] points.
pub fn battery_update(shown: u8, sampled: u8) -> (r: (u8, bool))
    ensures
        ({
            let diff = if sampled >= shown {
                sampled - shown
            } else {
                shown - sampled
            };
            if diff >= BATTERY_REDRAW_DELTA_PCT {
                r == (sampled, true)
            } else {
                r == (shown, false)
            }
        }),
{
    let diff = if sampled >= shown {
        sampled - shown
    } else {
        shown - sampled
    };
    if diff >= BATTERY_REDRAW_DELTA_PCT {
        (sampled, true)
    } else {
        (shown, false)
    }
}

} // verus!
