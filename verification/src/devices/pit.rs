use vstd::prelude::*;

verus! {

/// Control port of the programmable interval timer.
pub const PORT_CTRL: u16 = 0x43;

/// Data port of counter 0.
pub const PORT_DATA0: u16 = 0x40;

/// Input frequency of the timer in Hz.
pub const TIMER_FREQ: usize = 1193182;

/// Control word: counter 0, low byte then high byte, mode 3 (square wave).
pub const MODE3_COUNTER0: u8 = 0x36;

/// Interval between two spinner steps in milliseconds.
pub const SPINNER_INTERVAL_MS: usize = 250;

/// Column of the spinner on the text screen.
pub const SPINNER_COLUMN: usize = 79;

/// Row of the spinner on the text screen.
pub const SPINNER_ROW: usize = 0;

/// The spinner's glyphs, in the order they are shown: `|`, `/`, `-`, `\`.
pub open spec fn spinner_glyphs() -> Seq<u8> {
    seq![0x7cu8, 0x2fu8, 0x2du8, 0x5cu8]
}

/// The counter value that lets the timer interrupt every `interval_ms` milliseconds.
pub open spec fn divisor_spec(interval_ms: int) -> int {
    TIMER_FREQ as int / 1000 / interval_ms
}

/// Represents the programmable interval timer by its two ports.
pub struct Timer {
    pub control_port: u16,
    pub data_port0: u16,
}

impl Timer {
    /// Create a new Timer instance.
    pub fn new() -> (r: Timer)
        ensures
            r.control_port == PORT_CTRL,
            r.data_port0 == PORT_DATA0,
    {
        Timer { control_port: PORT_CTRL, data_port0: PORT_DATA0 }
    }

    /// The port writes that set the timer interrupt interval to `interval_ms`
    /// milliseconds: the mode, then the low and the high byte of the divisor.
    pub fn set_interrupt_interval(&mut self, interval_ms: usize) -> (writes: Vec<(u16, u8)>)
        requires
            interval_ms > 0,
        ensures
            *final(self) == *old(self),
            writes@ == seq![
                (old(self).control_port, MODE3_COUNTER0),
                (old(self).data_port0, (divisor_spec(interval_ms as int) % 256) as u8),
                (old(self).data_port0, (divisor_spec(interval_ms as int) / 256 % 256) as u8),
            ],
    {
        let divisor = TIMER_FREQ / 1000 / interval_ms;
        let low = (divisor & 0xff) as u8;
        let high = ((divisor >> 8) & 0xff) as u8;
        assert(divisor & 0xff == divisor % 256) by (bit_vector);
        assert((divisor >> 8) & 0xff == divisor / 256 % 256) by (bit_vector);
        let mut writes: Vec<(u16, u8)> = Vec::new();
        writes.push((self.control_port, MODE3_COUNTER0));
        writes.push((self.data_port0, low));
        writes.push((self.data_port0, high));
        writes
    }
}

/// What the timer interrupt at system time `current_time` shows as spinner, if
/// anything: every `interval_ms` ticks the next glyph, in turn.
pub fn spinner_glyph(current_time: usize, interval_ms: usize) -> (r: Option<u8>)
    requires
        interval_ms > 0,
    ensures
        current_time % interval_ms == 0 ==> r == Some(
            spinner_glyphs()[((current_time / interval_ms) % 4) as int],
        ),
        current_time % interval_ms != 0 ==> r is None,
{
    if current_time % interval_ms == 0 {
        let index = (current_time / interval_ms) % 4;
        let glyph: u8 = if index == 0 {
            0x7c
        } else if index == 1 {
            0x2f
        } else if index == 2 {
            0x2d
        } else {
            0x5c
        };
        Some(glyph)
    } else {
        None
    }
}

/// A wait of `ms` milliseconds that began at system time `start` is over at
/// system time `now`.
pub fn wait_finished(start: usize, now: usize, ms: usize) -> (r: bool)
    requires
        start <= now,
    ensures
        r == (now - start >= ms),
{
    now - start >= ms
}

} // verus!
