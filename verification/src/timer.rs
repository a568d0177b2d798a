//! Chess clocks: time controls, one clock per player, and the pair of clocks
//! of a game.

use vstd::prelude::*;
use vstd::string::StringExecFns;
use std::time::Instant;

verus! {

/// A span of time, counted in nanoseconds.
#[derive(Debug, Clone, Copy, PartialEq, Eq, Structural)]
pub struct TimeSpan {
    pub nanos: u128,
}

impl TimeSpan {
    /// The empty span.
    pub fn zero() -> (t: TimeSpan)
        ensures
            t.nanos == 0,
    {
        TimeSpan { nanos: 0 }
    }

    /// A span of `secs` seconds.
    pub fn from_secs(secs: u64) -> (t: TimeSpan)
        ensures
            t.nanos == secs * 1_000_000_000,
    {
        TimeSpan { nanos: secs as u128 * 1_000_000_000 }
    }

    /// A span of `millis` milliseconds.
    pub fn from_millis(millis: u64) -> (t: TimeSpan)
        ensures
            t.nanos == millis * 1_000_000,
    {
        TimeSpan { nanos: millis as u128 * 1_000_000 }
    }

    pub open spec fn spec_saturating_sub(self, other: TimeSpan) -> TimeSpan {
        TimeSpan {
            nanos: if self.nanos >= other.nanos {
                (self.nanos - other.nanos) as u128
            } else {
                0
            },
        }
    }

    /// This span less `other`, or the empty span if `other` is longer.
    #[verifier::when_used_as_spec(spec_saturating_sub)]
    pub fn saturating_sub(self, other: TimeSpan) -> (t: TimeSpan)
        ensures
            t == self.spec_saturating_sub(other),
    {
        if self.nanos >= other.nanos {
            TimeSpan { nanos: self.nanos - other.nanos }
        } else {
            TimeSpan { nanos: 0 }
        }
    }
}

/// A moment of the monotonic clock (std's `Instant`).
#[verifier::external_type_specification]
#[verifier::external_body]
pub struct ExInstant(Instant);

/// Calls `Instant::now`. What moment it returns depends on the clock, so the
/// contract states nothing of it.
#[verifier::external_body]
pub(crate) fn clock_now() -> Instant {
    Instant::now()
}

/// Calls `Instant::elapsed` on `start` and converts the `Duration` to
/// nanoseconds. The span depends on the clock, so the contract states
/// nothing of it.
#[verifier::external_body]
pub(crate) fn elapsed_since(start: &Instant) -> TimeSpan {
    TimeSpan { nanos: start.elapsed().as_nanos() }
}


/// Time control mode
#[derive(Debug, Clone, Copy, PartialEq, Eq, Structural)]
pub enum TimeControl {
    Bullet,  // 1 minute per side
    Normal,  // 10 minutes per side
    Custom(TimeSpan),
}

impl TimeControl {
    pub open spec fn spec_duration(self) -> TimeSpan {
        match self {
            TimeControl::Bullet => TimeSpan { nanos: 60_000_000_000 },
            TimeControl::Normal => TimeSpan { nanos: 600_000_000_000 },
            TimeControl::Custom(d) => d,
        }
    }

    #[verifier::when_used_as_spec(spec_duration)]
    pub fn duration(self) -> (d: TimeSpan)
        ensures
            d == self.spec_duration(),
    {
        match self {
            TimeControl::Bullet => TimeSpan::from_secs(60),
            TimeControl::Normal => TimeSpan::from_secs(600),
            TimeControl::Custom(d) => d,
        }
    }

    pub fn name(self) -> (s: &'static str)
        ensures
            s@ == match self {
                TimeControl::Bullet => "Bullet (1 min)"@,
                TimeControl::Normal => "Normal (10 min)"@,
                TimeControl::Custom(_) => "Custom"@,
            },
    {
        match self {
            TimeControl::Bullet => "Bullet (1 min)",
            TimeControl::Normal => "Normal (10 min)",
            TimeControl::Custom(_) => "Custom",
        }
    }
}

/// Chess timer for one player
#[derive(Debug, Clone)]
pub struct PlayerTimer {
    remaining: TimeSpan,
    running: bool,
    last_tick: Option<Instant>,
}

impl PlayerTimer {
    /// Time left as of the last tick.
    pub closed spec fn banked(&self) -> TimeSpan {
        self.remaining
    }

    pub closed spec fn spec_running(&self) -> bool {
        self.running
    }

    /// A tick of the clock is recorded (the clock was started).
    pub closed spec fn ticking(&self) -> bool {
        self.last_tick is Some
    }

    /// The moment of the last recorded tick.
    pub closed spec fn tick(&self) -> Option<Instant> {
        self.last_tick
    }

    /// The clock is counting down: running, from a recorded tick.
    pub open spec fn counting(&self) -> bool {
        self.spec_running() && self.ticking()
    }

    pub fn new(initial: TimeSpan) -> (t: Self)
        ensures
            t.banked() == initial,
            !t.spec_running(),
            !t.ticking(),
    {
        PlayerTimer { remaining: initial, running: false, last_tick: None }
    }

    pub fn start(&mut self)
        ensures
            final(self).banked() == old(self).banked(),
            final(self).spec_running(),
            !old(self).spec_running() ==> final(self).ticking(),
            old(self).spec_running() ==> final(self).ticking() == old(self).ticking(),
            old(self).spec_running() ==> final(self).tick() == old(self).tick(),
    {
        if !self.running {
            self.running = true;
            self.last_tick = Some(clock_now());
        }
    }

    pub fn stop(&mut self)
        ensures
            !old(self).spec_running() ==> *final(self) == *old(self),
            !final(self).spec_running(),
            old(self).spec_running() ==> !final(self).ticking(),
            !old(self).spec_running() ==> final(self).ticking() == old(self).ticking(),
            final(self).banked().nanos <= old(self).banked().nanos,
            !old(self).counting() ==> final(self).banked() == old(self).banked(),
    {
        if self.running {
            self.update();
            self.running = false;
            self.last_tick = None;
        }
    }

    /// Take `elapsed` off the time left, if the clock is counting down.
    pub fn charge(&mut self, elapsed: TimeSpan)
        ensures
            final(self).banked() == if old(self).counting() {
                old(self).banked().saturating_sub(elapsed)
            } else {
                old(self).banked()
            },
            final(self).spec_running() == old(self).spec_running(),
            final(self).ticking() == old(self).ticking(),
    {
        if self.running {
            if self.last_tick.is_some() {
                self.remaining = self.remaining.saturating_sub(elapsed);
            }
        }
    }

    pub fn update(&mut self)
        ensures
            final(self).spec_running() == old(self).spec_running(),
            final(self).ticking() == old(self).ticking(),
            final(self).banked().nanos <= old(self).banked().nanos,
            !old(self).counting() ==> final(self).banked() == old(self).banked(),
    {
        if self.running {
            if let Some(last) = self.last_tick {
                let elapsed = elapsed_since(&last);
                self.charge(elapsed);
                self.last_tick = Some(clock_now());
            }
        }
    }

    /// The time left after `elapsed` more time on a counting clock.
    pub fn remaining_after(&self, elapsed: TimeSpan) -> (t: TimeSpan)
        ensures
            t == if self.counting() {
                self.banked().saturating_sub(elapsed)
            } else {
                self.banked()
            },
    {
        if self.running {
            if self.last_tick.is_some() {
                return self.remaining.saturating_sub(elapsed);
            }
        }
        self.remaining
    }

    pub fn remaining(&self) -> (t: TimeSpan)
        ensures
            t.nanos <= self.banked().nanos,
            !self.counting() ==> t == self.banked(),
    {
        if self.running {
            if let Some(last) = self.last_tick {
                return self.remaining_after(elapsed_since(&last));
            }
        }
        self.remaining
    }

    pub fn is_running(&self) -> (b: bool)
        ensures
            b == self.spec_running(),
    {
        self.running
    }

    pub fn is_expired(&self) -> (b: bool)
        ensures
            self.banked().nanos == 0 ==> b,
            !self.counting() ==> b == (self.banked().nanos == 0),
    {
        self.remaining().nanos == 0
    }

    pub fn reset(&mut self, initial: TimeSpan)
        ensures
            final(self).banked() == initial,
            !final(self).spec_running(),
            !final(self).ticking(),
    {
        self.remaining = initial;
        self.running = false;
        self.last_tick = None;
    }
}

/// `b` is a possible answer of the flag check of `clock`: a clock with no
/// time banked has fallen, and a clock that is not counting down has fallen
/// exactly when no time is banked. While it counts, the answer also depends
/// on the time passed since its last tick.
pub open spec fn flag_reading(clock: PlayerTimer, b: bool) -> bool {
    &&& clock.banked().nanos == 0 ==> b
    &&& !clock.counting() ==> b == (clock.banked().nanos == 0)
}

/// Game timer managing both players
#[derive(Debug, Clone)]
pub struct GameTimer {
    pub white: PlayerTimer,
    pub black: PlayerTimer,
    pub time_control: TimeControl,
}

impl GameTimer {
    pub open spec fn spec_time_control(&self) -> TimeControl {
        self.time_control
    }

    pub open spec fn white_clock(&self) -> PlayerTimer {
        self.white
    }

    pub open spec fn black_clock(&self) -> PlayerTimer {
        self.black
    }

    pub fn new(time_control: TimeControl) -> (t: Self)
        ensures
            t.spec_time_control() == time_control,
            t.white_clock().banked() == time_control.duration(),
            t.black_clock().banked() == time_control.duration(),
            !t.white_clock().spec_running() && !t.white_clock().ticking(),
            !t.black_clock().spec_running() && !t.black_clock().ticking(),
    {
        let duration = time_control.duration();
        GameTimer {
            white: PlayerTimer::new(duration),
            black: PlayerTimer::new(duration),
            time_control,
        }
    }

    pub fn start_white(&mut self)
        ensures
            old(self).white_clock().spec_running() ==> final(self).white_clock().tick() == old(
                self,
            ).white_clock().tick(),
            final(self).white_clock().spec_running(),
            !final(self).black_clock().spec_running(),
            !old(self).black_clock().spec_running() ==> final(self).black_clock() == old(self).black_clock(),
            final(self).white_clock().banked() == old(self).white_clock().banked(),
            final(self).black_clock().banked().nanos <= old(self).black_clock().banked().nanos,
            final(self).spec_time_control() == old(self).spec_time_control(),
    {
        self.black.stop();
        self.white.start();
    }

    pub fn start_black(&mut self)
        ensures
            old(self).black_clock().spec_running() ==> final(self).black_clock().tick() == old(
                self,
            ).black_clock().tick(),
            final(self).black_clock().spec_running(),
            !final(self).white_clock().spec_running(),
            !old(self).white_clock().spec_running() ==> final(self).white_clock() == old(self).white_clock(),
            final(self).black_clock().banked() == old(self).black_clock().banked(),
            final(self).white_clock().banked().nanos <= old(self).white_clock().banked().nanos,
            final(self).spec_time_control() == old(self).spec_time_control(),
    {
        self.white.stop();
        self.black.start();
    }

    pub fn stop_all(&mut self)
        ensures
            !final(self).white_clock().spec_running(),
            !final(self).black_clock().spec_running(),
            final(self).white_clock().banked().nanos <= old(self).white_clock().banked().nanos,
            final(self).black_clock().banked().nanos <= old(self).black_clock().banked().nanos,
            final(self).spec_time_control() == old(self).spec_time_control(),
    {
        self.white.stop();
        self.black.stop();
    }

    pub fn update(&mut self)
        ensures
            final(self).white_clock().spec_running() == old(self).white_clock().spec_running(),
            final(self).black_clock().spec_running() == old(self).black_clock().spec_running(),
            final(self).white_clock().banked().nanos <= old(self).white_clock().banked().nanos,
            final(self).black_clock().banked().nanos <= old(self).black_clock().banked().nanos,
            final(self).spec_time_control() == old(self).spec_time_control(),
    {
        self.white.update();
        self.black.update();
    }

    pub fn reset(&mut self)
        ensures
            final(self).white_clock().banked() == old(self).spec_time_control().duration(),
            final(self).black_clock().banked() == old(self).spec_time_control().duration(),
            !final(self).white_clock().spec_running() && !final(self).white_clock().ticking(),
            !final(self).black_clock().spec_running() && !final(self).black_clock().ticking(),
            final(self).spec_time_control() == old(self).spec_time_control(),
    {
        let duration = self.time_control.duration();
        self.white.reset(duration);
        self.black.reset(duration);
    }

    pub fn time_control(&self) -> (tc: TimeControl)
        ensures
            tc == self.spec_time_control(),
    {
        self.time_control
    }

    pub fn set_time_control(&mut self, tc: TimeControl)
        ensures
            final(self).spec_time_control() == tc,
            final(self).white_clock().banked() == tc.duration(),
            final(self).black_clock().banked() == tc.duration(),
            !final(self).white_clock().spec_running() && !final(self).white_clock().ticking(),
            !final(self).black_clock().spec_running() && !final(self).black_clock().ticking(),
    {
        self.time_control = tc;
        self.reset();
    }

    pub fn white_flagged(&self) -> (b: bool)
        ensures
            self.white_clock().banked().nanos == 0 ==> b,
            !self.white_clock().counting() ==> b == (self.white_clock().banked().nanos == 0),
            flag_reading(self.white_clock(), b),
    {
        self.white.is_expired()
    }

    pub fn black_flagged(&self) -> (b: bool)
        ensures
            self.black_clock().banked().nanos == 0 ==> b,
            !self.black_clock().counting() ==> b == (self.black_clock().banked().nanos == 0),
            flag_reading(self.black_clock(), b),
    {
        self.black.is_expired()
    }
}

/// The character of decimal digit `d`.
pub open spec fn digit_char(d: int) -> char {
    if d == 0 {
        '0'
    } else if d == 1 {
        '1'
    } else if d == 2 {
        '2'
    } else if d == 3 {
        '3'
    } else if d == 4 {
        '4'
    } else if d == 5 {
        '5'
    } else if d == 6 {
        '6'
    } else if d == 7 {
        '7'
    } else if d == 8 {
        '8'
    } else {
        '9'
    }
}

/// The decimal digits of `n`, without leading zeros.
pub open spec fn decimal(n: nat) -> Seq<char>
    decreases n,
{
    if n < 10 {
        seq![digit_char(n as int)]
    } else {
        decimal(n / 10).push(digit_char((n % 10) as int))
    }
}

/// A clock reading of `nanos` nanoseconds: minutes, a colon and two digits
/// of seconds, and under ten seconds a point and the tenths.
pub open spec fn clock_text(nanos: nat) -> Seq<char> {
    let total_secs = nanos / 1_000_000_000;
    let mins = total_secs / 60;
    let secs = total_secs % 60;
    let tenths = (nanos % 1_000_000_000) / 1_000_000 / 100;
    let head = decimal(mins) + seq![':', digit_char((secs / 10) as int), digit_char((secs % 10) as int)];
    if total_secs < 10 {
        head + seq!['.', digit_char(tenths as int)]
    } else {
        head
    }
}

/// The one-character string of digit `d`.
fn digit_str(d: u128) -> (s: &'static str)
    requires
        d < 10,
    ensures
        s@ == seq![digit_char(d as int)],
{
    if d == 0 {
        proof { reveal_strlit("0"); }
        "0"
    } else if d == 1 {
        proof { reveal_strlit("1"); }
        "1"
    } else if d == 2 {
        proof { reveal_strlit("2"); }
        "2"
    } else if d == 3 {
        proof { reveal_strlit("3"); }
        "3"
    } else if d == 4 {
        proof { reveal_strlit("4"); }
        "4"
    } else if d == 5 {
        proof { reveal_strlit("5"); }
        "5"
    } else if d == 6 {
        proof { reveal_strlit("6"); }
        "6"
    } else if d == 7 {
        proof { reveal_strlit("7"); }
        "7"
    } else if d == 8 {
        proof { reveal_strlit("8"); }
        "8"
    } else {
        proof { reveal_strlit("9"); }
        "9"
    }
}

/// Append the decimal digits of `n`.
fn push_decimal(out: &mut String, n: u128)
    ensures
        final(out)@ == old(out)@ + decimal(n as nat),
    decreases n,
{
    if n >= 10 {
        push_decimal(out, n / 10);
    }
    out.append(digit_str(n % 10));
    assert(final(out)@ =~= old(out)@ + decimal(n as nat));
}

/// Format duration as MM:SS
pub fn format_time(duration: TimeSpan) -> (s: String)
    ensures
        s@ == clock_text(duration.nanos as nat),
{
    let total_secs = duration.nanos / 1_000_000_000;
    let mins = total_secs / 60;
    let secs = total_secs % 60;
    let tenths = duration.nanos % 1_000_000_000 / 1_000_000 / 100;
    let mut out = String::new();
    push_decimal(&mut out, mins);
    proof { reveal_strlit(":"); }
    out.append(":");
    out.append(digit_str(secs / 10));
    out.append(digit_str(secs % 10));
    if total_secs < 10 {
        proof { reveal_strlit("."); }
        out.append(".");
        out.append(digit_str(tenths));
    }
    assert(out@ =~= clock_text(duration.nanos as nat));
    out
}

} // verus!
