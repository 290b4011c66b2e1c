//! Timing constants of the one-wire protocol and the clock divisor derived
//! from them.

use vstd::prelude::*;

verus! {

/// Cycles of the high pulse that every bit carries.
pub const T1: u8 = 2;

/// Cycles by which a logical one extends its high pulse; a logical zero is
/// low for the same number of cycles.
pub const T2: u8 = 5;

/// Cycles of the low period that opens every bit.
pub const T3: u8 = 3;

/// Sample-clock cycles that one bit lasts.
pub const CYCLES_PER_BIT: u32 = 10;

/// Bits per second on the wire.
pub const TARGET_BIT_FREQ: u32 = 800_000;

/// Sample-clock cycles per second: bit frequency times cycles per bit.
pub const SAMPLE_FREQ: u32 = 8_000_000;

/// Why a clock divisor or a set of timing constants was rejected.
#[derive(Clone, Copy, Debug, PartialEq, Eq, Structural)]
pub enum TimingError {
    /// The peripheral clock is slower than the sample clock, so the divisor
    /// would truncate to zero.
    ClockTooSlow,
    /// One of the three cycle counts is zero.
    ZeroPhase,
    /// The three cycle counts do not add up to the cycles of one bit.
    BadCycleSum,
}

/// The three cycle counts that shape one bit.
#[derive(Clone, Copy, Debug, PartialEq, Eq, Structural)]
pub struct TimingConstants {
    /// Cycles of the high pulse common to both bit values.
    pub t1: u8,
    /// Cycles that are high for a one and low for a zero.
    pub t2: u8,
    /// Cycles of the low period that opens the bit.
    pub t3: u8,
}

impl TimingConstants {
    /// All three counts are positive and together fill exactly one bit.
    pub open spec fn wf(&self) -> bool {
        &&& self.t1 >= 1
        &&& self.t2 >= 1
        &&& self.t3 >= 1
        &&& self.t1 + self.t2 + self.t3 == CYCLES_PER_BIT
    }

    /// The error that `new` reports for three counts, if any. A zero count
    /// is reported before a wrong sum.
    pub open spec fn defect(t1: u8, t2: u8, t3: u8) -> Option<TimingError> {
        if t1 == 0 || t2 == 0 || t3 == 0 {
            Some(TimingError::ZeroPhase)
        } else if t1 + t2 + t3 != CYCLES_PER_BIT {
            Some(TimingError::BadCycleSum)
        } else {
            None
        }
    }

    /// The fixed constants of the protocol: two, five and three cycles.
    pub fn ws2812() -> (r: Self)
        ensures
            r.wf(),
            r.t1 == T1,
            r.t2 == T2,
            r.t3 == T3,
    {
        TimingConstants { t1: T1, t2: T2, t3: T3 }
    }

    /// Checked constructor: the counts are accepted exactly when they are
    /// well formed.
    pub fn new(t1: u8, t2: u8, t3: u8) -> (r: Result<Self, TimingError>)
        ensures
            match r {
                Ok(t) => Self::defect(t1, t2, t3).is_none() && t.wf() && t.t1 == t1 && t.t2 == t2
                    && t.t3 == t3,
                Err(e) => Self::defect(t1, t2, t3) == Some(e),
            },
    {
        if t1 == 0 || t2 == 0 || t3 == 0 {
            return Err(TimingError::ZeroPhase);
        }
        let sum: u32 = t1 as u32 + t2 as u32 + t3 as u32;
        if sum != CYCLES_PER_BIT {
            return Err(TimingError::BadCycleSum);
        }
        Ok(TimingConstants { t1, t2, t3 })
    }

    /// Re-checks the invariant of a value whose fields were set by hand.
    pub fn validate(&self) -> (r: Result<(), TimingError>)
        ensures
            r.is_ok() <==> self.wf(),
            match r {
                Ok(_) => true,
                Err(e) => Self::defect(self.t1, self.t2, self.t3) == Some(e),
            },
    {
        match Self::new(self.t1, self.t2, self.t3) {
            Ok(_) => Ok(()),
            Err(e) => Err(e),
        }
    }

    /// Cycles of one whole bit.
    pub fn cycles_per_bit(&self) -> (r: u32)
        ensures
            r == self.t1 + self.t2 + self.t3,
            self.wf() ==> r == CYCLES_PER_BIT,
    {
        self.t1 as u32 + self.t2 as u32 + self.t3 as u32
    }
}

/// Sample-clock frequency in Hz: bit frequency times cycles per bit.
pub open spec fn sample_freq() -> nat {
    (TARGET_BIT_FREQ as nat) * (CYCLES_PER_BIT as nat)
}

/// The divisor as a mathematical function of the peripheral clock.
pub open spec fn divisor_of(peripheral_clock_hz: nat) -> nat {
    peripheral_clock_hz / sample_freq()
}

/// Integer clock divisor for a peripheral clock of `peripheral_clock_hz`:
/// the clock divided by bit frequency times cycles per bit, rounded down.
/// A clock too slow for a divisor of at least one is rejected.
pub fn clock_divisor(peripheral_clock_hz: u32) -> (r: Result<u32, TimingError>)
    ensures
        r.is_ok() <==> peripheral_clock_hz >= sample_freq(),
        match r {
            Ok(d) => d == divisor_of(peripheral_clock_hz as nat) && d == peripheral_clock_hz
                / SAMPLE_FREQ && d >= 1,
            Err(e) => e == TimingError::ClockTooSlow,
        },
{
    let per_sample: u32 = TARGET_BIT_FREQ * CYCLES_PER_BIT;
    assert(per_sample == SAMPLE_FREQ);
    if peripheral_clock_hz < per_sample {
        Err(TimingError::ClockTooSlow)
    } else {
        let d: u32 = peripheral_clock_hz / per_sample;
        Ok(d)
    }
}

/// The sample frequency is eight million cycles per second, and the
/// divisor is the clock divided by it, rounded down.
pub proof fn lemma_divisor_value(peripheral_clock_hz: nat)
    ensures
        sample_freq() == SAMPLE_FREQ,
        SAMPLE_FREQ == 8_000_000,
        divisor_of(peripheral_clock_hz) == peripheral_clock_hz / 8_000_000,
{
    assert(sample_freq() == 8_000_000);
}

/// Every clock at least as fast as the sample clock has a divisor of at
/// least one, and the divisor times the sample frequency misses the clock
/// by less than one sample frequency.
pub proof fn lemma_divisor_bounds(peripheral_clock_hz: nat)
    requires
        peripheral_clock_hz >= sample_freq(),
    ensures
        divisor_of(peripheral_clock_hz) >= 1,
        divisor_of(peripheral_clock_hz) * sample_freq() <= peripheral_clock_hz,
        peripheral_clock_hz < (divisor_of(peripheral_clock_hz) + 1) * sample_freq(),
{
    assert(sample_freq() == 8_000_000);
}

/// The fixed constants fill exactly one bit.
pub proof fn lemma_fixed_constants_fill_bit()
    ensures
        T1 + T2 + T3 == CYCLES_PER_BIT,
        (TimingConstants { t1: T1, t2: T2, t3: T3 }).wf(),
{
}

} // verus!
