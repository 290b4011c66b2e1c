//! The colour cycle that the host shows: which word to send in each
//! phase, which indicator lights go with it, and how long to wait.

use vstd::prelude::*;
use crate::color::{BLUE, GREEN, RED, WHITE};

verus! {

/// Idle time on the wire before each word, in microseconds. It is longer
/// than the time after which the receiver latches a frame.
pub const LATCH_WAIT_US: u32 = 60;

/// Idle time after which the receiver takes a frame as ended, in
/// microseconds.
pub const LATCH_THRESHOLD_US: u32 = 50;

/// Time that each colour stays on, in milliseconds.
pub const HOLD_MS: u32 = 500;

/// The four phases of the cycle, in the order in which they are shown.
#[derive(Clone, Copy, Debug, PartialEq, Eq, Structural)]
pub enum Phase {
    Blue,
    Red,
    Green,
    White,
}

/// What the host does in one phase.
#[derive(Clone, Copy, Debug, PartialEq, Eq, Structural)]
pub struct Frame {
    /// The colour word to write to the transmit queue.
    pub word: u32,
    /// Indicator lights that are lit, in the order blue, red, green.
    pub blue_lit: bool,
    pub red_lit: bool,
    pub green_lit: bool,
    /// Whether the write is repeated until the queue accepts the word. A
    /// write that is not repeated may be refused and the word lost.
    pub retry: bool,
}

/// The frame of a phase. Only the first phase of the cycle insists on
/// delivery.
pub open spec fn frame_of(phase: Phase) -> Frame {
    match phase {
        Phase::Blue => Frame {
            word: BLUE,
            blue_lit: true,
            red_lit: false,
            green_lit: false,
            retry: true,
        },
        Phase::Red => Frame {
            word: RED,
            blue_lit: false,
            red_lit: true,
            green_lit: false,
            retry: false,
        },
        Phase::Green => Frame {
            word: GREEN,
            blue_lit: false,
            red_lit: false,
            green_lit: true,
            retry: false,
        },
        Phase::White => Frame {
            word: WHITE,
            blue_lit: true,
            red_lit: true,
            green_lit: true,
            retry: false,
        },
    }
}

/// The phase that follows `phase`; after the last comes the first.
pub open spec fn successor(phase: Phase) -> Phase {
    match phase {
        Phase::Blue => Phase::Red,
        Phase::Red => Phase::Green,
        Phase::Green => Phase::White,
        Phase::White => Phase::Blue,
    }
}

/// The phase in which the cycle starts.
pub fn first_phase() -> (r: Phase)
    ensures
        r == Phase::Blue,
{
    Phase::Blue
}

/// What the host does in `phase`.
pub fn frame(phase: Phase) -> (r: Frame)
    ensures
        r == frame_of(phase),
{
    match phase {
        Phase::Blue => Frame {
            word: BLUE,
            blue_lit: true,
            red_lit: false,
            green_lit: false,
            retry: true,
        },
        Phase::Red => Frame {
            word: RED,
            blue_lit: false,
            red_lit: true,
            green_lit: false,
            retry: false,
        },
        Phase::Green => Frame {
            word: GREEN,
            blue_lit: false,
            red_lit: false,
            green_lit: true,
            retry: false,
        },
        Phase::White => Frame {
            word: WHITE,
            blue_lit: true,
            red_lit: true,
            green_lit: true,
            retry: false,
        },
    }
}

/// The phase that follows `phase`.
pub fn next_phase(phase: Phase) -> (r: Phase)
    ensures
        r == successor(phase),
{
    match phase {
        Phase::Blue => Phase::Red,
        Phase::Red => Phase::Green,
        Phase::Green => Phase::White,
        Phase::White => Phase::Blue,
    }
}

/// The cycle has four phases: four steps lead back to where they began,
/// and fewer do not. The wait before each word outlasts the latch
/// threshold.
pub proof fn lemma_cycle_of_four(phase: Phase)
    ensures
        successor(successor(successor(successor(phase)))) == phase,
        successor(phase) != phase,
        successor(successor(phase)) != phase,
        successor(successor(successor(phase))) != phase,
        LATCH_WAIT_US > LATCH_THRESHOLD_US,
{
}

} // verus!
