//! Bit-exact model of a single-wire WS2812 LED driver: clock-divisor
//! derivation, the per-bit pulse-shaping program, the bounded transmit queue
//! and the engine that drains it.
//!
//! Time is counted in cycles of the sample clock throughout. A bit lasts ten
//! cycles, a word 32 bits, most significant bit first unless the engine is
//! configured otherwise.

pub mod clock;
pub mod color;
pub mod decode;
pub mod engine;
pub mod program;
pub mod pulse;
pub mod queue;
pub mod sequence;
pub mod timing;
