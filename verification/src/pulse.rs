//! The per-bit pulse shape: how a bit, a sequence of bits and a whole word
//! appear on the wire, one level per sample-clock cycle.

use vstd::prelude::*;
use crate::program::{lemma_program_traces_bit, timing_program, trace_bit};
use crate::timing::{TimingConstants, CYCLES_PER_BIT};

verus! {

/// Level of the output pin during one sample-clock cycle.
#[derive(Clone, Copy, Debug, PartialEq, Eq, Structural)]
pub enum Level {
    Low,
    High,
}

/// Order in which the bits of a word leave the shift register.
#[derive(Clone, Copy, Debug, PartialEq, Eq, Structural)]
pub enum ShiftDirection {
    /// Most significant bit first. This is the canonical direction of the
    /// driver.
    Left,
    /// Least significant bit first.
    Right,
}

/// Bits that one word puts on the wire.
pub const WORD_BITS: usize = 32;

/// Cycles that one word lasts on the wire.
pub const WORD_CYCLES: usize = 320;

/// One step of the timing program: hold `level` on the pin for `cycles`
/// cycles.
#[derive(Clone, Copy, Debug, PartialEq, Eq, Structural)]
pub struct MicroOp {
    pub level: Level,
    pub cycles: u8,
}

/// Level of the pin at cycle `tick` of a bit period: low while the period
/// opens, high for the common pulse, and then high for a one or low for a
/// zero.
pub open spec fn level_at(t: TimingConstants, bit: bool, tick: int) -> Level {
    if tick < t.t3 {
        Level::Low
    } else if tick < t.t3 + t.t1 {
        Level::High
    } else if bit {
        Level::High
    } else {
        Level::Low
    }
}

/// The pulse shape of one bit, cycle by cycle.
pub open spec fn bit_wave(t: TimingConstants, bit: bool) -> Seq<Level> {
    Seq::new(CYCLES_PER_BIT as nat, |tick: int| level_at(t, bit, tick))
}

/// The pulse train of a sequence of bits: bit `k / 10` decides cycle `k`.
pub open spec fn train(t: TimingConstants, bits: Seq<bool>) -> Seq<Level> {
    Seq::new(
        bits.len() * CYCLES_PER_BIT as nat,
        |k: int| level_at(t, bits[k / CYCLES_PER_BIT as int], k % CYCLES_PER_BIT as int),
    )
}

/// `n` cycles at one level.
pub open spec fn hold(level: Level, n: nat) -> Seq<Level> {
    Seq::new(n, |i: int| level)
}

/// The steps that the timing program takes for one bit, in order.
pub open spec fn bit_steps(t: TimingConstants, bit: bool) -> Seq<MicroOp> {
    seq![
        MicroOp { level: Level::Low, cycles: t.t3 },
        MicroOp { level: Level::High, cycles: t.t1 },
        MicroOp { level: if bit { Level::High } else { Level::Low }, cycles: t.t2 },
    ]
}

/// What a list of steps puts on the pin.
pub open spec fn steps_wave(steps: Seq<MicroOp>) -> Seq<Level>
    decreases steps.len(),
{
    if steps.len() == 0 {
        Seq::empty()
    } else {
        steps_wave(steps.drop_last()) + hold(steps.last().level, steps.last().cycles as nat)
    }
}

/// How many cycles of `wave` are at `level`.
pub open spec fn duration(wave: Seq<Level>, level: Level) -> nat
    decreases wave.len(),
{
    if wave.len() == 0 {
        0
    } else {
        duration(wave.drop_last(), level) + if wave.last() == level { 1nat } else { 0nat }
    }
}

/// Bit number `i` in transmission order of `word`.
pub open spec fn bit_at(word: u32, dir: ShiftDirection, i: int) -> bool {
    match dir {
        ShiftDirection::Left => (word >> ((31 - i) as u32)) & 1 == 1,
        ShiftDirection::Right => (word >> (i as u32)) & 1 == 1,
    }
}

/// The 32 bits of `word` in transmission order.
pub open spec fn word_bits(word: u32, dir: ShiftDirection) -> Seq<bool> {
    Seq::new(WORD_BITS as nat, |i: int| bit_at(word, dir, i))
}

/// The pulse train of one word.
pub open spec fn word_wave(t: TimingConstants, dir: ShiftDirection, word: u32) -> Seq<Level> {
    train(t, word_bits(word, dir))
}

/// The steps that the timing program takes for one bit, found by
/// running the program.
pub fn steps_for_bit(t: TimingConstants, bit: bool) -> (r: Vec<MicroOp>)
    requires
        t.wf(),
    ensures
        r@ == bit_steps(t, bit),
{
    let code = timing_program(t);
    let r = trace_bit(&code, bit);
    proof {
        lemma_program_traces_bit(t, bit);
    }
    r
}

/// Appends `n` cycles at `level` to `out`.
pub fn push_level(out: &mut Vec<Level>, level: Level, n: u8)
    ensures
        final(out)@ == old(out)@ + hold(level, n as nat),
{
    let mut i: u8 = 0;
    while i < n
        invariant
            i <= n,
            out@ == old(out)@ + hold(level, i as nat),
        decreases n - i,
    {
        out.push(level);
        i = i + 1;
        assert(out@ =~= old(out)@ + hold(level, i as nat));
    }
}

/// Runs a list of steps, appending what they put on the pin to `out`.
pub fn run_steps(steps: &Vec<MicroOp>, out: &mut Vec<Level>)
    ensures
        final(out)@ == old(out)@ + steps_wave(steps@),
{
    let mut i: usize = 0;
    assert(steps@.take(0) =~= Seq::<MicroOp>::empty());
    assert(out@ =~= old(out)@ + steps_wave(steps@.take(0)));
    while i < steps.len()
        invariant
            i <= steps.len(),
            out@ == old(out)@ + steps_wave(steps@.take(i as int)),
        decreases steps.len() - i,
    {
        let op: MicroOp = steps[i];
        push_level(out, op.level, op.cycles);
        proof {
            let next = steps@.take(i + 1);
            assert(next.drop_last() =~= steps@.take(i as int));
            assert(next.last() == op);
            assert(out@ =~= old(out)@ + steps_wave(next));
        }
        i = i + 1;
    }
    assert(steps@.take(steps.len() as int) =~= steps@);
}

/// The steps of one bit put exactly the bit's pulse shape on the pin.
pub proof fn lemma_steps_shape_bit(t: TimingConstants, bit: bool)
    requires
        t.wf(),
    ensures
        steps_wave(bit_steps(t, bit)) == bit_wave(t, bit),
{
    let s3 = bit_steps(t, bit);
    let s2 = s3.drop_last();
    let s1 = s2.drop_last();
    let s0 = s1.drop_last();
    assert(s0.len() == 0);
    assert(steps_wave(s0) =~= Seq::<Level>::empty());
    assert(steps_wave(s1) =~= hold(Level::Low, t.t3 as nat));
    assert(steps_wave(s2) =~= hold(Level::Low, t.t3 as nat) + hold(Level::High, t.t1 as nat));
    assert(steps_wave(s3) =~= bit_wave(t, bit));
}

/// Appends the pulse shape of one bit to `out` by running the timing
/// program's steps for it.
pub fn encode_bit(t: TimingConstants, bit: bool, out: &mut Vec<Level>)
    requires
        t.wf(),
    ensures
        final(out)@ == old(out)@ + bit_wave(t, bit),
{
    let steps = steps_for_bit(t, bit);
    run_steps(&steps, out);
    proof {
        lemma_steps_shape_bit(t, bit);
    }
}

/// Bit number `i` in transmission order of `word`.
pub fn shift_bit(word: u32, dir: ShiftDirection, i: usize) -> (r: bool)
    requires
        i < WORD_BITS,
    ensures
        r == bit_at(word, dir, i as int),
{
    match dir {
        ShiftDirection::Left => {
            let k: u32 = 31 - i as u32;
            (word >> k) & 1 == 1
        },
        ShiftDirection::Right => {
            let k: u32 = i as u32;
            (word >> k) & 1 == 1
        },
    }
}

/// The pulse train of a sequence of bits.
pub fn encode_bits(t: TimingConstants, bits: &Vec<bool>) -> (r: Vec<Level>)
    requires
        t.wf(),
    ensures
        r@ == train(t, bits@),
{
    let mut out: Vec<Level> = Vec::new();
    let mut i: usize = 0;
    assert(out@ =~= train(t, bits@.take(0)));
    while i < bits.len()
        invariant
            t.wf(),
            i <= bits.len(),
            out@ == train(t, bits@.take(i as int)),
        decreases bits.len() - i,
    {
        encode_bit(t, bits[i], &mut out);
        proof {
            lemma_train_push(t, bits@.take(i as int), bits@[i as int]);
            assert(bits@.take(i as int).push(bits@[i as int]) =~= bits@.take(i + 1));
        }
        i = i + 1;
    }
    assert(bits@.take(bits.len() as int) =~= bits@);
    out
}

/// The pulse train of one word: 32 bit periods of ten cycles each.
pub fn encode_word(t: TimingConstants, dir: ShiftDirection, word: u32) -> (r: Vec<Level>)
    requires
        t.wf(),
    ensures
        r@ == word_wave(t, dir, word),
        r@.len() == WORD_CYCLES,
{
    let mut out: Vec<Level> = Vec::new();
    let mut i: usize = 0;
    assert(out@ =~= train(t, word_bits(word, dir).take(0)));
    while i < WORD_BITS
        invariant
            t.wf(),
            i <= WORD_BITS,
            out@ == train(t, word_bits(word, dir).take(i as int)),
        decreases WORD_BITS - i,
    {
        let bit = shift_bit(word, dir, i);
        encode_bit(t, bit, &mut out);
        proof {
            let bits = word_bits(word, dir);
            lemma_train_push(t, bits.take(i as int), bit);
            assert(bits.take(i as int).push(bit) =~= bits.take(i + 1));
        }
        i = i + 1;
    }
    assert(word_bits(word, dir).take(WORD_BITS as int) =~= word_bits(word, dir));
    out
}

/// A train grows by one bit's pulse shape when a bit is appended.
pub proof fn lemma_train_push(t: TimingConstants, bits: Seq<bool>, bit: bool)
    ensures
        train(t, bits.push(bit)) == train(t, bits) + bit_wave(t, bit),
{
    let a = train(t, bits.push(bit));
    let b = train(t, bits) + bit_wave(t, bit);
    assert(a.len() == b.len());
    assert forall|k: int| 0 <= k < a.len() implies a[k] == b[k] by {
        if k < bits.len() * 10 {
            assert(k / 10 < bits.len());
        } else {
            assert(k / 10 == bits.len());
            assert(k % 10 == k - bits.len() * 10);
        }
    }
    assert(a =~= b);
}

/// Period `i` of a train is the pulse shape of bit `i`, and every bit lasts
/// exactly the cycles of one bit.
pub proof fn lemma_train_period(t: TimingConstants, bits: Seq<bool>, i: int)
    requires
        0 <= i < bits.len(),
    ensures
        train(t, bits).len() == bits.len() * CYCLES_PER_BIT,
        train(t, bits).subrange(i * CYCLES_PER_BIT, (i + 1) * CYCLES_PER_BIT) == bit_wave(
            t,
            bits[i],
        ),
{
    let p = train(t, bits).subrange(i * 10, (i + 1) * 10);
    assert forall|j: int| 0 <= j < 10 implies p[j] == bit_wave(t, bits[i])[j] by {
        assert((i * 10 + j) / 10 == i);
        assert((i * 10 + j) % 10 == j);
    }
    assert(p =~= bit_wave(t, bits[i]));
}

} // verus!
