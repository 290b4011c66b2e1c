//! Reading a pulse train back: the durations of its levels, the bits it
//! carries and the word they make up.

use vstd::prelude::*;
use crate::pulse::{
    bit_at, bit_wave, duration, encode_word, hold, level_at, lemma_train_period, train,
    word_bits, word_wave, Level, ShiftDirection, WORD_BITS,
};
use crate::timing::{TimingConstants, CYCLES_PER_BIT};

verus! {

/// Cycles that `wave` spends high and low, in that order.
pub fn measure(wave: &Vec<Level>) -> (r: (usize, usize))
    ensures
        r.0 == duration(wave@, Level::High),
        r.1 == duration(wave@, Level::Low),
{
    let mut high: usize = 0;
    let mut low: usize = 0;
    let mut i: usize = 0;
    assert(wave@.take(0) =~= Seq::<Level>::empty());
    while i < wave.len()
        invariant
            i <= wave.len(),
            high + low == i,
            high == duration(wave@.take(i as int), Level::High),
            low == duration(wave@.take(i as int), Level::Low),
        decreases wave.len() - i,
    {
        assert(wave@.take(i + 1).drop_last() =~= wave@.take(i as int));
        match wave[i] {
            Level::High => {
                high = high + 1;
            },
            Level::Low => {
                low = low + 1;
            },
        }
        i = i + 1;
    }
    assert(wave@.take(wave.len() as int) =~= wave@);
    (high, low)
}

/// Durations add up over concatenation.
pub proof fn lemma_duration_concat(a: Seq<Level>, b: Seq<Level>, level: Level)
    ensures
        duration(a + b, level) == duration(a, level) + duration(b, level),
    decreases b.len(),
{
    if b.len() == 0 {
        assert(a + b =~= a);
    } else {
        lemma_duration_concat(a, b.drop_last(), level);
        assert((a + b).drop_last() =~= a + b.drop_last());
    }
}

/// A held level lasts as long as it is held, and the other level not at
/// all.
pub proof fn lemma_duration_hold(held: Level, n: nat, level: Level)
    ensures
        duration(hold(held, n), level) == if held == level { n } else { 0 },
    decreases n,
{
    if n > 0 {
        lemma_duration_hold(held, (n - 1) as nat, level);
        assert(hold(held, n).drop_last() =~= hold(held, (n - 1) as nat));
    }
}

/// A one is high for the common pulse and its extension and low while the
/// period opens; a zero is high for the common pulse only and low for the
/// rest. Either way the bit lasts exactly the cycles of one bit.
pub proof fn lemma_bit_durations(t: TimingConstants, bit: bool)
    requires
        t.wf(),
    ensures
        bit ==> duration(bit_wave(t, bit), Level::High) == t.t1 + t.t2,
        bit ==> duration(bit_wave(t, bit), Level::Low) == t.t3,
        !bit ==> duration(bit_wave(t, bit), Level::High) == t.t1,
        !bit ==> duration(bit_wave(t, bit), Level::Low) == t.t2 + t.t3,
        bit_wave(t, bit).len() == CYCLES_PER_BIT,
{
    let open = hold(Level::Low, t.t3 as nat);
    let pulse = hold(Level::High, t.t1 as nat);
    let data = hold(if bit { Level::High } else { Level::Low }, t.t2 as nat);
    assert(bit_wave(t, bit) =~= open + pulse + data);
    lemma_duration_concat(open + pulse, data, Level::High);
    lemma_duration_concat(open + pulse, data, Level::Low);
    lemma_duration_concat(open, pulse, Level::High);
    lemma_duration_concat(open, pulse, Level::Low);
    lemma_duration_hold(Level::Low, t.t3 as nat, Level::High);
    lemma_duration_hold(Level::Low, t.t3 as nat, Level::Low);
    lemma_duration_hold(Level::High, t.t1 as nat, Level::High);
    lemma_duration_hold(Level::High, t.t1 as nat, Level::Low);
    lemma_duration_hold(if bit { Level::High } else { Level::Low }, t.t2 as nat, Level::High);
    lemma_duration_hold(if bit { Level::High } else { Level::Low }, t.t2 as nat, Level::Low);
}

/// Level of the pin at cycle `tick` of the period of `bit`.
pub fn sample_level(t: TimingConstants, bit: bool, tick: usize) -> (r: Level)
    ensures
        r == level_at(t, bit, tick as int),
{
    if tick < t.t3 as usize {
        Level::Low
    } else if tick < t.t3 as usize + t.t1 as usize {
        Level::High
    } else if bit {
        Level::High
    } else {
        Level::Low
    }
}

/// The bit whose pulse shape fills the ten cycles of `wave` from `start`
/// on, or `None` if they have the shape of neither bit.
pub fn decode_bit_at(t: TimingConstants, wave: &Vec<Level>, start: usize) -> (r: Option<bool>)
    requires
        t.wf(),
        start + CYCLES_PER_BIT <= wave@.len(),
    ensures
        match r {
            Some(bit) => wave@.subrange(start as int, start + CYCLES_PER_BIT) == bit_wave(t, bit),
            None => forall|bit: bool|
                wave@.subrange(start as int, start + CYCLES_PER_BIT) != #[trigger] bit_wave(
                    t,
                    bit,
                ),
        },
{
    let ghost period = wave@.subrange(start as int, start + 10);
    let len: usize = wave.len();
    let data_tick: usize = t.t3 as usize + t.t1 as usize;
    let guess: bool = match wave[start + data_tick] {
        Level::High => true,
        Level::Low => false,
    };
    assert(period[data_tick as int] == wave@[start + data_tick]);
    let mut tick: usize = 0;
    while tick < 10
        invariant
            t.wf(),
            tick <= 10,
            len == wave@.len(),
            start + 10 <= len,
            data_tick == t.t3 + t.t1,
            guess == (period[data_tick as int] == Level::High),
            period == wave@.subrange(start as int, start + 10),
            forall|j: int| 0 <= j < tick ==> period[j] == level_at(t, guess, j),
        decreases 10 - tick,
    {
        if wave[start + tick] != sample_level(t, guess, tick) {
            proof {
                assert(period[tick as int] != level_at(t, guess, tick as int));
                assert forall|bit: bool| period != #[trigger] bit_wave(t, bit) by {
                    if bit == guess {
                        assert(bit_wave(t, bit)[tick as int] == level_at(t, guess, tick as int));
                    } else {
                        assert(bit_wave(t, bit)[data_tick as int] == level_at(
                            t,
                            bit,
                            data_tick as int,
                        ));
                    }
                }
            }
            return None;
        }
        tick = tick + 1;
    }
    assert(period =~= bit_wave(t, guess));
    Some(guess)
}

/// The bits that `wave` carries, or `None` if it is the pulse train of no
/// sequence of bits.
pub fn decode_bits(t: TimingConstants, wave: &Vec<Level>) -> (r: Option<Vec<bool>>)
    requires
        t.wf(),
    ensures
        match r {
            Some(bits) => wave@ == train(t, bits@),
            None => forall|bits: Seq<bool>| wave@ != #[trigger] train(t, bits),
        },
{
    if wave.len() % 10 != 0 {
        return None;
    }
    let len: usize = wave.len();
    let n: usize = len / 10;
    let mut out: Vec<bool> = Vec::new();
    let mut i: usize = 0;
    while i < n
        invariant
            t.wf(),
            i <= n,
            len == wave@.len(),
            len == n * 10,
            out@.len() == i,
            forall|k: int|
                0 <= k < i ==> #[trigger] wave@.subrange(k * 10, k * 10 + 10) == bit_wave(
                    t,
                    out@[k],
                ),
        decreases n - i,
    {
        match decode_bit_at(t, wave, i * 10) {
            Some(bit) => {
                out.push(bit);
            },
            None => {
                proof {
                    assert forall|bits: Seq<bool>| wave@ != #[trigger] train(t, bits) by {
                        if wave@ == train(t, bits) {
                            assert(bits.len() == n);
                            lemma_train_period(t, bits, i as int);
                            assert(wave@.subrange(i * 10, i * 10 + 10) == bit_wave(
                                t,
                                bits[i as int],
                            ));
                        }
                    }
                }
                return None;
            },
        }
        i = i + 1;
    }
    proof {
        assert forall|k: int| 0 <= k < wave@.len() implies wave@[k] == train(t, out@)[k] by {
            let p = k / 10;
            let period = wave@.subrange(p * 10, p * 10 + 10);
            assert(period == bit_wave(t, out@[p]));
            assert(period[k % 10] == wave@[k]);
        }
        assert(wave@ =~= train(t, out@));
    }
    Some(out)
}

/// Setting one bit of a word leaves every other bit as it was.
pub proof fn lemma_set_bit(acc: u32, at: u32, k: u32)
    by (bit_vector)
    requires
        at < 32,
        k < 32,
    ensures
        ((acc | (1u32 << at)) >> k) & 1 == if k == at { 1u32 } else { (acc >> k) & 1 },
{
}

/// The word whose 32 bits in transmission order are `bits`.
pub fn pack_bits(bits: &Vec<bool>, dir: ShiftDirection) -> (r: u32)
    requires
        bits@.len() == WORD_BITS,
    ensures
        word_bits(r, dir) == bits@,
{
    let mut acc: u32 = 0;
    let mut i: usize = 0;
    assert forall|j: int| 0 <= j < 32 implies !bit_at(0u32, dir, j) by {
        let k = (31 - j) as u32;
        let m = j as u32;
        assert((0u32 >> k) & 1 == 0) by (bit_vector);
        assert((0u32 >> m) & 1 == 0) by (bit_vector);
    }
    while i < 32
        invariant
            i <= 32,
            bits@.len() == 32,
            forall|j: int| 0 <= j < i ==> bit_at(acc, dir, j) == bits@[j],
            forall|j: int| i <= j < 32 ==> !bit_at(acc, dir, j),
        decreases 32 - i,
    {
        if bits[i] {
            let at: u32 = match dir {
                ShiftDirection::Left => 31 - i as u32,
                ShiftDirection::Right => i as u32,
            };
            let next: u32 = acc | (1u32 << at);
            proof {
                assert forall|j: int| 0 <= j < 32 implies bit_at(next, dir, j) == (if j == i {
                    true
                } else {
                    bit_at(acc, dir, j)
                }) by {
                    let k = match dir {
                        ShiftDirection::Left => (31 - j) as u32,
                        ShiftDirection::Right => j as u32,
                    };
                    lemma_set_bit(acc, at, k);
                }
            }
            acc = next;
        }
        i = i + 1;
    }
    assert(word_bits(acc, dir) =~= bits@);
    acc
}

/// The word whose pulse train `wave` is, or `None` if it is the pulse
/// train of no word.
pub fn decode_word(t: TimingConstants, dir: ShiftDirection, wave: &Vec<Level>) -> (r: Option<u32>)
    requires
        t.wf(),
    ensures
        match r {
            Some(word) => wave@ == word_wave(t, dir, word),
            None => forall|word: u32| wave@ != #[trigger] word_wave(t, dir, word),
        },
{
    match decode_bits(t, wave) {
        Some(bits) => {
            if bits.len() != 32 {
                assert forall|word: u32| wave@ != #[trigger] word_wave(t, dir, word) by {
                    assert(word_wave(t, dir, word).len() == 320);
                    assert(train(t, bits@).len() == bits@.len() * 10);
                }
                None
            } else {
                Some(pack_bits(&bits, dir))
            }
        },
        None => {
            assert forall|word: u32| wave@ != #[trigger] word_wave(t, dir, word) by {
                assert(wave@ != train(t, word_bits(word, dir)));
            }
            None
        },
    }
}

/// Two sequences of bits with the same pulse train are the same.
pub proof fn lemma_train_injective(t: TimingConstants, a: Seq<bool>, b: Seq<bool>)
    requires
        t.wf(),
        train(t, a) == train(t, b),
    ensures
        a == b,
{
    assert(train(t, a).len() == a.len() * 10);
    assert(train(t, b).len() == b.len() * 10);
    assert(a.len() == b.len());
    let data_tick = t.t3 + t.t1;
    assert forall|i: int| 0 <= i < a.len() implies a[i] == b[i] by {
        let k = i * 10 + data_tick;
        assert(k / 10 == i);
        assert(k % 10 == data_tick);
        assert(train(t, a)[k] == level_at(t, a[i], data_tick as int));
        assert(train(t, b)[k] == level_at(t, b[i], data_tick as int));
    }
    assert(a =~= b);
}

/// Two words that agree in their lowest bit agree once all other bits are
/// shifted out.
proof fn lemma_low_bit_agrees(a: u32, b: u32)
    by (bit_vector)
    requires
        (a >> 0u32) & 1 == (b >> 0u32) & 1,
    ensures
        a << 31u32 == b << 31u32,
{
}

/// Two words that agree below a bit and in that bit agree up to it.
proof fn lemma_next_bit_agrees(a: u32, b: u32, s: u32)
    by (bit_vector)
    requires
        s < 31,
        a << ((s + 1) as u32) == b << ((s + 1) as u32),
        (a >> ((31 - s) as u32)) & 1 == (b >> ((31 - s) as u32)) & 1,
    ensures
        a << s == b << s,
{
}

/// Two words that agree in every bit agree in their lowest `32 - s` bits.
proof fn lemma_low_bits_agree(a: u32, b: u32, s: u32)
    requires
        s <= 31,
        forall|k: u32| k < 32 ==> (a >> k) & 1 == (b >> k) & 1,
    ensures
        a << s == b << s,
    decreases 31 - s,
{
    if s == 31 {
        lemma_low_bit_agrees(a, b);
    } else {
        lemma_low_bits_agree(a, b, (s + 1) as u32);
        lemma_next_bit_agrees(a, b, s);
    }
}

/// Two words that agree in every bit are the same word.
pub proof fn lemma_bits_decide_word(a: u32, b: u32)
    requires
        forall|k: u32| k < 32 ==> (a >> k) & 1 == (b >> k) & 1,
    ensures
        a == b,
{
    lemma_low_bits_agree(a, b, 0);
    assert(a << 0u32 == a) by (bit_vector);
    assert(b << 0u32 == b) by (bit_vector);
}

/// Two words with the same pulse train are the same: a train can be read
/// back in one way only.
pub proof fn lemma_word_wave_injective(t: TimingConstants, dir: ShiftDirection, a: u32, b: u32)
    requires
        t.wf(),
        word_wave(t, dir, a) == word_wave(t, dir, b),
    ensures
        a == b,
{
    lemma_train_injective(t, word_bits(a, dir), word_bits(b, dir));
    assert forall|k: u32| k < 32 implies (a >> k) & 1 == (b >> k) & 1 by {
        let i: int = match dir {
            ShiftDirection::Left => 31 - k,
            ShiftDirection::Right => k as int,
        };
        assert(word_bits(a, dir)[i] == bit_at(a, dir, i));
        assert(word_bits(b, dir)[i] == bit_at(b, dir, i));
        assert(((a >> k) & 1 == 1) == ((b >> k) & 1 == 1));
        assert((a >> k) & 1 == 0 || (a >> k) & 1 == 1) by (bit_vector);
        assert((b >> k) & 1 == 0 || (b >> k) & 1 == 1) by (bit_vector);
    }
    lemma_bits_decide_word(a, b);
}

/// Encodes `word` and reads the pulse train back: the answer is always the
/// word itself.
pub fn round_trip(t: TimingConstants, dir: ShiftDirection, word: u32) -> (r: Option<u32>)
    requires
        t.wf(),
    ensures
        r == Some(word),
{
    let wave = encode_word(t, dir, word);
    let r = decode_word(t, dir, &wave);
    proof {
        match r {
            Some(back) => {
                lemma_word_wave_injective(t, dir, back, word);
            },
            None => {
                assert(wave@ != word_wave(t, dir, word));
            },
        }
    }
    r
}

} // verus!
