use ws2812_pio::decode::{
    decode_bit_at, decode_bits, decode_word, measure, pack_bits, round_trip, sample_level,
};
use ws2812_pio::pulse::{
    encode_bit, encode_bits, encode_word, push_level, run_steps, shift_bit, steps_for_bit, Level,
    MicroOp, ShiftDirection, WORD_BITS, WORD_CYCLES,
};
use ws2812_pio::timing::TimingConstants;

const H: Level = Level::High;
const L: Level = Level::Low;

fn one_shape() -> Vec<Level> {
    vec![L, L, L, H, H, H, H, H, H, H]
}

fn zero_shape() -> Vec<Level> {
    vec![L, L, L, H, H, L, L, L, L, L]
}

#[test]
fn one_is_a_long_high_pulse() {
    let t = TimingConstants::ws2812();
    let mut out = Vec::new();
    encode_bit(t, true, &mut out);
    assert_eq!(out, one_shape());
    assert_eq!(measure(&out), (7, 3));
}

#[test]
fn zero_is_a_short_high_pulse() {
    let t = TimingConstants::ws2812();
    let mut out = Vec::new();
    encode_bit(t, false, &mut out);
    assert_eq!(out, zero_shape());
    assert_eq!(measure(&out), (2, 8));
}

#[test]
fn durations_follow_the_constants() {
    let t = TimingConstants::new(1, 3, 6).unwrap();
    let mut one = Vec::new();
    encode_bit(t, true, &mut one);
    assert_eq!(measure(&one), (4, 6));
    let mut zero = Vec::new();
    encode_bit(t, false, &mut zero);
    assert_eq!(measure(&zero), (1, 9));
}

#[test]
fn encode_bit_appends() {
    let t = TimingConstants::ws2812();
    let mut out = vec![H];
    encode_bit(t, false, &mut out);
    encode_bit(t, true, &mut out);
    let mut expected = vec![H];
    expected.extend(zero_shape());
    expected.extend(one_shape());
    assert_eq!(out, expected);
}

#[test]
fn steps_of_a_bit() {
    let t = TimingConstants::ws2812();
    assert_eq!(
        steps_for_bit(t, true),
        vec![
            MicroOp { level: L, cycles: 3 },
            MicroOp { level: H, cycles: 2 },
            MicroOp { level: H, cycles: 5 },
        ]
    );
    assert_eq!(
        steps_for_bit(t, false),
        vec![
            MicroOp { level: L, cycles: 3 },
            MicroOp { level: H, cycles: 2 },
            MicroOp { level: L, cycles: 5 },
        ]
    );
}

#[test]
fn running_steps_holds_each_level() {
    let steps = vec![MicroOp { level: H, cycles: 2 }, MicroOp { level: L, cycles: 0 }, MicroOp {
        level: L,
        cycles: 1,
    }];
    let mut out = vec![L];
    run_steps(&steps, &mut out);
    assert_eq!(out, vec![L, H, H, L]);
    let mut held = Vec::new();
    push_level(&mut held, H, 3);
    assert_eq!(held, vec![H, H, H]);
    push_level(&mut held, L, 0);
    assert_eq!(held, vec![H, H, H]);
}

#[test]
fn measure_of_nothing() {
    assert_eq!(measure(&Vec::new()), (0, 0));
}

#[test]
fn bits_leave_in_the_chosen_direction() {
    let word: u32 = 0x8000_0001;
    assert!(shift_bit(word, ShiftDirection::Left, 0));
    assert!(!shift_bit(word, ShiftDirection::Left, 1));
    assert!(shift_bit(word, ShiftDirection::Left, 31));
    assert!(shift_bit(0x0000_0002, ShiftDirection::Right, 1));
    assert!(!shift_bit(0x0000_0002, ShiftDirection::Right, 0));
    assert!(shift_bit(0x4000_0000, ShiftDirection::Left, 1));
    assert!(!shift_bit(0x4000_0000, ShiftDirection::Right, 1));
}

#[test]
fn top_byte_set_gives_eight_ones_then_zeros() {
    let t = TimingConstants::ws2812();
    let wave = encode_word(t, ShiftDirection::Left, 0xFF00_0000);
    assert_eq!(wave.len(), 32 * 10);
    assert_eq!(wave.len(), WORD_CYCLES);
    for i in 0..WORD_BITS {
        let period = &wave[i * 10..(i + 1) * 10];
        if i < 8 {
            assert_eq!(period, &one_shape()[..]);
        } else {
            assert_eq!(period, &zero_shape()[..]);
        }
        assert_eq!(decode_bit_at(t, &wave, i * 10), Some(i < 8));
    }
    assert_eq!(measure(&wave), (8 * 7 + 24 * 2, 8 * 3 + 24 * 8));
}

#[test]
fn top_byte_set_least_significant_first() {
    let t = TimingConstants::ws2812();
    let wave = encode_word(t, ShiftDirection::Right, 0xFF00_0000);
    for i in 0..WORD_BITS {
        assert_eq!(decode_bit_at(t, &wave, i * 10), Some(i >= 24));
    }
}

#[test]
fn encode_bits_matches_encode_word() {
    let t = TimingConstants::ws2812();
    let word: u32 = 0xA5C3_0F01;
    let mut bits = Vec::new();
    for i in 0..WORD_BITS {
        bits.push(shift_bit(word, ShiftDirection::Left, i));
    }
    assert_eq!(encode_bits(t, &bits), encode_word(t, ShiftDirection::Left, word));
    assert_eq!(encode_bits(t, &Vec::new()), Vec::new());
    assert_eq!(pack_bits(&bits, ShiftDirection::Left), word);
    assert_eq!(pack_bits(&bits, ShiftDirection::Right), word.reverse_bits());
}

#[test]
fn sample_level_follows_the_shape() {
    let t = TimingConstants::ws2812();
    for tick in 0..10 {
        assert_eq!(sample_level(t, true, tick), one_shape()[tick]);
        assert_eq!(sample_level(t, false, tick), zero_shape()[tick]);
    }
}

#[test]
fn every_bit_of_a_word_round_trips() {
    let t = TimingConstants::ws2812();
    let words: [u32; 8] =
        [0, 1, 0x8000_0000, 0xFFFF_FFFF, 0xDEAD_BEEF, 0x0500_0000, 0x0101_0100, 0x1234_5678];
    for word in words {
        for dir in [ShiftDirection::Left, ShiftDirection::Right] {
            let wave = encode_word(t, dir, word);
            let bits = decode_bits(t, &wave).unwrap();
            assert_eq!(bits.len(), 32);
            for i in 0..WORD_BITS {
                assert_eq!(bits[i], shift_bit(word, dir, i));
            }
            assert_eq!(decode_word(t, dir, &wave), Some(word));
            assert_eq!(round_trip(t, dir, word), Some(word));
        }
    }
}

#[test]
fn direction_matters_when_reading_back() {
    let t = TimingConstants::ws2812();
    let wave = encode_word(t, ShiftDirection::Left, 0x0000_0001);
    assert_eq!(decode_word(t, ShiftDirection::Right, &wave), Some(0x8000_0000));
}

#[test]
fn malformed_trains_are_not_decoded() {
    let t = TimingConstants::ws2812();
    let mut wave = encode_word(t, ShiftDirection::Left, 0x1234_5678);
    wave[3] = L;
    assert_eq!(decode_bits(t, &wave), None);
    assert_eq!(decode_word(t, ShiftDirection::Left, &wave), None);
    assert_eq!(decode_bit_at(t, &wave, 0), None);
    assert_eq!(decode_bits(t, &vec![L, L, L]), None);
    let all_high = vec![H; 10];
    assert_eq!(decode_bit_at(t, &all_high, 0), None);
    let mut half_pulse = one_shape();
    half_pulse[9] = L;
    assert_eq!(decode_bit_at(t, &half_pulse, 0), None);
}

#[test]
fn short_and_long_trains_are_no_words() {
    let t = TimingConstants::ws2812();
    let bits = vec![true, false, true];
    let wave = encode_bits(t, &bits);
    assert_eq!(decode_bits(t, &wave), Some(bits));
    assert_eq!(decode_word(t, ShiftDirection::Left, &wave), None);
    assert_eq!(decode_bits(t, &Vec::new()), Some(Vec::new()));
    assert_eq!(decode_word(t, ShiftDirection::Left, &Vec::new()), None);
}
