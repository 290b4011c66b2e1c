use ws2812_pio::color::{BLUE, GREEN, RED, WHITE};
use ws2812_pio::decode::decode_word;
use ws2812_pio::engine::{
    init, init_with_clock, stall_wave, ConfigError, EngineConfig, Lifecycle, Pin, PinMode, ProgramMemory, StartError,
    StateMachine, PROGRAM_LEN,
};
use ws2812_pio::pulse::{encode_word, Level, ShiftDirection};
use ws2812_pio::queue::TransmitQueue;
use ws2812_pio::timing::{TimingConstants, TimingError};

fn output_pin() -> Pin {
    Pin { index: 12, mode: PinMode::EngineOutput }
}

fn running() -> (StateMachine, TransmitQueue) {
    let mut memory = ProgramMemory::new();
    match init_with_clock(output_pin(), &mut memory, 125_000_000) {
        Ok(pair) => pair,
        Err(e) => panic!("init failed: {:?}", e),
    }
}

#[test]
fn init_gives_a_running_engine() {
    let mut memory = ProgramMemory::new();
    let (engine, queue) = match init_with_clock(output_pin(), &mut memory, 125_000_000) {
        Ok(pair) => pair,
        Err(e) => panic!("init failed: {:?}", e),
    };
    assert_eq!(engine.lifecycle, Lifecycle::Running);
    assert!(engine.is_running());
    assert_eq!(
        engine.config,
        Some(EngineConfig {
            timing: TimingConstants { t1: 2, t2: 5, t3: 3 },
            divisor: 15,
            direction: ShiftDirection::Left,
            pin: output_pin(),
            side_set_pin_base: 12,
            autopull: true,
            pull_threshold: 32,
            program_offset: 0,
        })
    );
    assert_eq!(memory.used, PROGRAM_LEN);
    assert!(queue.is_empty());
    assert_eq!(queue.capacity(), 8);
}

#[test]
fn init_rejects_a_slow_clock() {
    let mut memory = ProgramMemory::new();
    assert!(matches!(
        init_with_clock(output_pin(), &mut memory, 7_999_999),
        Err(ConfigError::ClockTooSlow)
    ));
    assert_eq!(memory.used, 0);
    let bad_pin = Pin { index: 1, mode: PinMode::Unconfigured };
    assert!(matches!(init_with_clock(bad_pin, &mut memory, 1_000), Err(ConfigError::ClockTooSlow)));
}

#[test]
fn init_rejects_a_pin_in_the_wrong_mode() {
    let mut memory = ProgramMemory::new();
    let pin = Pin { index: 12, mode: PinMode::Unconfigured };
    assert!(matches!(
        init_with_clock(pin, &mut memory, 125_000_000),
        Err(ConfigError::InvalidPinMode)
    ));
    assert_eq!(memory.used, 0);
}

#[test]
fn init_rejects_a_full_program_memory() {
    let mut memory = ProgramMemory { used: 29 };
    assert!(matches!(
        init_with_clock(output_pin(), &mut memory, 125_000_000),
        Err(ConfigError::NoProgramSpace)
    ));
    assert_eq!(memory.used, 29);
    let mut memory = ProgramMemory { used: 28 };
    assert!(init_with_clock(output_pin(), &mut memory, 125_000_000).is_ok());
    assert_eq!(memory.used, 32);
}

#[test]
fn program_memory_fills_after_eight_installs() {
    let mut memory = ProgramMemory::new();
    for k in 0..8u8 {
        assert_eq!(memory.install(4), Some(4 * k));
    }
    assert_eq!(memory.install(4), None);
    assert_eq!(memory.install(1), None);
    assert_eq!(memory.install(0), Some(32));
    assert_eq!(memory.used, 32);
    let mut memory = ProgramMemory { used: 30 };
    assert_eq!(memory.install(3), None);
    assert_eq!(memory.install(300), None);
    assert_eq!(memory.used, 30);
    assert_eq!(memory.install(2), Some(30));
    assert_eq!(memory.used, 32);
}

#[test]
fn lifecycle_moves_forward_only() {
    let mut memory = ProgramMemory::new();
    let mut engine = StateMachine::new();
    assert_eq!(engine.lifecycle, Lifecycle::Uninitialized);
    assert_eq!(engine.config, None);
    assert_eq!(engine.start(), Err(StartError::NotConfigured));
    assert_eq!(engine.lifecycle, Lifecycle::Uninitialized);
    let queue = engine.configure(
        TimingConstants::ws2812(),
        15,
        ShiftDirection::Left,
        output_pin(),
        &mut memory,
    );
    assert!(queue.is_ok());
    assert_eq!(engine.lifecycle, Lifecycle::Configured);
    assert!(!engine.is_running());
    assert_eq!(engine.start(), Ok(()));
    assert_eq!(engine.lifecycle, Lifecycle::Running);
    assert_eq!(engine.start(), Err(StartError::AlreadyRunning));
    assert_eq!(engine.lifecycle, Lifecycle::Running);
    let again = engine.configure(
        TimingConstants::ws2812(),
        15,
        ShiftDirection::Left,
        output_pin(),
        &mut memory,
    );
    assert!(matches!(again, Err(ConfigError::AlreadyConfigured)));
    assert_eq!(engine.lifecycle, Lifecycle::Running);
    assert_eq!(memory.used, 4);
}

#[test]
fn configure_checks_timing_before_installing() {
    let mut memory = ProgramMemory { used: 32 };
    let mut engine = StateMachine::new();
    let bad = TimingConstants { t1: 2, t2: 5, t3: 4 };
    let r = engine.configure(bad, 15, ShiftDirection::Left, output_pin(), &mut memory);
    assert!(matches!(r, Err(ConfigError::BadTiming(TimingError::BadCycleSum))));
    let zero = TimingConstants { t1: 0, t2: 5, t3: 5 };
    let r = engine.configure(zero, 15, ShiftDirection::Left, output_pin(), &mut memory);
    assert!(matches!(r, Err(ConfigError::BadTiming(TimingError::ZeroPhase))));
    assert_eq!(engine, StateMachine::new());
    assert_eq!(memory.used, 32);
}

#[test]
fn configure_rejects_divisor_pin_and_memory() {
    let mut memory = ProgramMemory { used: 30 };
    let mut engine = StateMachine::new();
    let t = TimingConstants::ws2812();
    let r = engine.configure(t, 0, ShiftDirection::Left, output_pin(), &mut memory);
    assert!(matches!(r, Err(ConfigError::ZeroDivisor)));
    let pin = Pin { index: 3, mode: PinMode::Unconfigured };
    let r = engine.configure(t, 1, ShiftDirection::Left, pin, &mut memory);
    assert!(matches!(r, Err(ConfigError::InvalidPinMode)));
    let r = engine.configure(t, 1, ShiftDirection::Left, output_pin(), &mut memory);
    assert!(matches!(r, Err(ConfigError::NoProgramSpace)));
    assert_eq!(engine.lifecycle, Lifecycle::Uninitialized);
    assert_eq!(memory.used, 30);
}

#[test]
fn configure_keeps_what_it_was_given() {
    let mut memory = ProgramMemory { used: 8 };
    let mut engine = StateMachine::new();
    let t = TimingConstants { t1: 1, t2: 1, t3: 8 };
    let pin = Pin { index: 7, mode: PinMode::EngineOutput };
    assert!(engine.configure(t, 99, ShiftDirection::Right, pin, &mut memory).is_ok());
    assert_eq!(
        engine.config,
        Some(EngineConfig {
            timing: t,
            divisor: 99,
            direction: ShiftDirection::Right,
            pin: Pin { index: 7, mode: PinMode::EngineOutput },
            side_set_pin_base: 7,
            autopull: true,
            pull_threshold: 32,
            program_offset: 8,
        })
    );
    assert_eq!(memory.used, 12);
}

#[test]
fn engine_that_does_not_run_leaves_the_queue_alone() {
    let mut memory = ProgramMemory::new();
    let mut engine = StateMachine::new();
    let mut queue = engine
        .configure(TimingConstants::ws2812(), 15, ShiftDirection::Left, output_pin(), &mut memory)
        .ok()
        .unwrap();
    assert!(queue.write(RED));
    assert_eq!(engine.transmit_next(&mut queue), Vec::new());
    assert_eq!(engine.drain(&mut queue), Vec::new());
    assert_eq!(queue.len(), 1);
    assert_eq!(engine.start(), Ok(()));
    assert_eq!(engine.transmit_next(&mut queue).len(), 320);
    assert!(queue.is_empty());
}

#[test]
fn running_engine_stalls_on_an_empty_queue() {
    let (engine, mut queue) = running();
    assert_eq!(engine.transmit_next(&mut queue), Vec::new());
    assert_eq!(engine.drain(&mut queue), Vec::new());
    assert!(queue.is_empty());
}

#[test]
fn word_with_top_byte_set_end_to_end() {
    let (engine, mut queue) = running();
    assert!(queue.write(0xFF00_0000));
    let wave = engine.transmit_next(&mut queue);
    assert!(queue.is_empty());
    assert_eq!(wave.len(), 32 * 10);
    let one = [
        Level::Low,
        Level::Low,
        Level::Low,
        Level::High,
        Level::High,
        Level::High,
        Level::High,
        Level::High,
        Level::High,
        Level::High,
    ];
    let zero = [
        Level::Low,
        Level::Low,
        Level::Low,
        Level::High,
        Level::High,
        Level::Low,
        Level::Low,
        Level::Low,
        Level::Low,
        Level::Low,
    ];
    for i in 0..32 {
        let period = &wave[i * 10..(i + 1) * 10];
        if i < 8 {
            assert_eq!(period, &one[..]);
        } else {
            assert_eq!(period, &zero[..]);
        }
    }
}

#[test]
fn four_colours_come_out_whole_and_in_order() {
    let (engine, mut queue) = running();
    let colours = [RED, GREEN, BLUE, WHITE];
    for c in colours {
        assert!(queue.write(c));
    }
    let wave = engine.drain(&mut queue);
    assert!(queue.is_empty());
    assert_eq!(wave.len(), 4 * 320);
    let t = TimingConstants::ws2812();
    let mut trains: Vec<Vec<Level>> = Vec::new();
    for k in 0..4 {
        let train = wave[k * 320..(k + 1) * 320].to_vec();
        assert_eq!(train, encode_word(t, ShiftDirection::Left, colours[k]));
        assert_eq!(decode_word(t, ShiftDirection::Left, &train), Some(colours[k]));
        trains.push(train);
    }
    for a in 0..4 {
        for b in 0..4 {
            if a != b {
                assert_ne!(trains[a], trains[b]);
            }
        }
    }
}

#[test]
fn drain_equals_repeated_transmit_next() {
    let (engine, mut first) = running();
    let (_, mut second) = running();
    let words = vec![0xDEAD_BEEF, 0, 0xFFFF_FFFF];
    assert_eq!(first.write_all(&words), 3);
    assert_eq!(second.write_all(&words), 3);
    let all = engine.drain(&mut first);
    let mut stepwise: Vec<Level> = Vec::new();
    for _ in 0..3 {
        stepwise.extend(engine.transmit_next(&mut second));
    }
    assert_eq!(all, stepwise);
    assert!(second.is_empty());
}

#[test]
fn init_takes_the_clock_as_a_typed_rate() {
    let mut memory = ProgramMemory::new();
    let clock = fugit::HertzU32::from_raw(125_000_000);
    let (engine, queue) = match init(output_pin(), &mut memory, clock) {
        Ok(pair) => pair,
        Err(e) => panic!("init failed: {:?}", e),
    };
    assert!(engine.is_running());
    assert_eq!(engine.config.map(|c| c.divisor), Some(15));
    assert!(queue.is_empty());
    assert_eq!(memory.used, 4);

    let mut memory = ProgramMemory::new();
    let clock = fugit::HertzU32::MHz(48);
    let engine = init(output_pin(), &mut memory, clock).ok().map(|pair| pair.0);
    assert_eq!(engine.and_then(|e| e.config).map(|c| c.divisor), Some(6));
}

#[test]
fn init_rejects_a_slow_typed_rate() {
    let mut memory = ProgramMemory::new();
    let clock = fugit::HertzU32::kHz(7_999);
    assert!(matches!(init(output_pin(), &mut memory, clock), Err(ConfigError::ClockTooSlow)));
    assert_eq!(memory.used, 0);
    let clock = fugit::HertzU32::kHz(8_000);
    assert!(init(output_pin(), &mut memory, clock).is_ok());
}

#[test]
fn stalled_engine_holds_its_last_level() {
    let (engine, mut queue) = running();
    assert_eq!(stall_wave(&Vec::new(), 3), vec![Level::Low; 3]);
    assert!(queue.write(0x0000_0001));
    let ends_high = engine.transmit_next(&mut queue);
    assert_eq!(ends_high.last(), Some(&Level::High));
    assert_eq!(stall_wave(&ends_high, 4), vec![Level::High; 4]);
    assert!(queue.write(0x0000_0002));
    let ends_low = engine.transmit_next(&mut queue);
    assert_eq!(stall_wave(&ends_low, 2), vec![Level::Low; 2]);
    assert_eq!(stall_wave(&ends_low, 0), Vec::new());
}

#[test]
fn send_with_room_is_a_plain_write() {
    let (engine, mut queue) = running();
    let (delivered, wave) = engine.send(&mut queue, RED);
    assert!(delivered);
    assert_eq!(wave, Vec::new());
    assert_eq!(queue.len(), 1);
    assert_eq!(queue.pull(), Some(RED));
}

#[test]
fn send_to_a_full_queue_waits_for_the_engine() {
    let (engine, _) = running();
    let mut queue = TransmitQueue::new(2);
    assert!(queue.write(RED));
    assert!(queue.write(GREEN));
    let (delivered, wave) = engine.send(&mut queue, BLUE);
    assert!(delivered);
    assert_eq!(wave, encode_word(TimingConstants::ws2812(), ShiftDirection::Left, RED));
    assert_eq!(queue.pull(), Some(GREEN));
    assert_eq!(queue.pull(), Some(BLUE));
    assert_eq!(queue.pull(), None);
}

#[test]
fn send_that_can_never_succeed_gives_up() {
    let (engine, _) = running();
    let mut none = TransmitQueue::new(0);
    assert_eq!(engine.send(&mut none, RED), (false, Vec::new()));
    assert!(none.is_empty());

    let mut memory = ProgramMemory::new();
    let mut idle = StateMachine::new();
    let configured = idle.configure(
        TimingConstants::ws2812(),
        15,
        ShiftDirection::Left,
        output_pin(),
        &mut memory,
    );
    assert!(configured.is_ok());
    let mut queue = TransmitQueue::new(1);
    assert_eq!(idle.send(&mut queue, RED), (true, Vec::new()));
    assert_eq!(idle.send(&mut queue, GREEN), (false, Vec::new()));
    assert_eq!(queue.len(), 1);
    assert_eq!(queue.pull(), Some(RED));
}

#[test]
fn transmit_all_through_a_queue_of_one_word() {
    let (engine, _) = running();
    let t = TimingConstants::ws2812();
    let mut queue = TransmitQueue::new(1);
    assert!(queue.write(0xCAFE_F00D));
    let words = vec![RED, GREEN, BLUE, WHITE, RED];
    let wave = engine.transmit_all(&mut queue, &words);
    assert!(queue.is_empty());
    let mut expected: Vec<Level> = Vec::new();
    expected.extend(encode_word(t, ShiftDirection::Left, 0xCAFE_F00D));
    for w in &words {
        expected.extend(encode_word(t, ShiftDirection::Left, *w));
    }
    assert_eq!(wave.len(), 6 * 320);
    assert_eq!(wave, expected);
}

#[test]
fn transmit_all_with_room_for_everything() {
    let (engine, mut queue) = running();
    let words = vec![RED, GREEN, BLUE, WHITE];
    let wave = engine.transmit_all(&mut queue, &words);
    assert!(queue.is_empty());
    let t = TimingConstants::ws2812();
    for k in 0..4 {
        let train = wave[k * 320..(k + 1) * 320].to_vec();
        assert_eq!(decode_word(t, ShiftDirection::Left, &train), Some(words[k]));
    }
    assert_eq!(engine.transmit_all(&mut queue, &Vec::new()), Vec::new());
}

#[test]
fn transmit_all_sends_nothing_where_it_would_block() {
    let (engine, _) = running();
    let mut none = TransmitQueue::new(0);
    assert_eq!(engine.transmit_all(&mut none, &vec![RED]), Vec::new());
    let idle = StateMachine::new();
    let mut queue = TransmitQueue::new(2);
    assert!(queue.write(GREEN));
    assert_eq!(idle.transmit_all(&mut queue, &vec![RED]), Vec::new());
    assert_eq!(queue.len(), 1);
    assert_eq!(queue.pull(), Some(GREEN));
}
