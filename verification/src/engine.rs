//! The state machine that owns the output pin: its configuration, its
//! one-way lifecycle, and how it turns queued words into pulse trains.

use vstd::prelude::*;
use crate::clock::{hertz_of, hertz_value};
use crate::program::timing_program;
use crate::pulse::{encode_word, hold, word_wave, Level, ShiftDirection, WORD_BITS, WORD_CYCLES};
use crate::queue::TransmitQueue;
use crate::timing::{
    clock_divisor, divisor_of, sample_freq, TimingConstants, TimingError, SAMPLE_FREQ,
};

verus! {

/// Instructions of the timing program.
pub const PROGRAM_LEN: u8 = 4;

/// Instruction slots that one program memory offers.
pub const PROGRAM_MEMORY_SLOTS: u8 = 32;

/// What a pin is set up to do.
#[derive(Clone, Copy, Debug, PartialEq, Eq, Structural)]
pub enum PinMode {
    /// Not routed to the engine.
    Unconfigured,
    /// Routed to the engine as an output.
    EngineOutput,
}

/// The single output line. It is handed to the engine by value, so that
/// nothing else can drive it afterwards.
#[derive(Debug, PartialEq, Eq, Structural)]
pub struct Pin {
    pub index: u8,
    pub mode: PinMode,
}

/// Instruction memory that programs are installed into.
#[derive(Debug, PartialEq, Eq, Structural)]
pub struct ProgramMemory {
    /// Slots that installed programs occupy.
    pub used: u8,
}

/// Where the engine is in its life. There is no way back.
#[derive(Clone, Copy, Debug, PartialEq, Eq, Structural)]
pub enum Lifecycle {
    Uninitialized,
    Configured,
    Running,
}

/// Why the engine could not be configured. Each is fatal: the engine must
/// not be started.
#[derive(Clone, Copy, Debug, PartialEq, Eq, Structural)]
pub enum ConfigError {
    /// The engine was configured before.
    AlreadyConfigured,
    /// The timing constants are not well formed.
    BadTiming(TimingError),
    /// A divisor of zero gives no defined timing.
    ZeroDivisor,
    /// The pin is not routed to the engine as an output.
    InvalidPinMode,
    /// The program memory has no room for the timing program.
    NoProgramSpace,
    /// The peripheral clock is too slow for a divisor of at least one.
    ClockTooSlow,
}

/// Why the engine could not be started.
#[derive(Clone, Copy, Debug, PartialEq, Eq, Structural)]
pub enum StartError {
    NotConfigured,
    AlreadyRunning,
}

/// What the engine was configured with.
#[derive(Debug, PartialEq, Eq, Structural)]
pub struct EngineConfig {
    pub timing: TimingConstants,
    pub divisor: u32,
    pub direction: ShiftDirection,
    pub pin: Pin,
    /// Pin that the program's side-set drives: the index of `pin`.
    pub side_set_pin_base: u8,
    /// The shift register refills itself from the queue.
    pub autopull: bool,
    /// Bits shifted out of a word before the next is pulled.
    pub pull_threshold: u8,
    /// Slot of the program's first instruction.
    pub program_offset: u8,
}

/// The engine: a lifecycle state and, once configured, its configuration.
#[derive(Debug, PartialEq, Eq, Structural)]
pub struct StateMachine {
    pub lifecycle: Lifecycle,
    pub config: Option<EngineConfig>,
}

impl EngineConfig {
    /// The configuration gives defined timing and owns a usable pin.
    pub open spec fn wf(&self) -> bool {
        &&& self.timing.wf()
        &&& self.divisor >= 1
        &&& self.pin.mode == PinMode::EngineOutput
        &&& self.side_set_pin_base == self.pin.index
        &&& self.autopull
        &&& self.pull_threshold == WORD_BITS
        &&& self.program_offset + PROGRAM_LEN <= PROGRAM_MEMORY_SLOTS
    }
}

impl ProgramMemory {
    /// No more slots are used than there are.
    pub open spec fn wf(&self) -> bool {
        self.used <= PROGRAM_MEMORY_SLOTS
    }

    /// An empty program memory.
    pub fn new() -> (r: Self)
        ensures
            r.wf(),
            r.used == 0,
    {
        ProgramMemory { used: 0 }
    }

    /// Reserves `len` slots for a program and answers the slot of its
    /// first instruction, or `None`, with nothing changed, if fewer than
    /// `len` slots are free.
    pub fn install(&mut self, len: usize) -> (offset: Option<u8>)
        requires
            old(self).wf(),
        ensures
            final(self).wf(),
            match offset {
                Some(at) => old(self).used + len <= PROGRAM_MEMORY_SLOTS && at == old(self).used
                    && final(self).used == old(self).used + len,
                None => old(self).used + len > PROGRAM_MEMORY_SLOTS && *final(self) == *old(self),
            },
    {
        let free: u8 = PROGRAM_MEMORY_SLOTS - self.used;
        if len > free as usize {
            None
        } else {
            let at: u8 = self.used;
            self.used = at + len as u8;
            Some(at)
        }
    }
}

/// The first reason, if any, for which a configuration is refused: one
/// made before, then the timing constants, the divisor, the pin, and last
/// the room in program memory.
pub open spec fn config_defect(
    lifecycle: Lifecycle,
    timing: TimingConstants,
    divisor: u32,
    pin: Pin,
    memory: ProgramMemory,
) -> Option<ConfigError> {
    if lifecycle != Lifecycle::Uninitialized {
        Some(ConfigError::AlreadyConfigured)
    } else if let Some(e) = TimingConstants::defect(timing.t1, timing.t2, timing.t3) {
        Some(ConfigError::BadTiming(e))
    } else if divisor == 0 {
        Some(ConfigError::ZeroDivisor)
    } else if pin.mode != PinMode::EngineOutput {
        Some(ConfigError::InvalidPinMode)
    } else if memory.used + PROGRAM_LEN > PROGRAM_MEMORY_SLOTS {
        Some(ConfigError::NoProgramSpace)
    } else {
        None
    }
}

/// The first reason, if any, for which `init` fails: the clock, then the
/// pin, then the room in program memory.
pub open spec fn init_defect(pin: Pin, memory: ProgramMemory, peripheral_clock_hz: u32) -> Option<
    ConfigError,
> {
    if peripheral_clock_hz < sample_freq() {
        Some(ConfigError::ClockTooSlow)
    } else if pin.mode != PinMode::EngineOutput {
        Some(ConfigError::InvalidPinMode)
    } else if memory.used + PROGRAM_LEN > PROGRAM_MEMORY_SLOTS {
        Some(ConfigError::NoProgramSpace)
    } else {
        None
    }
}

/// The pulse trains of `words`, one after the other: word `k / 320`
/// decides cycle `k`.
pub open spec fn words_wave(t: TimingConstants, dir: ShiftDirection, words: Seq<u32>) -> Seq<
    Level,
> {
    Seq::new(
        words.len() * WORD_CYCLES as nat,
        |k: int| word_wave(t, dir, words[k / WORD_CYCLES as int])[k % WORD_CYCLES as int],
    )
}

impl StateMachine {
    /// An engine is configured exactly when it is no longer uninitialized,
    /// and its configuration is well formed.
    pub open spec fn wf(&self) -> bool {
        match self.config {
            None => self.lifecycle == Lifecycle::Uninitialized,
            Some(c) => self.lifecycle != Lifecycle::Uninitialized && c.wf(),
        }
    }

    /// The pulse train that a running engine produces for the word at the
    /// head of `pending`; none while the engine does not run or stalls on
    /// an empty queue.
    pub open spec fn next_wave(&self, pending: Seq<u32>) -> Seq<Level> {
        if self.lifecycle == Lifecycle::Running && pending.len() > 0 {
            word_wave(self.config.unwrap().timing, self.config.unwrap().direction, pending[0])
        } else {
            Seq::empty()
        }
    }

    /// The pulse train that a running engine produces for all of
    /// `pending`.
    pub open spec fn all_waves(&self, pending: Seq<u32>) -> Seq<Level> {
        if self.lifecycle == Lifecycle::Running {
            words_wave(self.config.unwrap().timing, self.config.unwrap().direction, pending)
        } else {
            Seq::empty()
        }
    }

    /// An engine that has not been configured.
    pub fn new() -> (r: Self)
        ensures
            r.wf(),
            r.lifecycle == Lifecycle::Uninitialized,
            r.config.is_none(),
    {
        StateMachine { lifecycle: Lifecycle::Uninitialized, config: None }
    }

    /// Binds the timing program to `pin` with `divisor` and `direction`,
    /// installs it in `memory`, and hands out the empty transmit queue. The
    /// timing constants are checked before the program is installed. On
    /// any error the engine and the memory are as they were.
    pub fn configure(
        &mut self,
        timing: TimingConstants,
        divisor: u32,
        direction: ShiftDirection,
        pin: Pin,
        memory: &mut ProgramMemory,
    ) -> (r: Result<TransmitQueue, ConfigError>)
        requires
            old(self).wf(),
            old(memory).wf(),
        ensures
            final(self).wf(),
            final(memory).wf(),
            match r {
                Ok(queue) => {
                    &&& config_defect(old(self).lifecycle, timing, divisor, pin, *old(memory))
                        .is_none()
                    &&& final(self).lifecycle == Lifecycle::Configured
                    &&& final(self).config == Some(
                        (EngineConfig {
                            timing,
                            divisor,
                            direction,
                            pin,
                            side_set_pin_base: pin.index,
                            autopull: true,
                            pull_threshold: 32,
                            program_offset: old(memory).used,
                        }),
                    )
                    &&& final(memory).used == old(memory).used + PROGRAM_LEN
                    &&& queue.wf()
                    &&& queue@ == Seq::<u32>::empty()
                    &&& queue.spec_capacity() == crate::queue::FIFO_DEPTH
                },
                Err(e) => {
                    &&& config_defect(old(self).lifecycle, timing, divisor, pin, *old(memory))
                        == Some(e)
                    &&& *final(self) == *old(self)
                    &&& *final(memory) == *old(memory)
                },
            },
    {
        match self.lifecycle {
            Lifecycle::Uninitialized => {},
            _ => {
                return Err(ConfigError::AlreadyConfigured);
            },
        }
        match timing.validate() {
            Ok(_) => {},
            Err(e) => {
                return Err(ConfigError::BadTiming(e));
            },
        }
        if divisor == 0 {
            return Err(ConfigError::ZeroDivisor);
        }
        match pin.mode {
            PinMode::EngineOutput => {},
            PinMode::Unconfigured => {
                return Err(ConfigError::InvalidPinMode);
            },
        }
        let code = timing_program(timing);
        let program_offset: u8 = match memory.install(code.len()) {
            Some(at) => at,
            None => {
                return Err(ConfigError::NoProgramSpace);
            },
        };
        let side_set_pin_base: u8 = pin.index;
        self.config = Some(
            EngineConfig {
                timing,
                divisor,
                direction,
                pin,
                side_set_pin_base,
                autopull: true,
                pull_threshold: 32,
                program_offset,
            },
        );
        self.lifecycle = Lifecycle::Configured;
        Ok(TransmitQueue::hardware())
    }

    /// Starts a configured engine. An engine that runs keeps running: there
    /// is no way to stop it.
    pub fn start(&mut self) -> (r: Result<(), StartError>)
        requires
            old(self).wf(),
        ensures
            final(self).wf(),
            final(self).config == old(self).config,
            match old(self).lifecycle {
                Lifecycle::Uninitialized => r == Err::<(), StartError>(StartError::NotConfigured)
                    && final(self).lifecycle == Lifecycle::Uninitialized,
                Lifecycle::Configured => r.is_ok() && final(self).lifecycle == Lifecycle::Running,
                Lifecycle::Running => r == Err::<(), StartError>(StartError::AlreadyRunning)
                    && final(self).lifecycle == Lifecycle::Running,
            },
    {
        match self.lifecycle {
            Lifecycle::Uninitialized => Err(StartError::NotConfigured),
            Lifecycle::Configured => {
                self.lifecycle = Lifecycle::Running;
                Ok(())
            },
            Lifecycle::Running => Err(StartError::AlreadyRunning),
        }
    }

    /// The engine runs.
    pub fn is_running(&self) -> (r: bool)
        ensures
            r == (self.lifecycle == Lifecycle::Running),
    {
        match self.lifecycle {
            Lifecycle::Running => true,
            _ => false,
        }
    }

    /// One refill of the shift register: a running engine pulls the oldest
    /// word and puts its pulse train on the pin. With no word pending the
    /// engine stalls, and an engine that does not run leaves the queue
    /// alone: both produce nothing.
    pub fn transmit_next(&self, queue: &mut TransmitQueue) -> (wave: Vec<Level>)
        requires
            self.wf(),
            old(queue).wf(),
        ensures
            final(queue).wf(),
            final(queue).spec_capacity() == old(queue).spec_capacity(),
            wave@ == self.next_wave(old(queue)@),
            final(queue)@ == if self.lifecycle == Lifecycle::Running && old(queue)@.len() > 0 {
                old(queue)@.skip(1)
            } else {
                old(queue)@
            },
    {
        if !self.is_running() {
            return Vec::new();
        }
        match &self.config {
            Some(c) => {
                match queue.pull() {
                    Some(word) => encode_word(c.timing, c.direction, word),
                    None => Vec::new(),
                }
            },
            None => Vec::new(),
        }
    }

    /// Lets a running engine empty the queue: the pulse trains of all
    /// pending words, oldest first, each whole and directly after the one
    /// before. An engine that does not run leaves the queue alone.
    pub fn drain(&self, queue: &mut TransmitQueue) -> (wave: Vec<Level>)
        requires
            self.wf(),
            old(queue).wf(),
        ensures
            final(queue).wf(),
            final(queue).spec_capacity() == old(queue).spec_capacity(),
            wave@ == self.all_waves(old(queue)@),
            final(queue)@ == if self.lifecycle == Lifecycle::Running {
                Seq::<u32>::empty()
            } else {
                old(queue)@
            },
    {
        let mut out: Vec<Level> = Vec::new();
        if !self.is_running() {
            return out;
        }
        let ghost t = self.config.unwrap().timing;
        let ghost dir = self.config.unwrap().direction;
        let ghost mut done: int = 0;
        assert(out@ =~= words_wave(t, dir, old(queue)@.take(0)));
        assert(queue@ =~= old(queue)@.skip(0));
        while !queue.is_empty()
            invariant
                self.wf(),
                self.lifecycle == Lifecycle::Running,
                t == self.config.unwrap().timing,
                dir == self.config.unwrap().direction,
                queue.wf(),
                queue.spec_capacity() == old(queue).spec_capacity(),
                0 <= done <= old(queue)@.len(),
                queue@ == old(queue)@.skip(done),
                out@ == words_wave(t, dir, old(queue)@.take(done)),
            decreases queue@.len(),
        {
            let ghost head = queue@[0];
            let mut next = self.transmit_next(queue);
            out.append(&mut next);
            proof {
                assert(head == old(queue)@[done]);
                lemma_words_wave_push(t, dir, old(queue)@.take(done), head);
                assert(old(queue)@.take(done).push(head) =~= old(queue)@.take(done + 1));
                assert(old(queue)@.skip(done).skip(1) =~= old(queue)@.skip(done + 1));
                done = done + 1;
            }
        }
        assert(old(queue)@.take(done) =~= old(queue)@);
        assert(queue@ =~= Seq::<u32>::empty());
        out
    }

    /// The engine runs and its queue has room for at least one word, so
    /// that it takes every word offered to it sooner or later.
    pub open spec fn drives(&self, capacity: nat) -> bool {
        self.lifecycle == Lifecycle::Running && capacity > 0
    }

    /// Whether a write that is repeated until it succeeds ever succeeds:
    /// there is room, or a running engine will make room.
    pub open spec fn can_deliver(&self, pending: Seq<u32>, capacity: nat) -> bool {
        pending.len() < capacity || (self.lifecycle == Lifecycle::Running && capacity > 0)
    }

    /// The host's write with retry, together with what the engine does
    /// meanwhile. With room in the queue the word is taken at once and the
    /// engine does nothing. With a full queue a running engine first
    /// transmits the oldest word, which makes the room that the retry
    /// needs. Where no retry can ever succeed, the answer is `false` and
    /// nothing changes.
    pub fn send(&self, queue: &mut TransmitQueue, word: u32) -> (r: (bool, Vec<Level>))
        requires
            self.wf(),
            old(queue).wf(),
        ensures
            final(queue).wf(),
            final(queue).spec_capacity() == old(queue).spec_capacity(),
            r.0 == self.can_deliver(old(queue)@, old(queue).spec_capacity()),
            final(queue)@ == if !r.0 {
                old(queue)@
            } else if old(queue)@.len() < old(queue).spec_capacity() {
                old(queue)@.push(word)
            } else {
                old(queue)@.skip(1).push(word)
            },
            r.1@ == if r.0 && old(queue)@.len() == old(queue).spec_capacity() {
                self.next_wave(old(queue)@)
            } else {
                Seq::<Level>::empty()
            },
    {
        if queue.write(word) {
            return (true, Vec::new());
        }
        if !self.is_running() || queue.capacity() == 0 {
            return (false, Vec::new());
        }
        let wave = self.transmit_next(queue);
        let accepted = queue.write(word);
        assert(accepted);
        (true, wave)
    }

    /// Sends `words` in order with retry and then lets the engine empty
    /// the queue. A running engine with a queue that holds at least one
    /// word puts on the pin the pulse trains of everything that was
    /// pending followed by those of `words`, each whole, none twice, in
    /// order, however small the queue is. An engine that does not run, or
    /// a queue without room for a single word, could block the host for
    /// ever: then nothing is sent and nothing changes.
    pub fn transmit_all(&self, queue: &mut TransmitQueue, words: &Vec<u32>) -> (wave: Vec<Level>)
        requires
            self.wf(),
            old(queue).wf(),
        ensures
            final(queue).wf(),
            final(queue).spec_capacity() == old(queue).spec_capacity(),
            final(queue)@ == if self.drives(old(queue).spec_capacity()) {
                Seq::<u32>::empty()
            } else {
                old(queue)@
            },
            wave@ == if self.drives(old(queue).spec_capacity()) {
                self.all_waves(old(queue)@ + words@)
            } else {
                Seq::<Level>::empty()
            },
    {
        if !self.is_running() || queue.capacity() == 0 {
            return Vec::new();
        }
        let ghost t = self.config.unwrap().timing;
        let ghost dir = self.config.unwrap().direction;
        let ghost all = old(queue)@ + words@;
        let mut out: Vec<Level> = Vec::new();
        let mut i: usize = 0;
        assert(queue@ + words@.skip(0) =~= all);
        assert(out@ + words_wave(t, dir, all) =~= words_wave(t, dir, all));
        while i < words.len()
            invariant
                self.wf(),
                self.lifecycle == Lifecycle::Running,
                t == self.config.unwrap().timing,
                dir == self.config.unwrap().direction,
                queue.wf(),
                queue.spec_capacity() == old(queue).spec_capacity(),
                queue.spec_capacity() > 0,
                i <= words@.len(),
                out@ + words_wave(t, dir, queue@ + words@.skip(i as int)) == words_wave(
                    t,
                    dir,
                    all,
                ),
            decreases words.len() - i,
        {
            let ghost before = queue@;
            let ghost rest = before + words@.skip(i as int);
            let ghost emitted = out@;
            let (delivered, mut step) = self.send(queue, words[i]);
            assert(delivered);
            let ghost sent = step@;
            out.append(&mut step);
            proof {
                assert(out@ == emitted + sent);
                if before.len() < queue.spec_capacity() {
                    assert(queue@ + words@.skip(i + 1) =~= rest);
                    assert(out@ =~= emitted);
                } else {
                    lemma_words_wave_front(t, dir, rest);
                    assert(rest[0] == before[0]);
                    assert(sent == word_wave(t, dir, rest[0]));
                    assert(queue@ + words@.skip(i + 1) =~= rest.skip(1));
                    assert(out@ + words_wave(t, dir, rest.skip(1)) =~= emitted + (word_wave(
                        t,
                        dir,
                        rest[0],
                    ) + words_wave(t, dir, rest.skip(1))));
                }
            }
            i = i + 1;
        }
        assert(queue@ + words@.skip(words@.len() as int) =~= queue@);
        let mut tail = self.drain(queue);
        out.append(&mut tail);
        out
    }
}

/// The level that the pin keeps while the engine waits for a word: the
/// one it showed last, or low if it has shown nothing yet.
pub open spec fn held_level(emitted: Seq<Level>) -> Level {
    if emitted.len() == 0 {
        Level::Low
    } else {
        emitted.last()
    }
}

/// What the pin shows while the engine stalls for `cycles` cycles after
/// having put `emitted` on it: its last level, unchanged.
pub fn stall_wave(emitted: &Vec<Level>, cycles: usize) -> (wave: Vec<Level>)
    ensures
        wave@ == hold(held_level(emitted@), cycles as nat),
{
    let level: Level = if emitted.len() == 0 {
        Level::Low
    } else {
        emitted[emitted.len() - 1]
    };
    let mut wave: Vec<Level> = Vec::new();
    let mut i: usize = 0;
    assert(wave@ =~= hold(level, 0));
    while i < cycles
        invariant
            i <= cycles,
            wave@ == hold(level, i as nat),
        decreases cycles - i,
    {
        wave.push(level);
        i = i + 1;
        assert(wave@ =~= hold(level, i as nat));
    }
    wave
}

/// The trains of a sequence of words grow by one word's train when a word
/// is appended.
pub proof fn lemma_words_wave_push(
    t: TimingConstants,
    dir: ShiftDirection,
    words: Seq<u32>,
    word: u32,
)
    ensures
        words_wave(t, dir, words.push(word)) == words_wave(t, dir, words) + word_wave(
            t,
            dir,
            word,
        ),
{
    let a = words_wave(t, dir, words.push(word));
    let b = words_wave(t, dir, words) + word_wave(t, dir, word);
    assert(word_wave(t, dir, word).len() == 320);
    assert(a.len() == b.len());
    assert forall|k: int| 0 <= k < a.len() implies a[k] == b[k] by {
        if k < words.len() * 320 {
            assert(k / 320 < words.len());
        } else {
            assert(k / 320 == words.len());
            assert(k % 320 == k - words.len() * 320);
        }
    }
    assert(a =~= b);
}

/// The trains of a sequence of words begin with the train of its first
/// word, and the trains of the others follow.
pub proof fn lemma_words_wave_front(t: TimingConstants, dir: ShiftDirection, words: Seq<u32>)
    requires
        words.len() > 0,
    ensures
        words_wave(t, dir, words) == word_wave(t, dir, words[0]) + words_wave(
            t,
            dir,
            words.skip(1),
        ),
{
    let a = words_wave(t, dir, words);
    let b = word_wave(t, dir, words[0]) + words_wave(t, dir, words.skip(1));
    assert(word_wave(t, dir, words[0]).len() == 320);
    assert(a.len() == b.len());
    assert forall|k: int| 0 <= k < a.len() implies a[k] == b[k] by {
        if k < 320 {
            assert(k / 320 == 0);
            assert(k % 320 == k);
        } else {
            assert((k - 320) / 320 == k / 320 - 1);
            assert((k - 320) % 320 == k % 320);
            assert(words.skip(1)[(k - 320) / 320] == words[k / 320]);
        }
    }
    assert(a =~= b);
}

/// In the trains of a sequence of words, the cycles of word `i` are that
/// word's own train, whole and unmixed, and every word lasts 320 cycles.
pub proof fn lemma_words_wave_slice(
    t: TimingConstants,
    dir: ShiftDirection,
    words: Seq<u32>,
    i: int,
)
    requires
        0 <= i < words.len(),
    ensures
        words_wave(t, dir, words).len() == words.len() * WORD_CYCLES,
        words_wave(t, dir, words).subrange(i * WORD_CYCLES, (i + 1) * WORD_CYCLES) == word_wave(
            t,
            dir,
            words[i],
        ),
{
    let p = words_wave(t, dir, words).subrange(i * 320, (i + 1) * 320);
    assert(word_wave(t, dir, words[i]).len() == 320);
    assert forall|j: int| 0 <= j < 320 implies p[j] == word_wave(t, dir, words[i])[j] by {
        assert((i * 320 + j) / 320 == i);
        assert((i * 320 + j) % 320 == j);
    }
    assert(p =~= word_wave(t, dir, words[i]));
}

/// What `init_with_clock` answers for a clock of `peripheral_clock_hz`
/// and what it does to the program memory: either the running engine with
/// the fixed timing constants, the divisor derived from the clock and the
/// most significant bit first, together with its empty queue, or the
/// first reason for which that cannot be, with nothing installed.
pub open spec fn init_result(
    pin: Pin,
    before: ProgramMemory,
    peripheral_clock_hz: u32,
    r: Result<(StateMachine, TransmitQueue), ConfigError>,
    after: ProgramMemory,
) -> bool {
    match r {
        Ok((engine, queue)) => {
            &&& init_defect(pin, before, peripheral_clock_hz).is_none()
            &&& engine.wf()
            &&& engine.lifecycle == Lifecycle::Running
            &&& engine.config == Some(
                (EngineConfig {
                    timing: (TimingConstants { t1: 2, t2: 5, t3: 3 }),
                    divisor: divisor_of(peripheral_clock_hz as nat) as u32,
                    direction: ShiftDirection::Left,
                    pin,
                    side_set_pin_base: pin.index,
                    autopull: true,
                    pull_threshold: 32,
                    program_offset: before.used,
                }),
            )
            &&& engine.config.unwrap().divisor == peripheral_clock_hz / SAMPLE_FREQ
            &&& after.used == before.used + PROGRAM_LEN
            &&& queue.wf()
            &&& queue@ == Seq::<u32>::empty()
            &&& queue.spec_capacity() == crate::queue::FIFO_DEPTH
        },
        Err(e) => {
            &&& init_defect(pin, before, peripheral_clock_hz) == Some(e)
            &&& after == before
        },
    }
}

/// Sets the engine up for `pin` at a peripheral clock of
/// `peripheral_clock_hz` and starts it: the fixed timing constants, the
/// divisor derived from the clock, most significant bit first. Answers the
/// running engine and its empty transmit queue. On any error nothing was
/// installed.
pub fn init_with_clock(pin: Pin, memory: &mut ProgramMemory, peripheral_clock_hz: u32) -> (r:
    Result<(StateMachine, TransmitQueue), ConfigError>)
    requires
        old(memory).wf(),
    ensures
        final(memory).wf(),
        init_result(pin, *old(memory), peripheral_clock_hz, r, *final(memory)),
{
    let divisor: u32 = match clock_divisor(peripheral_clock_hz) {
        Ok(d) => d,
        Err(_) => {
            return Err(ConfigError::ClockTooSlow);
        },
    };
    let mut engine = StateMachine::new();
    let queue = match engine.configure(
        TimingConstants::ws2812(),
        divisor,
        ShiftDirection::Left,
        pin,
        memory,
    ) {
        Ok(q) => q,
        Err(e) => {
            return Err(e);
        },
    };
    match engine.start() {
        Ok(_) => {},
        Err(_) => {},
    }
    Ok((engine, queue))
}

/// Sets the engine up for `pin` at the peripheral clock `clock_freq` and
/// starts it. The outcome is exactly that of `init_with_clock` for the
/// number of hertz that the rate stands for: it succeeds when that number
/// is at least the sample frequency, the pin is routed to the engine and
/// the program memory has room, and fails with the first of these that
/// does not hold, leaving the memory as it was.
pub fn init(pin: Pin, memory: &mut ProgramMemory, clock_freq: fugit::HertzU32) -> (r: Result<
    (StateMachine, TransmitQueue),
    ConfigError,
>)
    requires
        old(memory).wf(),
    ensures
        final(memory).wf(),
        init_result(pin, *old(memory), hertz_value(clock_freq), r, *final(memory)),
{
    let hz: u32 = hertz_of(clock_freq);
    init_with_clock(pin, memory, hz)
}

} // verus!
