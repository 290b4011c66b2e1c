//! The timing program as data: four instructions, each of which sets the
//! pin, waits, and then shifts, branches or does nothing, and the
//! interpreter that runs them for one bit.

use vstd::prelude::*;
use crate::pulse::{bit_steps, Level, MicroOp};
use crate::timing::TimingConstants;

verus! {

/// What an instruction does besides driving the pin.
#[derive(Clone, Copy, Debug, PartialEq, Eq, Structural)]
pub enum Action {
    /// Shift the next bit of the loaded word into the scratch register.
    /// This is where a bit period begins.
    ShiftOut,
    /// Go to the given instruction if the scratch register is zero.
    JumpIfZero(usize),
    /// Go to the given instruction.
    Jump(usize),
    /// Nothing.
    Nop,
}

/// One instruction: the pin is at `side` for the cycle of the instruction
/// itself and for `delay` cycles more.
#[derive(Clone, Copy, Debug, PartialEq, Eq, Structural)]
pub struct Instruction {
    pub action: Action,
    pub side: Level,
    pub delay: u8,
}

/// The longest delay that an instruction can carry beside its pin level.
pub const MAX_DELAY: u8 = 15;

/// The most instructions that a program can have.
pub const MAX_PROGRAM_LEN: usize = 32;

/// The instruction's delay fits and its jump, if it is one, stays inside a
/// program of `len` instructions.
pub open spec fn instruction_ok(ins: Instruction, len: nat) -> bool {
    &&& ins.delay <= MAX_DELAY
    &&& match ins.action {
        Action::JumpIfZero(target) => target < len,
        Action::Jump(target) => target < len,
        _ => true,
    }
}

/// A program that the interpreter accepts: it begins by shifting a bit,
/// fits the instruction memory, and each instruction is in order.
pub open spec fn valid_program(code: Seq<Instruction>) -> bool {
    &&& 1 <= code.len() <= MAX_PROGRAM_LEN
    &&& code[0].action == Action::ShiftOut
    &&& forall|i: int| 0 <= i < code.len() ==> instruction_ok(#[trigger] code[i], code.len())
}

/// The timing program for the constants `t`: open the period low and
/// shift, pulse high and branch on the bit, then stay high for a one or
/// go low for a zero.
pub open spec fn program_of(t: TimingConstants) -> Seq<Instruction> {
    seq![
        Instruction { action: Action::ShiftOut, side: Level::Low, delay: (t.t3 - 1) as u8 },
        Instruction { action: Action::JumpIfZero(3), side: Level::High, delay: (t.t1 - 1) as u8 },
        Instruction { action: Action::Jump(0), side: Level::High, delay: (t.t2 - 1) as u8 },
        Instruction { action: Action::Nop, side: Level::Low, delay: (t.t2 - 1) as u8 },
    ]
}

/// The instruction that runs after the one at `pc` when the scratch
/// register holds `x`. After the last instruction the program wraps to
/// the first.
pub open spec fn successor_pc(code: Seq<Instruction>, pc: int, x: bool) -> int {
    let fall_through = if pc + 1 < code.len() {
        pc + 1
    } else {
        0
    };
    match code[pc].action {
        Action::Jump(target) => target as int,
        Action::JumpIfZero(target) => if x {
            fall_through
        } else {
            target as int
        },
        _ => fall_through,
    }
}

/// What the pin does from the instruction at `pc` on, up to the next
/// shift or for `fuel` instructions, whichever comes first.
pub open spec fn trace_from(code: Seq<Instruction>, pc: int, x: bool, fuel: nat) -> Seq<MicroOp>
    decreases fuel,
{
    if fuel == 0 {
        Seq::empty()
    } else {
        let op = MicroOp { level: code[pc].side, cycles: (code[pc].delay + 1) as u8 };
        let next = successor_pc(code, pc, x);
        if code[next].action == Action::ShiftOut {
            seq![op]
        } else {
            seq![op] + trace_from(code, next, x, (fuel - 1) as nat)
        }
    }
}

/// What the pin does during the period of one bit: from the shift that
/// loads `bit` up to the next shift. A program that never comes back to a
/// shift is cut off after as many instructions as it has.
pub open spec fn bit_trace(code: Seq<Instruction>, bit: bool) -> Seq<MicroOp> {
    trace_from(code, 0, bit, code.len())
}

/// The timing program for the constants `t`.
pub fn timing_program(t: TimingConstants) -> (code: Vec<Instruction>)
    requires
        t.wf(),
    ensures
        code@ == program_of(t),
        valid_program(code@),
        code@.len() == crate::engine::PROGRAM_LEN,
{
    let mut code: Vec<Instruction> = Vec::new();
    code.push(Instruction { action: Action::ShiftOut, side: Level::Low, delay: t.t3 - 1 });
    code.push(Instruction { action: Action::JumpIfZero(3), side: Level::High, delay: t.t1 - 1 });
    code.push(Instruction { action: Action::Jump(0), side: Level::High, delay: t.t2 - 1 });
    code.push(Instruction { action: Action::Nop, side: Level::Low, delay: t.t2 - 1 });
    assert(code@ =~= program_of(t));
    code
}

/// Whether `code` is a program that the interpreter accepts.
pub fn check_program(code: &Vec<Instruction>) -> (ok: bool)
    ensures
        ok == valid_program(code@),
{
    let len: usize = code.len();
    if len < 1 || len > MAX_PROGRAM_LEN {
        return false;
    }
    match code[0].action {
        Action::ShiftOut => {},
        _ => {
            return false;
        },
    }
    let mut i: usize = 0;
    while i < len
        invariant
            i <= len,
            len == code@.len(),
            forall|k: int| 0 <= k < i ==> instruction_ok(#[trigger] code@[k], code@.len()),
        decreases len - i,
    {
        let ins: Instruction = code[i];
        let target_ok: bool = match ins.action {
            Action::JumpIfZero(target) => target < len,
            Action::Jump(target) => target < len,
            _ => true,
        };
        if ins.delay > MAX_DELAY || !target_ok {
            assert(!instruction_ok(code@[i as int], code@.len()));
            return false;
        }
        i = i + 1;
    }
    true
}

/// The instruction that runs after the one at `pc`.
pub fn next_pc(code: &Vec<Instruction>, pc: usize, x: bool) -> (next: usize)
    requires
        valid_program(code@),
        pc < code@.len(),
    ensures
        next == successor_pc(code@, pc as int, x),
        next < code@.len(),
{
    let fall_through: usize = if pc + 1 < code.len() {
        pc + 1
    } else {
        0
    };
    match code[pc].action {
        Action::Jump(target) => target,
        Action::JumpIfZero(target) => if x {
            fall_through
        } else {
            target
        },
        _ => fall_through,
    }
}

/// Runs `code` for the period of one bit and answers what the pin does,
/// step by step.
pub fn trace_bit(code: &Vec<Instruction>, bit: bool) -> (steps: Vec<MicroOp>)
    requires
        valid_program(code@),
    ensures
        steps@ == bit_trace(code@, bit),
{
    let mut steps: Vec<MicroOp> = Vec::new();
    let mut pc: usize = 0;
    let mut fuel: usize = code.len();
    assert(steps@ + trace_from(code@, 0, bit, fuel as nat) =~= bit_trace(code@, bit));
    while fuel > 0
        invariant
            valid_program(code@),
            pc < code@.len(),
            steps@ + trace_from(code@, pc as int, bit, fuel as nat) == bit_trace(code@, bit),
        decreases fuel,
    {
        let ins: Instruction = code[pc];
        let op = MicroOp { level: ins.side, cycles: ins.delay + 1 };
        let next: usize = next_pc(code, pc, bit);
        let ghost before = steps@;
        steps.push(op);
        let at_shift: bool = match code[next].action {
            Action::ShiftOut => true,
            _ => false,
        };
        if at_shift {
            assert(steps@ =~= before + seq![op]);
            return steps;
        }
        assert(steps@ + trace_from(code@, next as int, bit, (fuel - 1) as nat) =~= before + (seq![
            op,
        ] + trace_from(code@, next as int, bit, (fuel - 1) as nat)));
        pc = next;
        fuel = fuel - 1;
    }
    assert(steps@ + Seq::<MicroOp>::empty() =~= steps@);
    steps
}

/// Run for one bit, the timing program takes exactly the three steps of
/// the bit: low while the period opens, high for the common pulse, then
/// high for a one or low for a zero.
pub proof fn lemma_program_traces_bit(t: TimingConstants, bit: bool)
    requires
        t.wf(),
    ensures
        bit_trace(program_of(t), bit) == bit_steps(t, bit),
{
    let code = program_of(t);
    let last = if bit { 2int } else { 3int };
    assert(successor_pc(code, 0, bit) == 1);
    assert(successor_pc(code, 1, bit) == last);
    assert(successor_pc(code, last, bit) == 0);
    let tail = trace_from(code, last, bit, 2);
    assert(tail =~= seq![bit_steps(t, bit)[2]]);
    let mid = trace_from(code, 1, bit, 3);
    assert(mid =~= seq![bit_steps(t, bit)[1]] + tail);
    assert(trace_from(code, 0, bit, 4) =~= seq![bit_steps(t, bit)[0]] + mid);
    assert(bit_trace(code, bit) =~= bit_steps(t, bit));
}

} // verus!
