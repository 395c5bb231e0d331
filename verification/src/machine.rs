//! What the instructions mean: a model of the processor, as far as the generated
//! code uses it, and of the arithmetic that the source language asks for.
//!
//! Registers and memory hold 64-bit integers in two's complement, which the
//! model writes as the integers from -2^63 to 2^63 - 1. Memory is a map from
//! addresses to the eight bytes that start there; the generated code only uses
//! addresses that lie a multiple of eight apart. Before frame allocation an
//! operand may be a name, and then the model keeps a value for each name.

use vstd::prelude::*;
use crate::codegen::{InstructionView, OperandView, Reg};

verus! {

/// Whether `x` is a 64-bit integer in two's complement.
pub open spec fn fits64(x: int) -> bool {
    -0x8000_0000_0000_0000 <= x < 0x8000_0000_0000_0000
}

/// The 64-bit integer that has the low 64 bits of `x`.
pub open spec fn wrap64(x: int) -> int {
    (x + 0x8000_0000_0000_0000) % 0x1_0000_0000_0000_0000 - 0x8000_0000_0000_0000
}

/// The number that the 64 bits of `x` write without a sign.
pub open spec fn unsigned64(x: int) -> int {
    x % 0x1_0000_0000_0000_0000
}

/// The quotient of `a` by `b`, rounded towards zero.
pub open spec fn trunc_div(a: int, b: int) -> int
    recommends
        b != 0,
{
    if a >= 0 {
        if b > 0 {
            a / b
        } else {
            -(a / (-b))
        }
    } else {
        if b > 0 {
            -((-a) / b)
        } else {
            (-a) / (-b)
        }
    }
}

/// The remainder of `a` by `b` that goes with the quotient rounded towards zero:
/// it has the sign of `a`.
pub open spec fn trunc_rem(a: int, b: int) -> int
    recommends
        b != 0,
{
    if a >= 0 {
        if b > 0 {
            a % b
        } else {
            a % (-b)
        }
    } else {
        if b > 0 {
            -((-a) % b)
        } else {
            -((-a) % (-b))
        }
    }
}

/// `x` with its low byte replaced by the byte `byte`.
pub open spec fn with_low_byte(x: int, byte: int) -> int {
    x - x % 256 + byte
}

impl Reg {
    /// The 64-bit register that a byte register is the low byte of; a 64-bit
    /// register itself.
    pub open spec fn full(self) -> Reg {
        match self {
            Reg::Rax | Reg::Al => Reg::Rax,
            Reg::Rcx | Reg::Cl => Reg::Rcx,
            Reg::Rdx | Reg::Dl => Reg::Rdx,
            Reg::R10 | Reg::R10b => Reg::R10,
            Reg::R11 | Reg::R11b => Reg::R11,
            Reg::Rsp | Reg::Spl => Reg::Rsp,
            Reg::Rbp | Reg::Bpl => Reg::Rbp,
        }
    }
}

/// The state of the processor.
pub struct Machine {
    /// The values of the 64-bit registers.
    pub regs: Map<Reg, int>,
    /// The eight bytes at each address.
    pub memory: Map<int, int>,
    /// The values of the names that have no location yet.
    pub names: Map<Seq<char>, int>,
    /// Whether the last comparison found its operands equal.
    pub zero: bool,
}

/// A place that holds a 64-bit value.
pub enum Location {
    Register(Reg),
    Name(Seq<char>),
    Memory(int),
}

impl Machine {
    /// The value at a location.
    pub open spec fn load(self, location: Location) -> int {
        match location {
            Location::Register(reg) => self.regs[reg],
            Location::Name(name) => self.names[name],
            Location::Memory(address) => self.memory[address],
        }
    }

    /// The machine with `value` at a location.
    pub open spec fn store(self, location: Location, value: int) -> Machine {
        match location {
            Location::Register(reg) => Machine { regs: self.regs.insert(reg, value), ..self },
            Location::Name(name) => Machine { names: self.names.insert(name, value), ..self },
            Location::Memory(address) => Machine {
                memory: self.memory.insert(address, value),
                ..self
            },
        }
    }

    /// The location that an operand names when it is used as eight bytes: a
    /// 64-bit register, a name, or an eight-byte slot, whose address is its
    /// offset from `rbp`.
    pub open spec fn word(self, operand: OperandView) -> Option<Location> {
        match operand {
            OperandView::Reg(reg) => if reg.is_byte() {
                None
            } else {
                Some(Location::Register(reg))
            },
            OperandView::Pseudo(name) => Some(Location::Name(name)),
            OperandView::StackQWord(offset) => Some(Location::Memory(self.regs[Reg::Rbp] + offset)),
            _ => None,
        }
    }

    /// The location whose low byte an operand names: of a register, the 64-bit
    /// register that it is or is the low byte of; of a slot, the eight bytes at
    /// its address, of which the byte at the address is the lowest.
    pub open spec fn byte(self, operand: OperandView) -> Option<Location> {
        match operand {
            OperandView::Reg(reg) => Some(Location::Register(reg.full())),
            OperandView::Pseudo(name) => Some(Location::Name(name)),
            OperandView::StackQWord(offset) => Some(Location::Memory(self.regs[Reg::Rbp] + offset)),
            OperandView::StackByte(offset) => Some(Location::Memory(self.regs[Reg::Rbp] + offset)),
            OperandView::Imm(_) => None,
        }
    }

    /// The value of an operand that is read as eight bytes: an immediate is
    /// extended with its sign.
    pub open spec fn value(self, operand: OperandView) -> Option<int> {
        match operand {
            OperandView::Imm(value) => Some(value as int),
            _ => match self.word(operand) {
                Some(location) => Some(self.load(location)),
                None => None,
            },
        }
    }

    /// The machine after an instruction that computes `result` from the
    /// destination and the source and writes it to the destination.
    pub open spec fn combine(
        self,
        dst: OperandView,
        src: OperandView,
        result: spec_fn(int, int) -> int,
    ) -> Option<Machine> {
        match (self.word(dst), self.value(src)) {
            (Some(location), Some(operand)) => Some(
                self.store(location, result(self.load(location), operand)),
            ),
            _ => None,
        }
    }

    /// The machine after an instruction that computes `result` from its operand
    /// and writes it back.
    pub open spec fn update(self, dst: OperandView, result: spec_fn(int) -> int) -> Option<Machine> {
        match self.word(dst) {
            Some(location) => Some(self.store(location, result(self.load(location)))),
            None => None,
        }
    }

    /// The machine after one instruction, or `None` where the processor traps or
    /// the model has no answer: it has none for an instruction that writes to an
    /// immediate, or that uses a byte as an operand of eight bytes.
    pub open spec fn step(self, instruction: InstructionView) -> Option<Machine> {
        match instruction {
            InstructionView::Mov(dst, src) => self.combine(dst, src, |a: int, b: int| b),
            InstructionView::Add(dst, src) => self.combine(dst, src, |a: int, b: int| wrap64(a + b)),
            InstructionView::Sub(dst, src) => self.combine(dst, src, |a: int, b: int| wrap64(a - b)),
            InstructionView::Imul(dst, src) => self.combine(
                dst,
                src,
                |a: int, b: int| wrap64(a * b),
            ),
            InstructionView::Neg(dst) => self.update(dst, |a: int| wrap64(-a)),
            InstructionView::Not(dst) => self.update(dst, |a: int| -a - 1),
            InstructionView::Cmp(left, right) => match (self.value(left), self.value(right)) {
                (Some(a), Some(b)) => Some(Machine { zero: wrap64(a - b) == 0, ..self }),
                _ => None,
            },
            InstructionView::Sete(dst) => match self.byte(dst) {
                Some(location) => Some(
                    self.store(
                        location,
                        with_low_byte(self.load(location), if self.zero { 1int } else { 0int }),
                    ),
                ),
                None => None,
            },
            InstructionView::Cqo => Some(
                self.store(
                    Location::Register(Reg::Rdx),
                    if self.regs[Reg::Rax] < 0 { -1int } else { 0int },
                ),
            ),
            InstructionView::Idiv(src) => match self.value(src) {
                Some(divisor) => {
                    let dividend = self.regs[Reg::Rdx] * 0x1_0000_0000_0000_0000 + unsigned64(
                        self.regs[Reg::Rax],
                    );
                    if divisor != 0 && fits64(trunc_div(dividend, divisor)) {
                        Some(
                            self.store(
                                Location::Register(Reg::Rax),
                                trunc_div(dividend, divisor),
                            ).store(Location::Register(Reg::Rdx), trunc_rem(dividend, divisor)),
                        )
                    } else {
                        None
                    }
                },
                None => None,
            },
            InstructionView::Push(src) => match self.value(src) {
                Some(value) => {
                    let top = self.regs[Reg::Rsp] - 8;
                    Some(
                        self.store(Location::Register(Reg::Rsp), top).store(
                            Location::Memory(top),
                            value,
                        ),
                    )
                },
                None => None,
            },
            InstructionView::Pop(dst) => match self.word(dst) {
                Some(location) => {
                    let top = self.regs[Reg::Rsp];
                    Some(
                        self.store(Location::Register(Reg::Rsp), top + 8).store(
                            location,
                            self.memory[top],
                        ),
                    )
                },
                None => None,
            },
            InstructionView::Ret => Some(
                self.store(Location::Register(Reg::Rsp), self.regs[Reg::Rsp] + 8),
            ),
        }
    }

    /// The machine after the instructions of `code`, one after the other, or `None`
    /// where one of them has no answer. A `Ret` is the return to the caller: the
    /// return address is taken from the stack.
    pub open spec fn run(self, code: Seq<InstructionView>) -> Option<Machine>
        decreases code.len(),
    {
        if code.len() == 0 {
            Some(self)
        } else {
            match self.run(code.drop_last()) {
                Some(before) => before.step(code.last()),
                None => None,
            }
        }
    }
}

/// Running two pieces of code one after the other is running the whole.
pub proof fn lemma_run_concat(m: Machine, a: Seq<InstructionView>, b: Seq<InstructionView>)
    ensures
        m.run(a + b) == match m.run(a) {
            Some(middle) => middle.run(b),
            None => None,
        },
    decreases b.len(),
{
    if b.len() == 0 {
        assert(a + b =~= a);
    } else {
        assert((a + b).drop_last() =~= a + b.drop_last());
        assert((a + b).last() == b.last());
        lemma_run_concat(m, a, b.drop_last());
    }
}

/// Running one instruction is taking one step.
pub proof fn lemma_run_one(m: Machine, instruction: InstructionView)
    ensures
        m.run(seq![instruction]) == m.step(instruction),
{
    let code = seq![instruction];
    assert(code.drop_last() =~= Seq::empty());
    assert(m.run(code.drop_last()) == Some(m));
}

/// Running code and one more instruction is running the code and taking a step.
pub proof fn lemma_run_push(m: Machine, code: Seq<InstructionView>, last: InstructionView)
    ensures
        m.run(code.push(last)) == match m.run(code) {
            Some(before) => before.step(last),
            None => None,
        },
{
    assert(code.push(last).drop_last() =~= code);
}

/// Running two instructions is taking two steps.
pub proof fn lemma_run_two(m: Machine, first: InstructionView, second: InstructionView)
    ensures
        m.run(seq![first, second]) == match m.step(first) {
            Some(middle) => middle.step(second),
            None => None,
        },
{
    let none = Seq::<InstructionView>::empty();
    lemma_run_push(m, none, first);
    lemma_run_push(m, none.push(first), second);
    assert(seq![first, second] =~= none.push(first).push(second));
}

/// Running three instructions is taking three steps.
pub proof fn lemma_run_three(
    m: Machine,
    first: InstructionView,
    second: InstructionView,
    third: InstructionView,
)
    ensures
        m.run(seq![first, second, third]) == match m.step(first) {
            Some(a) => match a.step(second) {
                Some(b) => b.step(third),
                None => None,
            },
            None => None,
        },
{
    lemma_run_two(m, first, second);
    lemma_run_push(m, seq![first, second], third);
    assert(seq![first, second, third] =~= seq![first, second].push(third));
}

/// Running four instructions is taking four steps.
pub proof fn lemma_run_four(
    m: Machine,
    first: InstructionView,
    second: InstructionView,
    third: InstructionView,
    fourth: InstructionView,
)
    ensures
        m.run(seq![first, second, third, fourth]) == match m.step(first) {
            Some(a) => match a.step(second) {
                Some(b) => match b.step(third) {
                    Some(c) => c.step(fourth),
                    None => None,
                },
                None => None,
            },
            None => None,
        },
{
    lemma_run_three(m, first, second, third);
    lemma_run_push(m, seq![first, second, third], fourth);
    assert(seq![first, second, third, fourth] =~= seq![first, second, third].push(fourth));
}

} // verus!
