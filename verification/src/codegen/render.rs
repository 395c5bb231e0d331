//! The assembly text of a program, in Intel syntax.

use vstd::prelude::*;
use vstd::string::*;
use crate::codegen::{
    Function, FunctionView, Instruction, InstructionView, Operand, OperandView, Program,
    ProgramView, Reg,
};
use crate::codegen::frame::is_placed;
use crate::text::{decimal, push_decimal};

verus! {

/// The name of a register.
pub open spec fn reg_text(reg: Reg) -> Seq<char> {
    match reg {
        Reg::Rax => "rax"@,
        Reg::Rcx => "rcx"@,
        Reg::Rdx => "rdx"@,
        Reg::R10 => "r10"@,
        Reg::R11 => "r11"@,
        Reg::Rsp => "rsp"@,
        Reg::Rbp => "rbp"@,
        Reg::Al => "al"@,
        Reg::Cl => "cl"@,
        Reg::Dl => "dl"@,
        Reg::R10b => "r10b"@,
        Reg::R11b => "r11b"@,
        Reg::Spl => "spl"@,
        Reg::Bpl => "bpl"@,
    }
}

/// The text of an operand: a number, a register, or a slot, which is written with
/// its width and its offset from `rbp`. A name has no text.
pub open spec fn operand_text(operand: OperandView) -> Seq<char>
    recommends
        !(operand is Pseudo),
{
    match operand {
        OperandView::Imm(value) => decimal(value as int),
        OperandView::Reg(reg) => reg_text(reg),
        OperandView::StackQWord(offset) => "QWORD PTR [rbp"@ + decimal(offset as int) + "]"@,
        OperandView::StackByte(offset) => "BYTE PTR [rbp"@ + decimal(offset as int) + "]"@,
        OperandView::Pseudo(_) => Seq::empty(),
    }
}

/// The mnemonic of an instruction, after four spaces.
pub open spec fn mnemonic(instruction: InstructionView) -> Seq<char> {
    match instruction {
        InstructionView::Mov(_, _) => "    mov"@,
        InstructionView::Add(_, _) => "    add"@,
        InstructionView::Sub(_, _) => "    sub"@,
        InstructionView::Imul(_, _) => "    imul"@,
        InstructionView::Cmp(_, _) => "    cmp"@,
        InstructionView::Idiv(_) => "    idiv"@,
        InstructionView::Neg(_) => "    neg"@,
        InstructionView::Not(_) => "    not"@,
        InstructionView::Push(_) => "    push"@,
        InstructionView::Pop(_) => "    pop"@,
        InstructionView::Sete(_) => "    sete"@,
        InstructionView::Ret => "    ret"@,
        InstructionView::Cqo => "    cqo"@,
    }
}

/// The line of an instruction, without its end: the mnemonic, and after a space
/// the operands, the destination first, with a comma and a space between them.
pub open spec fn instruction_text(instruction: InstructionView) -> Seq<char> {
    let operands = instruction.operands();
    if operands.len() == 2 {
        mnemonic(instruction) + " "@ + operand_text(operands[0]) + ", "@ + operand_text(
            operands[1],
        )
    } else if operands.len() == 1 {
        mnemonic(instruction) + " "@ + operand_text(operands[0])
    } else {
        mnemonic(instruction)
    }
}

/// The lines of the instructions, each with its end.
pub open spec fn lines(instructions: Seq<InstructionView>) -> Seq<char>
    decreases instructions.len(),
{
    if instructions.len() == 0 {
        Seq::empty()
    } else {
        lines(instructions.drop_last()) + instruction_text(instructions.last()) + "\n"@
    }
}

/// The text of a function: its label, and the lines of its instructions.
pub open spec fn function_text(function: FunctionView) -> Seq<char> {
    function.name + ":\n"@ + lines(function.instructions)
}

/// The text of a program: the directive for Intel syntax, the export of the
/// function's name, the function, and the note that the stack need not be
/// executable.
pub open spec fn program_text(program: ProgramView) -> Seq<char> {
    "    .intel_syntax noprefix\n"@ + "    .globl "@ + program.function.name + "\n"@
        + function_text(program.function) + "    .section .note.GNU-stack,\"\",@progbits\n"@
}

/// Whether a function has text: no operand of its instructions is a name.
pub open spec fn function_printable(function: FunctionView) -> bool {
    forall|i: int|
        0 <= i < function.instructions.len() ==> is_placed(#[trigger] function.instructions[i])
}

impl Reg {
    /// Returns the name of the register.
    pub fn to_string(&self) -> (text: String)
        ensures
            text@ == reg_text(*self),
    {
        match self {
            Reg::Rax => String::from_str("rax"),
            Reg::Rcx => String::from_str("rcx"),
            Reg::Rdx => String::from_str("rdx"),
            Reg::R10 => String::from_str("r10"),
            Reg::R11 => String::from_str("r11"),
            Reg::Rsp => String::from_str("rsp"),
            Reg::Rbp => String::from_str("rbp"),
            Reg::Al => String::from_str("al"),
            Reg::Cl => String::from_str("cl"),
            Reg::Dl => String::from_str("dl"),
            Reg::R10b => String::from_str("r10b"),
            Reg::R11b => String::from_str("r11b"),
            Reg::Spl => String::from_str("spl"),
            Reg::Bpl => String::from_str("bpl"),
        }
    }
}

impl Operand {
    /// Returns the text of the operand.
    pub fn to_string(&self) -> (text: String)
        requires
            !(self@ is Pseudo),
        ensures
            text@ == operand_text(self@),
    {
        match self {
            Operand::Imm(val) => {
                let mut text = String::new();
                push_decimal(&mut text, *val);
                assert(text@ =~= operand_text(self@));
                text
            },
            Operand::Reg(reg) => reg.to_string(),
            Operand::StackQWord(offset) => {
                let mut text = String::from_str("QWORD PTR [rbp");
                push_decimal(&mut text, *offset);
                text.append("]");
                text
            },
            Operand::StackByte(offset) => {
                let mut text = String::from_str("BYTE PTR [rbp");
                push_decimal(&mut text, *offset);
                text.append("]");
                text
            },
            Operand::Pseudo(_) => String::new(),
        }
    }
}

/// The line of an instruction with two operands.
fn binary_line(mnemonic: &str, dst: &Operand, src: &Operand) -> (text: String)
    requires
        !(dst@ is Pseudo),
        !(src@ is Pseudo),
    ensures
        text@ == mnemonic@ + " "@ + operand_text(dst@) + ", "@ + operand_text(src@),
{
    let mut text = String::from_str(mnemonic);
    text.append(" ");
    text.append(dst.to_string().as_str());
    text.append(", ");
    text.append(src.to_string().as_str());
    text
}

/// The line of an instruction with one operand.
fn unary_line(mnemonic: &str, op: &Operand) -> (text: String)
    requires
        !(op@ is Pseudo),
    ensures
        text@ == mnemonic@ + " "@ + operand_text(op@),
{
    let mut text = String::from_str(mnemonic);
    text.append(" ");
    text.append(op.to_string().as_str());
    text
}

impl Instruction {
    /// Returns the line of the instruction, without its end.
    pub fn to_string(&self) -> (text: String)
        requires
            is_placed(self@),
        ensures
            text@ == instruction_text(self@),
    {
        proof {
            if self@.operands().len() >= 1 {
                assert(!(self@.operands()[0] is Pseudo));
            }
            if self@.operands().len() == 2 {
                assert(!(self@.operands()[1] is Pseudo));
            }
        }
        match self {
            Instruction::Mov(dst, src) => binary_line("    mov", dst, src),
            Instruction::Add(dst, src) => binary_line("    add", dst, src),
            Instruction::Sub(dst, src) => binary_line("    sub", dst, src),
            Instruction::Imul(dst, src) => binary_line("    imul", dst, src),
            Instruction::Cmp(dst, src) => binary_line("    cmp", dst, src),
            Instruction::Idiv(op) => unary_line("    idiv", op),
            Instruction::Neg(op) => unary_line("    neg", op),
            Instruction::Not(op) => unary_line("    not", op),
            Instruction::Push(op) => unary_line("    push", op),
            Instruction::Pop(op) => unary_line("    pop", op),
            Instruction::Sete(op) => unary_line("    sete", op),
            Instruction::Ret => String::from_str("    ret"),
            Instruction::Cqo => String::from_str("    cqo"),
        }
    }
}

impl Function {
    /// Returns the text of the function: its label, and a line for each
    /// instruction.
    pub fn to_string(&self) -> (text: String)
        requires
            function_printable(self@),
        ensures
            text@ == function_text(self@),
    {
        let mut text = self.name.clone();
        text.append(":\n");
        let ghost head = text@;
        let ghost all = self@.instructions;
        let mut i: usize = 0;
        assert(all.take(0) =~= Seq::empty());
        assert(head + lines(all.take(0)) =~= head);
        while i < self.instructions.len()
            invariant
                i <= self.instructions.len(),
                all == self@.instructions,
                all.len() == self.instructions.len(),
                function_printable(self@),
                text@ == head + lines(all.take(i as int)),
            decreases self.instructions.len() - i,
        {
            proof {
                let next = all.take(i + 1);
                assert(next.drop_last() =~= all.take(i as int));
                assert(next.last() == self.instructions[i as int]@);
                assert(is_placed(all[i as int]));
            }
            let ghost before = text@;
            let line = self.instructions[i].to_string();
            text.append(line.as_str());
            text.append("\n");
            assert(text@ =~= head + lines(all.take(i + 1)));
            i = i + 1;
        }
        assert(all.take(i as int) =~= all);
        text
    }
}

impl Program {
    /// Returns the assembly text of the program.
    pub fn to_string(&self) -> (text: String)
        requires
            function_printable(self@.function),
        ensures
            text@ == program_text(self@),
    {
        let mut text = String::from_str("    .intel_syntax noprefix\n");
        text.append("    .globl ");
        text.append(self.function.name.as_str());
        text.append("\n");
        text.append(self.function.to_string().as_str());
        text.append("    .section .note.GNU-stack,\"\",@progbits\n");
        text
    }
}

} // verus!
