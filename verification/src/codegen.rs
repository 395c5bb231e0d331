//! The backend: from the intermediate representation to x86-64 instructions.
//!
//! Instruction selection writes each operation over operands that may still be
//! names; frame allocation gives every name a slot below the frame pointer;
//! legalization rewrites what the processor cannot encode; and at last the
//! function gets its prologue and epilogue.

pub mod frame;
pub mod legalize;
pub mod render;
pub mod select;

pub use frame::allocate_stack;
pub use legalize::fix_instructions;
pub use select::select_instructions;
pub use select::to_operand;

use vstd::prelude::*;
use crate::codegen::frame::{
    allocate_spec, frame_fits, frame_names, place_instruction, try_allocate_stack,
};
use crate::codegen::legalize::{
    all_allocated, all_encodable, all_fixable, fix_all, fixable, is_allocated,
    lemma_fix_all_placed,
};
use crate::codegen::render::function_printable;
use crate::codegen::select::{all_selectable, is_selectable, select_all, select_one, selectable};
use crate::ir;

verus! {

/// A register: one of seven 64-bit registers, or the low byte of one of them.
#[derive(Debug, Clone, Copy, PartialEq, Eq, Structural)]
pub enum Reg {
    Rax,
    Rcx,
    Rdx,
    R10,
    R11,
    Rsp,
    Rbp,
    Al,
    Cl,
    Dl,
    R10b,
    R11b,
    Spl,
    Bpl,
}

impl Reg {
    /// Whether the register is the low byte of a 64-bit register.
    pub open spec fn is_byte(self) -> bool {
        match self {
            Reg::Al | Reg::Cl | Reg::Dl | Reg::R10b | Reg::R11b | Reg::Spl | Reg::Bpl => true,
            _ => false,
        }
    }

    /// The low byte of a 64-bit register; a byte register itself.
    pub open spec fn byte_alias(self) -> Reg {
        match self {
            Reg::Rax | Reg::Al => Reg::Al,
            Reg::Rcx | Reg::Cl => Reg::Cl,
            Reg::Rdx | Reg::Dl => Reg::Dl,
            Reg::R10 | Reg::R10b => Reg::R10b,
            Reg::R11 | Reg::R11b => Reg::R11b,
            Reg::Rsp | Reg::Spl => Reg::Spl,
            Reg::Rbp | Reg::Bpl => Reg::Bpl,
        }
    }

    /// Returns the low byte of a 64-bit register, and a byte register unchanged.
    pub fn to_byte_reg(&self) -> (byte: Reg)
        ensures
            byte == self.byte_alias(),
            byte.is_byte(),
            self.is_byte() ==> byte == *self,
    {
        match self {
            Reg::Rax => Reg::Al,
            Reg::Rcx => Reg::Cl,
            Reg::Rdx => Reg::Dl,
            Reg::R10 => Reg::R10b,
            Reg::R11 => Reg::R11b,
            Reg::Rsp => Reg::Spl,
            Reg::Rbp => Reg::Bpl,
            Reg::Al => Reg::Al,
            Reg::Cl => Reg::Cl,
            Reg::Dl => Reg::Dl,
            Reg::R10b => Reg::R10b,
            Reg::R11b => Reg::R11b,
            Reg::Spl => Reg::Spl,
            Reg::Bpl => Reg::Bpl,
        }
    }
}

/// Taking the low byte twice is taking it once, and different 64-bit registers
/// have different low bytes.
pub proof fn lemma_byte_alias(a: Reg, b: Reg)
    ensures
        a.byte_alias().byte_alias() == a.byte_alias(),
        a.byte_alias().is_byte(),
        !a.is_byte() && !b.is_byte() && a.byte_alias() == b.byte_alias() ==> a == b,
{
}

/// An operand of an instruction.
#[derive(Debug, PartialEq)]
pub enum Operand {
    /// A constant.
    Imm(i32),
    /// A register.
    Reg(Reg),
    /// A name that stands for a location that frame allocation has yet to choose.
    Pseudo(String),
    /// The eight bytes at this offset from the frame pointer.
    StackQWord(i32),
    /// The byte at this offset from the frame pointer.
    StackByte(i32),
}

/// The mathematical value of an [`Operand`]: a name is its characters.
pub enum OperandView {
    Imm(i32),
    Reg(Reg),
    Pseudo(Seq<char>),
    StackQWord(i32),
    StackByte(i32),
}

impl View for Operand {
    type V = OperandView;

    open spec fn view(&self) -> OperandView {
        match *self {
            Operand::Imm(value) => OperandView::Imm(value),
            Operand::Reg(reg) => OperandView::Reg(reg),
            Operand::Pseudo(name) => OperandView::Pseudo(name@),
            Operand::StackQWord(offset) => OperandView::StackQWord(offset),
            Operand::StackByte(offset) => OperandView::StackByte(offset),
        }
    }
}

impl Clone for Operand {
    /// Returns a copy with the same value.
    fn clone(&self) -> (copy: Operand)
        ensures
            copy@ == self@,
    {
        match self {
            Operand::Imm(value) => Operand::Imm(*value),
            Operand::Reg(reg) => Operand::Reg(*reg),
            Operand::Pseudo(name) => Operand::Pseudo(name.clone()),
            Operand::StackQWord(offset) => Operand::StackQWord(*offset),
            Operand::StackByte(offset) => Operand::StackByte(*offset),
        }
    }
}

impl OperandView {
    /// Whether the operand is a location in the stack frame.
    pub open spec fn is_stack(self) -> bool {
        self is StackQWord || self is StackByte
    }
}

/// An instruction. Those with two operands have the destination first.
#[derive(Debug, PartialEq)]
pub enum Instruction {
    Mov(Operand, Operand),
    Add(Operand, Operand),
    Sub(Operand, Operand),
    Imul(Operand, Operand),
    /// Divides `rdx:rax` by the operand: the quotient to `rax`, the remainder to
    /// `rdx`.
    Idiv(Operand),
    Neg(Operand),
    Not(Operand),
    Push(Operand),
    Pop(Operand),
    Ret,
    Cmp(Operand, Operand),
    /// Sets the byte operand to 1 where the last comparison found equality, to 0
    /// where not.
    Sete(Operand),
    /// Extends the sign of `rax` into `rdx`.
    Cqo,
}

/// The mathematical value of an [`Instruction`].
pub enum InstructionView {
    Mov(OperandView, OperandView),
    Add(OperandView, OperandView),
    Sub(OperandView, OperandView),
    Imul(OperandView, OperandView),
    Idiv(OperandView),
    Neg(OperandView),
    Not(OperandView),
    Push(OperandView),
    Pop(OperandView),
    Ret,
    Cmp(OperandView, OperandView),
    Sete(OperandView),
    Cqo,
}

impl View for Instruction {
    type V = InstructionView;

    open spec fn view(&self) -> InstructionView {
        match *self {
            Instruction::Mov(dst, src) => InstructionView::Mov(dst@, src@),
            Instruction::Add(dst, src) => InstructionView::Add(dst@, src@),
            Instruction::Sub(dst, src) => InstructionView::Sub(dst@, src@),
            Instruction::Imul(dst, src) => InstructionView::Imul(dst@, src@),
            Instruction::Idiv(op) => InstructionView::Idiv(op@),
            Instruction::Neg(op) => InstructionView::Neg(op@),
            Instruction::Not(op) => InstructionView::Not(op@),
            Instruction::Push(op) => InstructionView::Push(op@),
            Instruction::Pop(op) => InstructionView::Pop(op@),
            Instruction::Ret => InstructionView::Ret,
            Instruction::Cmp(dst, src) => InstructionView::Cmp(dst@, src@),
            Instruction::Sete(op) => InstructionView::Sete(op@),
            Instruction::Cqo => InstructionView::Cqo,
        }
    }
}

impl Clone for Instruction {
    /// Returns a copy with the same value.
    fn clone(&self) -> (copy: Instruction)
        ensures
            copy@ == self@,
    {
        match self {
            Instruction::Mov(dst, src) => Instruction::Mov(dst.clone(), src.clone()),
            Instruction::Add(dst, src) => Instruction::Add(dst.clone(), src.clone()),
            Instruction::Sub(dst, src) => Instruction::Sub(dst.clone(), src.clone()),
            Instruction::Imul(dst, src) => Instruction::Imul(dst.clone(), src.clone()),
            Instruction::Idiv(op) => Instruction::Idiv(op.clone()),
            Instruction::Neg(op) => Instruction::Neg(op.clone()),
            Instruction::Not(op) => Instruction::Not(op.clone()),
            Instruction::Push(op) => Instruction::Push(op.clone()),
            Instruction::Pop(op) => Instruction::Pop(op.clone()),
            Instruction::Ret => Instruction::Ret,
            Instruction::Cmp(dst, src) => Instruction::Cmp(dst.clone(), src.clone()),
            Instruction::Sete(op) => Instruction::Sete(op.clone()),
            Instruction::Cqo => Instruction::Cqo,
        }
    }
}

impl InstructionView {
    /// The operands of the instruction, the destination first.
    pub open spec fn operands(self) -> Seq<OperandView> {
        match self {
            InstructionView::Mov(dst, src) => seq![dst, src],
            InstructionView::Add(dst, src) => seq![dst, src],
            InstructionView::Sub(dst, src) => seq![dst, src],
            InstructionView::Imul(dst, src) => seq![dst, src],
            InstructionView::Cmp(dst, src) => seq![dst, src],
            InstructionView::Idiv(op) => seq![op],
            InstructionView::Neg(op) => seq![op],
            InstructionView::Not(op) => seq![op],
            InstructionView::Push(op) => seq![op],
            InstructionView::Pop(op) => seq![op],
            InstructionView::Sete(op) => seq![op],
            InstructionView::Ret => seq![],
            InstructionView::Cqo => seq![],
        }
    }

    /// The same instruction with other operands: `first` in place of the first,
    /// `second` in place of the second, as far as the instruction has them.
    pub open spec fn with_operands(self, first: OperandView, second: OperandView) -> InstructionView {
        match self {
            InstructionView::Mov(_, _) => InstructionView::Mov(first, second),
            InstructionView::Add(_, _) => InstructionView::Add(first, second),
            InstructionView::Sub(_, _) => InstructionView::Sub(first, second),
            InstructionView::Imul(_, _) => InstructionView::Imul(first, second),
            InstructionView::Cmp(_, _) => InstructionView::Cmp(first, second),
            InstructionView::Idiv(_) => InstructionView::Idiv(first),
            InstructionView::Neg(_) => InstructionView::Neg(first),
            InstructionView::Not(_) => InstructionView::Not(first),
            InstructionView::Push(_) => InstructionView::Push(first),
            InstructionView::Pop(_) => InstructionView::Pop(first),
            InstructionView::Sete(_) => InstructionView::Sete(first),
            InstructionView::Ret => InstructionView::Ret,
            InstructionView::Cqo => InstructionView::Cqo,
        }
    }
}

/// The values of a sequence of instructions.
pub open spec fn instruction_views(instructions: Seq<Instruction>) -> Seq<InstructionView> {
    instructions.map_values(|i: Instruction| i@)
}

/// A function: its name and its instructions, in order.
#[derive(Debug)]
pub struct Function {
    pub name: String,
    pub instructions: Vec<Instruction>,
}

/// The mathematical value of a [`Function`].
pub struct FunctionView {
    pub name: Seq<char>,
    pub instructions: Seq<InstructionView>,
}

impl View for Function {
    type V = FunctionView;

    open spec fn view(&self) -> FunctionView {
        FunctionView { name: self.name@, instructions: instruction_views(self.instructions@) }
    }
}

/// A program: exactly one function.
#[derive(Debug)]
pub struct Program {
    pub function: Function,
}

/// The mathematical value of a [`Program`].
pub struct ProgramView {
    pub function: FunctionView,
}

impl View for Program {
    type V = ProgramView;

    open spec fn view(&self) -> ProgramView {
        ProgramView { function: self.function@ }
    }
}

/// The largest frame, in bytes, whose size is still an `i32` after rounding up to
/// a multiple of 16.
pub const MAX_FRAME_BYTES: i32 = 0x7fff_fff0;

/// Whether code can be generated for `instruction`: instructions can be selected
/// for it, and where it is the logical negation of a variable, its destination is
/// a variable too, so that there is a location for `Sete` to set.
pub open spec fn supported_instruction(instruction: ir::InstructionView) -> bool {
    &&& selectable(instruction)
    &&& instruction matches ir::InstructionView::Unary(ir::UnaryOp::LogicalNegation, src, dst)
        ==> (src is Var ==> dst is Var)
}

/// Whether code can be generated for `program`: for each of its instructions, and
/// with a frame that is not too large.
pub open spec fn supported(program: ir::ProgramView) -> bool {
    let instructions = program.function.instructions;
    &&& forall|i: int|
        0 <= i < instructions.len() ==> supported_instruction(#[trigger] instructions[i])
    &&& 8 * frame_names(Seq::empty(), select_all(instructions)).len() <= MAX_FRAME_BYTES
}

/// The number of bytes to reserve for a frame of the given size, which is a
/// negative number or zero: its magnitude, rounded up to a multiple of 16.
pub open spec fn aligned_size(stack_size: int) -> int {
    ((-stack_size + 15) / 16) * 16
}

/// The instructions at the start of a function: the frame pointer is saved and
/// set to the stack pointer, and where the frame is not empty, the stack pointer
/// is moved down by its aligned size.
pub open spec fn prologue(stack_size: int) -> Seq<InstructionView> {
    let rbp = OperandView::Reg(Reg::Rbp);
    let rsp = OperandView::Reg(Reg::Rsp);
    let setup = seq![InstructionView::Push(rbp), InstructionView::Mov(rbp, rsp)];
    if stack_size != 0 {
        setup.push(InstructionView::Sub(rsp, OperandView::Imm(aligned_size(stack_size) as i32)))
    } else {
        setup
    }
}

/// The instructions before the return: where the frame is not empty, the stack
/// pointer is set back to the frame pointer; and the saved frame pointer is
/// restored.
pub open spec fn epilogue(stack_size: int) -> Seq<InstructionView> {
    let rbp = OperandView::Reg(Reg::Rbp);
    let rsp = OperandView::Reg(Reg::Rsp);
    if stack_size != 0 {
        seq![InstructionView::Mov(rsp, rbp), InstructionView::Pop(rbp)]
    } else {
        seq![InstructionView::Pop(rbp)]
    }
}

/// The instructions `body` with the prologue before them and the epilogue before
/// the last instruction of the whole.
pub open spec fn with_frame(body: Seq<InstructionView>, stack_size: int) -> Seq<InstructionView> {
    let all = prologue(stack_size) + body;
    (all.drop_last() + epilogue(stack_size)).push(all.last())
}

/// The machine code for a program: selection, frame allocation and
/// legalization of its instructions, within prologue and epilogue; under the
/// name of its function.
pub open spec fn generate_spec(program: ir::ProgramView) -> ProgramView {
    let selected = select_all(program.function.instructions);
    let allocated = allocate_spec(selected);
    ProgramView {
        function: FunctionView {
            name: program.function.name,
            instructions: with_frame(fix_all(allocated.0), allocated.1),
        },
    }
}

/// The reserved size is the least multiple of 16 that holds the frame.
pub proof fn lemma_aligned_size(stack_size: int)
    requires
        stack_size <= 0,
    ensures
        aligned_size(stack_size) % 16 == 0,
        -stack_size <= aligned_size(stack_size) < -stack_size + 16,
{
}

/// Puts the prologue before the instructions and the epilogue before the last
/// instruction of the whole.
pub fn insert_frame(valid_asm: &mut Vec<Instruction>, stack_size: i32)
    requires
        -MAX_FRAME_BYTES <= stack_size <= 0,
    ensures
        instruction_views(final(valid_asm)@) == with_frame(
            instruction_views(old(valid_asm)@),
            stack_size as int,
        ),
{
    let ghost body = instruction_views(valid_asm@);
    valid_asm.insert(0, Instruction::Push(Operand::Reg(Reg::Rbp)));
    valid_asm.insert(1, Instruction::Mov(Operand::Reg(Reg::Rbp), Operand::Reg(Reg::Rsp)));
    if stack_size != 0 {
        let alignment: i32 = 16;
        let aligned_size: i32 = ((-stack_size + (alignment - 1)) / alignment) * alignment;
        valid_asm.insert(
            2,
            Instruction::Sub(Operand::Reg(Reg::Rsp), Operand::Imm(aligned_size)),
        );
        assert(instruction_views(valid_asm@) =~= prologue(stack_size as int) + body);
        let at = valid_asm.len() - 1;
        valid_asm.insert(
            at,
            Instruction::Mov(Operand::Reg(Reg::Rsp), Operand::Reg(Reg::Rbp)),
        );
    } else {
        assert(instruction_views(valid_asm@) =~= prologue(stack_size as int) + body);
    }
    let at = valid_asm.len() - 1;
    valid_asm.insert(at, Instruction::Pop(Operand::Reg(Reg::Rbp)));
    assert(instruction_views(valid_asm@) =~= with_frame(body, stack_size as int));
}

/// Generates machine code for a program.
///
/// The result has the name of the program's function. Its instructions are those
/// that selection, frame allocation and legalization give, between the prologue
/// and, before the last instruction, the epilogue. The processor can encode every
/// one of them, as far as the rules of legalization go.
pub fn generate(program: &ir::Program) -> (assembly: Program)
    requires
        supported(program@),
    ensures
        assembly@ == generate_spec(program@),
        all_encodable(assembly@.function.instructions),
        function_printable(assembly@.function),
{
    proof {
        lemma_supported(program@);
    }
    let abstract_asm = select_instructions(&program.function);
    let (stack_asm, stack_size) = allocate_stack(abstract_asm);
    let mut valid_asm = fix_instructions(stack_asm);
    proof {
        lemma_fix_all_placed(instruction_views(stack_asm@));
    }
    insert_frame(&mut valid_asm, stack_size);
    Program { function: Function { name: program.function.name.clone(), instructions: valid_asm } }
}

/// Whether code can be generated for `instruction`.
pub fn is_supported(instruction: &ir::Instruction) -> (b: bool)
    ensures
        b == supported_instruction(instruction@),
{
    match instruction {
        ir::Instruction::Unary(ir::UnaryOp::LogicalNegation, ir::Val::Var(_), dst) => match dst {
            ir::Val::Var(_) => true,
            ir::Val::Constant(_) => false,
        },
        _ => is_selectable(instruction),
    }
}

/// Generates machine code for a program as [`generate`] does, but for any
/// program: returns `None` where the program is not supported.
pub fn try_generate(program: &ir::Program) -> (assembly: Option<Program>)
    ensures
        assembly is Some <==> supported(program@),
        assembly matches Some(a) ==> {
            &&& a@ == generate_spec(program@)
            &&& all_encodable(a@.function.instructions)
            &&& function_printable(a@.function)
        },
{
    let ghost instructions = program@.function.instructions;
    let mut i: usize = 0;
    while i < program.function.instructions.len()
        invariant
            i <= program.function.instructions.len(),
            instructions == program@.function.instructions,
            instructions.len() == program.function.instructions.len(),
            forall|j: int| 0 <= j < i ==> supported_instruction(#[trigger] instructions[j]),
        decreases program.function.instructions.len() - i,
    {
        assert(instructions[i as int] == program.function.instructions[i as int]@);
        if !is_supported(&program.function.instructions[i]) {
            return None;
        }
        i = i + 1;
    }
    let abstract_asm = select_instructions(&program.function);
    let (stack_asm, stack_size) = match try_allocate_stack(abstract_asm) {
        Some(allocated) => allocated,
        None => {
            return None;
        },
    };
    if stack_size < -MAX_FRAME_BYTES {
        return None;
    }
    proof {
        lemma_supported(program@);
        lemma_fix_all_placed(instruction_views(stack_asm@));
    }
    let mut valid_asm = fix_instructions(stack_asm);
    insert_frame(&mut valid_asm, stack_size);
    Some(
        Program {
            function: Function { name: program.function.name.clone(), instructions: valid_asm },
        },
    )
}

/// Whether an instruction is as selection leaves it: its operands are
/// immediates, registers and names, and a `Sete` has a name to set.
pub open spec fn is_abstract(instruction: InstructionView) -> bool {
    &&& forall|k: int|
        0 <= k < instruction.operands().len() ==> {
            let operand = #[trigger] instruction.operands()[k];
            operand is Imm || operand is Reg || operand is Pseudo
        }
    &&& instruction matches InstructionView::Sete(dst) ==> dst is Pseudo
}

/// Selection leaves instructions over immediates, registers and names.
pub proof fn lemma_select_one_abstract(instruction: ir::InstructionView)
    requires
        supported_instruction(instruction),
    ensures
        forall|i: int|
            0 <= i < select_one(instruction).len() ==> is_abstract(
                #[trigger] select_one(instruction)[i],
            ),
{
    let selected = select_one(instruction);
    assert forall|i: int| 0 <= i < selected.len() implies is_abstract(#[trigger] selected[i]) by {
        let inst = selected[i];
        assert forall|k: int| 0 <= k < inst.operands().len() implies {
            let operand = #[trigger] inst.operands()[k];
            operand is Imm || operand is Reg || operand is Pseudo
        } by {}
    }
}

/// Selection leaves instructions over immediates, registers and names.
pub proof fn lemma_select_all_abstract(instructions: Seq<ir::InstructionView>)
    requires
        forall|i: int|
            0 <= i < instructions.len() ==> supported_instruction(#[trigger] instructions[i]),
    ensures
        forall|i: int|
            0 <= i < select_all(instructions).len() ==> is_abstract(
                #[trigger] select_all(instructions)[i],
            ),
    decreases instructions.len(),
{
    if instructions.len() > 0 {
        let front = instructions.drop_last();
        assert forall|i: int| 0 <= i < front.len() implies supported_instruction(
            #[trigger] front[i],
        ) by {
            assert(front[i] == instructions[i]);
        }
        lemma_select_all_abstract(front);
        lemma_select_one_abstract(instructions.last());
        let a = select_all(front);
        let b = select_one(instructions.last());
        assert forall|i: int| 0 <= i < (a + b).len() implies is_abstract(#[trigger] (a + b)[i]) by {
            if i < a.len() {
                assert((a + b)[i] == a[i]);
            } else {
                assert((a + b)[i] == b[i - a.len()]);
            }
        }
    }
}

/// Frame allocation turns what selection leaves into what legalization takes.
pub proof fn lemma_place_fixable(names: Seq<Seq<char>>, instruction: InstructionView)
    requires
        is_abstract(instruction),
    ensures
        fixable(place_instruction(names, instruction)),
        is_allocated(place_instruction(names, instruction)),
{
    let placed = place_instruction(names, instruction);
    assert forall|k: int| 0 <= k < placed.operands().len() implies {
        let operand = #[trigger] placed.operands()[k];
        operand is Imm || operand is Reg || operand is StackQWord
    } by {
        let before = instruction.operands()[k];
        assert(before is Imm || before is Reg || before is Pseudo);
    }
    if let InstructionView::Sete(dst) = instruction {
        assert(instruction.operands()[0] == dst);
    }
}

/// For a supported program every stage meets what the next one asks for.
pub proof fn lemma_supported(program: ir::ProgramView)
    requires
        supported(program),
    ensures
        all_selectable(program.function.instructions),
        frame_fits(select_all(program.function.instructions)),
        all_fixable(allocate_spec(select_all(program.function.instructions)).0),
        all_allocated(allocate_spec(select_all(program.function.instructions)).0),
        -MAX_FRAME_BYTES <= allocate_spec(select_all(program.function.instructions)).1 <= 0,
{
    let instructions = program.function.instructions;
    let selected = select_all(instructions);
    let names = frame_names(Seq::empty(), selected);
    let placed = allocate_spec(selected).0;
    lemma_select_all_abstract(instructions);
    assert forall|i: int| 0 <= i < placed.len() implies fixable(#[trigger] placed[i])
        && is_allocated(placed[i]) by {
        lemma_place_fixable(names, selected[i]);
    }
}

} // verus!
