use minic::codegen::frame::{replace_operand, try_allocate_stack, FrameMap};
use minic::codegen::select::is_selectable;
use minic::codegen::{
    allocate_stack, fix_instructions, generate, insert_frame, is_supported, select_instructions,
    to_operand, try_generate, Instruction, Operand, Reg,
};
use minic::ir;
use minic::ir::{BinaryOp, UnaryOp, Val};

fn var(name: &str) -> Val {
    Val::Var(String::from(name))
}

fn pseudo(name: &str) -> Operand {
    Operand::Pseudo(String::from(name))
}

fn reg(r: Reg) -> Operand {
    Operand::Reg(r)
}

fn function(instructions: Vec<ir::Instruction>) -> ir::Function {
    ir::Function { name: String::from("main"), instructions }
}

fn program(instructions: Vec<ir::Instruction>) -> ir::Program {
    ir::Program { function: function(instructions) }
}

fn select(instruction: ir::Instruction) -> Vec<Instruction> {
    select_instructions(&function(vec![instruction]))
}

#[test]
fn byte_registers() {
    assert_eq!(Reg::Rax.to_byte_reg(), Reg::Al);
    assert_eq!(Reg::Rcx.to_byte_reg(), Reg::Cl);
    assert_eq!(Reg::Rdx.to_byte_reg(), Reg::Dl);
    assert_eq!(Reg::R10.to_byte_reg(), Reg::R10b);
    assert_eq!(Reg::R11.to_byte_reg(), Reg::R11b);
    assert_eq!(Reg::Rsp.to_byte_reg(), Reg::Spl);
    assert_eq!(Reg::Rbp.to_byte_reg(), Reg::Bpl);
}

#[test]
fn byte_register_of_a_byte_register_is_itself() {
    let all = [
        Reg::Rax, Reg::Rcx, Reg::Rdx, Reg::R10, Reg::R11, Reg::Rsp, Reg::Rbp, Reg::Al, Reg::Cl,
        Reg::Dl, Reg::R10b, Reg::R11b, Reg::Spl, Reg::Bpl,
    ];
    for r in all {
        assert_eq!(r.to_byte_reg().to_byte_reg(), r.to_byte_reg());
    }
    for r in &all[7..] {
        assert_eq!(r.to_byte_reg(), *r);
    }
}

#[test]
fn operands_of_values() {
    assert_eq!(to_operand(&Val::Constant(-3)), Operand::Imm(-3));
    assert_eq!(to_operand(&var("x")), pseudo("x"));
}

#[test]
fn select_add_subtract_multiply() {
    assert_eq!(
        select(ir::Instruction::Binary(BinaryOp::Add, Val::Constant(1), var("a"), var("t"))),
        vec![
            Instruction::Mov(pseudo("t"), Operand::Imm(1)),
            Instruction::Add(pseudo("t"), pseudo("a")),
        ]
    );
    assert_eq!(
        select(ir::Instruction::Binary(BinaryOp::Subtract, var("a"), Val::Constant(2), var("t"))),
        vec![
            Instruction::Mov(pseudo("t"), pseudo("a")),
            Instruction::Sub(pseudo("t"), Operand::Imm(2)),
        ]
    );
    assert_eq!(
        select(ir::Instruction::Binary(BinaryOp::Multiply, var("a"), var("b"), var("t"))),
        vec![
            Instruction::Mov(pseudo("t"), pseudo("a")),
            Instruction::Imul(pseudo("t"), pseudo("b")),
        ]
    );
}

#[test]
fn select_divide_and_remainder() {
    assert_eq!(
        select(ir::Instruction::Binary(BinaryOp::Divide, var("a"), Val::Constant(3), var("t"))),
        vec![
            Instruction::Mov(reg(Reg::Rax), pseudo("a")),
            Instruction::Cqo,
            Instruction::Idiv(Operand::Imm(3)),
            Instruction::Mov(pseudo("t"), reg(Reg::Rax)),
        ]
    );
    assert_eq!(
        select(ir::Instruction::Binary(BinaryOp::Remainder, Val::Constant(7), var("b"), var("t"))),
        vec![
            Instruction::Mov(reg(Reg::Rax), Operand::Imm(7)),
            Instruction::Cqo,
            Instruction::Idiv(pseudo("b")),
            Instruction::Mov(pseudo("t"), reg(Reg::Rdx)),
        ]
    );
}

#[test]
fn select_negation_and_complement() {
    assert_eq!(
        select(ir::Instruction::Unary(UnaryOp::Negation, Val::Constant(5), var("t"))),
        vec![Instruction::Mov(pseudo("t"), Operand::Imm(5)), Instruction::Neg(pseudo("t"))]
    );
    assert_eq!(
        select(ir::Instruction::Unary(UnaryOp::BitwiseComplement, var("a"), var("t"))),
        vec![Instruction::Mov(pseudo("t"), pseudo("a")), Instruction::Not(pseudo("t"))]
    );
}

#[test]
fn select_logical_negation_of_a_constant_is_decided() {
    assert_eq!(
        select(ir::Instruction::Unary(UnaryOp::LogicalNegation, Val::Constant(0), var("t"))),
        vec![Instruction::Mov(pseudo("t"), Operand::Imm(1))]
    );
    assert_eq!(
        select(ir::Instruction::Unary(UnaryOp::LogicalNegation, Val::Constant(5), var("t"))),
        vec![Instruction::Mov(pseudo("t"), Operand::Imm(0))]
    );
    assert_eq!(
        select(ir::Instruction::Unary(UnaryOp::LogicalNegation, Val::Constant(-1), var("t"))),
        vec![Instruction::Mov(pseudo("t"), Operand::Imm(0))]
    );
}

#[test]
fn select_logical_negation_of_a_variable_compares() {
    assert_eq!(
        select(ir::Instruction::Unary(UnaryOp::LogicalNegation, var("a"), var("t"))),
        vec![
            Instruction::Cmp(pseudo("a"), Operand::Imm(0)),
            Instruction::Mov(pseudo("t"), Operand::Imm(0)),
            Instruction::Sete(pseudo("t")),
        ]
    );
}

#[test]
fn select_return() {
    assert_eq!(
        select(ir::Instruction::Return(Val::Constant(2))),
        vec![Instruction::Mov(reg(Reg::Rax), Operand::Imm(2)), Instruction::Ret]
    );
    assert_eq!(
        select(ir::Instruction::Return(var("t"))),
        vec![Instruction::Mov(reg(Reg::Rax), pseudo("t")), Instruction::Ret]
    );
}

#[test]
fn select_goes_through_the_instructions_in_order() {
    let selected = select_instructions(&function(vec![
        ir::Instruction::Unary(UnaryOp::Negation, Val::Constant(1), var("a")),
        ir::Instruction::Return(var("a")),
    ]));
    assert_eq!(
        selected,
        vec![
            Instruction::Mov(pseudo("a"), Operand::Imm(1)),
            Instruction::Neg(pseudo("a")),
            Instruction::Mov(reg(Reg::Rax), pseudo("a")),
            Instruction::Ret,
        ]
    );
    assert_eq!(select_instructions(&function(vec![])), vec![]);
}

#[test]
fn selectable_instructions() {
    assert!(is_selectable(&ir::Instruction::Return(Val::Constant(0))));
    assert!(is_selectable(&ir::Instruction::Unary(UnaryOp::Negation, var("a"), var("b"))));
    for op in [
        BinaryOp::Add,
        BinaryOp::Subtract,
        BinaryOp::Multiply,
        BinaryOp::Divide,
        BinaryOp::Remainder,
    ] {
        assert!(is_selectable(&ir::Instruction::Binary(op, var("a"), var("b"), var("c"))));
    }
    for op in [
        BinaryOp::BitwiseAnd,
        BinaryOp::BitwiseOr,
        BinaryOp::BitwiseXor,
        BinaryOp::LeftShift,
        BinaryOp::RightShift,
        BinaryOp::LessThan,
        BinaryOp::GreaterThan,
        BinaryOp::LessThanEqual,
        BinaryOp::GreaterThanEqual,
        BinaryOp::NotEqual,
        BinaryOp::Equal,
    ] {
        assert!(!is_selectable(&ir::Instruction::Binary(op, var("a"), var("b"), var("c"))));
    }
    assert!(!is_selectable(&ir::Instruction::Copy(var("a"), var("b"))));
    assert!(!is_selectable(&ir::Instruction::Jump(String::from("l"))));
    assert!(!is_selectable(&ir::Instruction::JumpIfZero(var("a"), String::from("l"))));
    assert!(!is_selectable(&ir::Instruction::JumpIfNotZero(var("a"), String::from("l"))));
    assert!(!is_selectable(&ir::Instruction::Label(String::from("l"))));
}

#[test]
fn supported_instructions() {
    assert!(is_supported(&ir::Instruction::Unary(UnaryOp::LogicalNegation, var("a"), var("b"))));
    assert!(is_supported(&ir::Instruction::Unary(
        UnaryOp::LogicalNegation,
        Val::Constant(1),
        Val::Constant(2)
    )));
    assert!(!is_supported(&ir::Instruction::Unary(
        UnaryOp::LogicalNegation,
        var("a"),
        Val::Constant(2)
    )));
    assert!(is_supported(&ir::Instruction::Unary(UnaryOp::Negation, var("a"), Val::Constant(2))));
    assert!(!is_supported(&ir::Instruction::Label(String::from("l"))));
}

#[test]
fn frame_map_gives_slots_in_order() {
    let mut map = FrameMap::new();
    assert_eq!(map.frame_size(), 0);
    assert_eq!(map.resolve(&String::from("a")), Some(-8));
    assert_eq!(map.resolve(&String::from("b")), Some(-16));
    assert_eq!(map.resolve(&String::from("a")), Some(-8));
    assert_eq!(map.resolve(&String::from("c")), Some(-24));
    assert_eq!(map.resolve(&String::from("b")), Some(-16));
    assert_eq!(map.frame_size(), -24);
}

#[test]
fn replace_operand_touches_names_only() {
    let mut map = FrameMap::new();
    assert_eq!(replace_operand(&mut map, &Operand::Imm(4)), Some(Operand::Imm(4)));
    assert_eq!(replace_operand(&mut map, &reg(Reg::Rax)), Some(reg(Reg::Rax)));
    assert_eq!(
        replace_operand(&mut map, &Operand::StackQWord(-40)),
        Some(Operand::StackQWord(-40))
    );
    assert_eq!(replace_operand(&mut map, &Operand::StackByte(-8)), Some(Operand::StackByte(-8)));
    assert_eq!(map.frame_size(), 0);
    assert_eq!(replace_operand(&mut map, &pseudo("x")), Some(Operand::StackQWord(-8)));
    assert_eq!(map.frame_size(), -8);
}

#[test]
fn allocate_two_variables_summed() {
    let (placed, size) = allocate_stack(vec![
        Instruction::Mov(pseudo("t"), pseudo("x")),
        Instruction::Add(pseudo("t"), pseudo("y")),
        Instruction::Mov(reg(Reg::Rax), pseudo("t")),
        Instruction::Ret,
    ]);
    assert_eq!(
        placed,
        vec![
            Instruction::Mov(Operand::StackQWord(-8), Operand::StackQWord(-16)),
            Instruction::Add(Operand::StackQWord(-8), Operand::StackQWord(-24)),
            Instruction::Mov(reg(Reg::Rax), Operand::StackQWord(-8)),
            Instruction::Ret,
        ]
    );
    assert_eq!(size, -24);
}

#[test]
fn allocate_takes_the_destination_before_the_source() {
    let (placed, size) = allocate_stack(vec![Instruction::Cmp(pseudo("d"), pseudo("s"))]);
    assert_eq!(
        placed,
        vec![Instruction::Cmp(Operand::StackQWord(-8), Operand::StackQWord(-16))]
    );
    assert_eq!(size, -16);
    let (placed, size) = allocate_stack(vec![Instruction::Sub(pseudo("s"), pseudo("s"))]);
    assert_eq!(
        placed,
        vec![Instruction::Sub(Operand::StackQWord(-8), Operand::StackQWord(-8))]
    );
    assert_eq!(size, -8);
}

#[test]
fn allocate_without_names_changes_nothing() {
    let instructions = vec![
        Instruction::Mov(reg(Reg::Rax), Operand::Imm(2)),
        Instruction::Cqo,
        Instruction::Idiv(Operand::Imm(3)),
        Instruction::Push(reg(Reg::Rbp)),
        Instruction::Pop(reg(Reg::Rbp)),
        Instruction::Ret,
    ];
    let expected = vec![
        Instruction::Mov(reg(Reg::Rax), Operand::Imm(2)),
        Instruction::Cqo,
        Instruction::Idiv(Operand::Imm(3)),
        Instruction::Push(reg(Reg::Rbp)),
        Instruction::Pop(reg(Reg::Rbp)),
        Instruction::Ret,
    ];
    assert_eq!(allocate_stack(instructions), (expected, 0));
    assert_eq!(allocate_stack(vec![]), (vec![], 0));
}

#[test]
fn allocate_every_kind_of_instruction() {
    let (placed, size) = allocate_stack(vec![
        Instruction::Mov(pseudo("a"), pseudo("b")),
        Instruction::Add(pseudo("c"), pseudo("a")),
        Instruction::Sub(pseudo("d"), Operand::Imm(1)),
        Instruction::Imul(pseudo("e"), pseudo("b")),
        Instruction::Idiv(pseudo("f")),
        Instruction::Neg(pseudo("g")),
        Instruction::Not(pseudo("h")),
        Instruction::Push(pseudo("i")),
        Instruction::Pop(pseudo("j")),
        Instruction::Cmp(pseudo("k"), pseudo("k")),
        Instruction::Sete(pseudo("l")),
    ]);
    assert_eq!(
        placed,
        vec![
            Instruction::Mov(Operand::StackQWord(-8), Operand::StackQWord(-16)),
            Instruction::Add(Operand::StackQWord(-24), Operand::StackQWord(-8)),
            Instruction::Sub(Operand::StackQWord(-32), Operand::Imm(1)),
            Instruction::Imul(Operand::StackQWord(-40), Operand::StackQWord(-16)),
            Instruction::Idiv(Operand::StackQWord(-48)),
            Instruction::Neg(Operand::StackQWord(-56)),
            Instruction::Not(Operand::StackQWord(-64)),
            Instruction::Push(Operand::StackQWord(-72)),
            Instruction::Pop(Operand::StackQWord(-80)),
            Instruction::Cmp(Operand::StackQWord(-88), Operand::StackQWord(-88)),
            Instruction::Sete(Operand::StackQWord(-96)),
        ]
    );
    assert_eq!(size, -96);
}

#[test]
fn allocate_leaves_no_name() {
    let mut instructions = Vec::new();
    for i in 0..300 {
        instructions.push(Instruction::Mov(
            Operand::Pseudo(format!("v{}", i % 97)),
            Operand::Pseudo(format!("v{}", (i * 7) % 101)),
        ));
    }
    let (placed, size) = allocate_stack(instructions);
    let mut offsets = std::collections::HashSet::new();
    for instruction in &placed {
        match instruction {
            Instruction::Mov(Operand::StackQWord(d), Operand::StackQWord(s)) => {
                offsets.insert(*d);
                offsets.insert(*s);
                assert!(*d < 0 && *d % 8 == 0 && *d >= size);
                assert!(*s < 0 && *s % 8 == 0 && *s >= size);
            }
            other => panic!("unexpected instruction {:?}", other),
        }
    }
    assert_eq!(size, -8 * offsets.len() as i32);
}

#[test]
fn checked_allocation_agrees() {
    let instructions = vec![Instruction::Neg(pseudo("a")), Instruction::Not(pseudo("b"))];
    assert_eq!(
        try_allocate_stack(instructions),
        Some((
            vec![
                Instruction::Neg(Operand::StackQWord(-8)),
                Instruction::Not(Operand::StackQWord(-16)),
            ],
            -16
        ))
    );
}

#[test]
fn fix_add_of_two_slots_goes_through_r10() {
    assert_eq!(
        fix_instructions(vec![Instruction::Add(
            Operand::StackQWord(-8),
            Operand::StackQWord(-24)
        )]),
        vec![
            Instruction::Mov(reg(Reg::R10), Operand::StackQWord(-24)),
            Instruction::Add(Operand::StackQWord(-8), reg(Reg::R10)),
        ]
    );
}

#[test]
fn fix_sub_cmp_mov_of_two_slots() {
    assert_eq!(
        fix_instructions(vec![
            Instruction::Sub(Operand::StackQWord(-8), Operand::StackQWord(-16)),
            Instruction::Cmp(Operand::StackQWord(-8), Operand::StackQWord(-16)),
            Instruction::Mov(Operand::StackQWord(-8), Operand::StackQWord(-16)),
        ]),
        vec![
            Instruction::Mov(reg(Reg::R10), Operand::StackQWord(-16)),
            Instruction::Sub(Operand::StackQWord(-8), reg(Reg::R10)),
            Instruction::Mov(reg(Reg::R10), Operand::StackQWord(-16)),
            Instruction::Cmp(Operand::StackQWord(-8), reg(Reg::R10)),
            Instruction::Mov(reg(Reg::R10), Operand::StackQWord(-16)),
            Instruction::Mov(Operand::StackQWord(-8), reg(Reg::R10)),
        ]
    );
}

#[test]
fn fix_leaves_one_memory_operand_alone() {
    let cases = vec![
        Instruction::Add(Operand::StackQWord(-8), Operand::Imm(1)),
        Instruction::Add(reg(Reg::Rax), Operand::StackQWord(-8)),
        Instruction::Sub(Operand::StackQWord(-8), reg(Reg::Rdx)),
        Instruction::Cmp(Operand::StackQWord(-8), Operand::Imm(0)),
        Instruction::Mov(Operand::StackQWord(-8), Operand::Imm(0)),
        Instruction::Mov(reg(Reg::Rax), Operand::StackQWord(-8)),
        Instruction::Neg(Operand::StackQWord(-8)),
        Instruction::Not(Operand::StackQWord(-8)),
        Instruction::Push(reg(Reg::Rbp)),
        Instruction::Pop(reg(Reg::Rbp)),
        Instruction::Cqo,
        Instruction::Ret,
    ];
    let expected = vec![
        Instruction::Add(Operand::StackQWord(-8), Operand::Imm(1)),
        Instruction::Add(reg(Reg::Rax), Operand::StackQWord(-8)),
        Instruction::Sub(Operand::StackQWord(-8), reg(Reg::Rdx)),
        Instruction::Cmp(Operand::StackQWord(-8), Operand::Imm(0)),
        Instruction::Mov(Operand::StackQWord(-8), Operand::Imm(0)),
        Instruction::Mov(reg(Reg::Rax), Operand::StackQWord(-8)),
        Instruction::Neg(Operand::StackQWord(-8)),
        Instruction::Not(Operand::StackQWord(-8)),
        Instruction::Push(reg(Reg::Rbp)),
        Instruction::Pop(reg(Reg::Rbp)),
        Instruction::Cqo,
        Instruction::Ret,
    ];
    assert_eq!(fix_instructions(cases), expected);
}

#[test]
fn fix_leaves_byte_slots_alone() {
    assert_eq!(
        fix_instructions(vec![
            Instruction::Mov(reg(Reg::Rax), Operand::StackByte(-8)),
            Instruction::Mov(Operand::StackByte(-8), Operand::StackByte(-16)),
            Instruction::Cmp(Operand::StackQWord(-8), Operand::StackByte(-16)),
        ]),
        vec![
            Instruction::Mov(reg(Reg::Rax), Operand::StackByte(-8)),
            Instruction::Mov(Operand::StackByte(-8), Operand::StackByte(-16)),
            Instruction::Cmp(Operand::StackQWord(-8), Operand::StackByte(-16)),
        ]
    );
}

#[test]
fn fix_sete_sets_a_byte() {
    assert_eq!(
        fix_instructions(vec![
            Instruction::Sete(Operand::StackQWord(-16)),
            Instruction::Sete(reg(Reg::Rax)),
            Instruction::Sete(reg(Reg::R10)),
            Instruction::Sete(reg(Reg::Dl)),
        ]),
        vec![
            Instruction::Sete(Operand::StackByte(-16)),
            Instruction::Sete(reg(Reg::Al)),
            Instruction::Sete(reg(Reg::R10b)),
            Instruction::Sete(reg(Reg::Dl)),
        ]
    );
}

#[test]
fn fix_immediate_divisor_goes_through_r10() {
    assert_eq!(
        fix_instructions(vec![
            Instruction::Idiv(Operand::Imm(3)),
            Instruction::Idiv(Operand::StackQWord(-8)),
            Instruction::Idiv(reg(Reg::Rcx)),
        ]),
        vec![
            Instruction::Mov(reg(Reg::R10), Operand::Imm(3)),
            Instruction::Idiv(reg(Reg::R10)),
            Instruction::Idiv(Operand::StackQWord(-8)),
            Instruction::Idiv(reg(Reg::Rcx)),
        ]
    );
}

#[test]
fn fix_multiplication_into_a_slot_goes_through_r11() {
    assert_eq!(
        fix_instructions(vec![
            Instruction::Imul(Operand::StackQWord(-8), Operand::Imm(3)),
            Instruction::Imul(Operand::StackQWord(-8), Operand::StackQWord(-16)),
            Instruction::Imul(reg(Reg::Rax), Operand::StackQWord(-16)),
        ]),
        vec![
            Instruction::Mov(reg(Reg::R11), Operand::StackQWord(-8)),
            Instruction::Imul(reg(Reg::R11), Operand::Imm(3)),
            Instruction::Mov(Operand::StackQWord(-8), reg(Reg::R11)),
            Instruction::Mov(reg(Reg::R11), Operand::StackQWord(-8)),
            Instruction::Imul(reg(Reg::R11), Operand::StackQWord(-16)),
            Instruction::Mov(Operand::StackQWord(-8), reg(Reg::R11)),
            Instruction::Imul(reg(Reg::Rax), Operand::StackQWord(-16)),
        ]
    );
}

#[test]
fn insert_frame_without_slots() {
    let mut instructions = vec![Instruction::Mov(reg(Reg::Rax), Operand::Imm(2)), Instruction::Ret];
    insert_frame(&mut instructions, 0);
    assert_eq!(
        instructions,
        vec![
            Instruction::Push(reg(Reg::Rbp)),
            Instruction::Mov(reg(Reg::Rbp), reg(Reg::Rsp)),
            Instruction::Mov(reg(Reg::Rax), Operand::Imm(2)),
            Instruction::Pop(reg(Reg::Rbp)),
            Instruction::Ret,
        ]
    );
}

#[test]
fn insert_frame_rounds_up_to_sixteen() {
    for (size, reserved) in [
        (-8, 16),
        (-16, 16),
        (-24, 32),
        (-32, 32),
        (-40, 48),
        (-2147483632, 2147483632),
        (-2147483640 + 8, 2147483632),
    ] {
        let mut instructions = vec![Instruction::Ret];
        insert_frame(&mut instructions, size);
        assert_eq!(
            instructions,
            vec![
                Instruction::Push(reg(Reg::Rbp)),
                Instruction::Mov(reg(Reg::Rbp), reg(Reg::Rsp)),
                Instruction::Sub(reg(Reg::Rsp), Operand::Imm(reserved)),
                Instruction::Mov(reg(Reg::Rsp), reg(Reg::Rbp)),
                Instruction::Pop(reg(Reg::Rbp)),
                Instruction::Ret,
            ]
        );
    }
}

#[test]
fn insert_frame_around_nothing() {
    let mut instructions = vec![];
    insert_frame(&mut instructions, 0);
    assert_eq!(
        instructions,
        vec![
            Instruction::Push(reg(Reg::Rbp)),
            Instruction::Pop(reg(Reg::Rbp)),
            Instruction::Mov(reg(Reg::Rbp), reg(Reg::Rsp)),
        ]
    );
}

#[test]
fn generate_return_two() {
    let assembly = generate(&program(vec![ir::Instruction::Return(Val::Constant(2))]));
    assert_eq!(assembly.function.name, "main");
    assert_eq!(
        assembly.function.instructions,
        vec![
            Instruction::Push(reg(Reg::Rbp)),
            Instruction::Mov(reg(Reg::Rbp), reg(Reg::Rsp)),
            Instruction::Mov(reg(Reg::Rax), Operand::Imm(2)),
            Instruction::Pop(reg(Reg::Rbp)),
            Instruction::Ret,
        ]
    );
    // Nothing moves the stack pointer.
    for instruction in &assembly.function.instructions {
        assert!(!matches!(
            instruction,
            Instruction::Sub(Operand::Reg(Reg::Rsp), _) | Instruction::Mov(Operand::Reg(Reg::Rsp), _)
        ));
    }
}

#[test]
fn generate_one_slot_reserves_sixteen_bytes() {
    let assembly = generate(&program(vec![
        ir::Instruction::Unary(UnaryOp::Negation, Val::Constant(5), var("temp.0")),
        ir::Instruction::Return(var("temp.0")),
    ]));
    assert_eq!(
        assembly.function.instructions,
        vec![
            Instruction::Push(reg(Reg::Rbp)),
            Instruction::Mov(reg(Reg::Rbp), reg(Reg::Rsp)),
            Instruction::Sub(reg(Reg::Rsp), Operand::Imm(16)),
            Instruction::Mov(Operand::StackQWord(-8), Operand::Imm(5)),
            Instruction::Neg(Operand::StackQWord(-8)),
            Instruction::Mov(reg(Reg::Rax), Operand::StackQWord(-8)),
            Instruction::Mov(reg(Reg::Rsp), reg(Reg::Rbp)),
            Instruction::Pop(reg(Reg::Rbp)),
            Instruction::Ret,
        ]
    );
}

#[test]
fn generate_sum_of_two_variables() {
    let assembly = generate(&program(vec![
        ir::Instruction::Binary(BinaryOp::Add, var("x"), var("y"), var("t")),
        ir::Instruction::Return(var("t")),
    ]));
    assert_eq!(
        assembly.function.instructions,
        vec![
            Instruction::Push(reg(Reg::Rbp)),
            Instruction::Mov(reg(Reg::Rbp), reg(Reg::Rsp)),
            Instruction::Sub(reg(Reg::Rsp), Operand::Imm(32)),
            Instruction::Mov(reg(Reg::R10), Operand::StackQWord(-16)),
            Instruction::Mov(Operand::StackQWord(-8), reg(Reg::R10)),
            Instruction::Mov(reg(Reg::R10), Operand::StackQWord(-24)),
            Instruction::Add(Operand::StackQWord(-8), reg(Reg::R10)),
            Instruction::Mov(reg(Reg::Rax), Operand::StackQWord(-8)),
            Instruction::Mov(reg(Reg::Rsp), reg(Reg::Rbp)),
            Instruction::Pop(reg(Reg::Rbp)),
            Instruction::Ret,
        ]
    );
}

#[test]
fn generate_logical_negation_sets_a_byte_slot() {
    let assembly = generate(&program(vec![
        ir::Instruction::Unary(UnaryOp::Negation, Val::Constant(5), var("a")),
        ir::Instruction::Unary(UnaryOp::LogicalNegation, var("a"), var("b")),
        ir::Instruction::Return(var("b")),
    ]));
    assert_eq!(
        assembly.function.instructions,
        vec![
            Instruction::Push(reg(Reg::Rbp)),
            Instruction::Mov(reg(Reg::Rbp), reg(Reg::Rsp)),
            Instruction::Sub(reg(Reg::Rsp), Operand::Imm(16)),
            Instruction::Mov(Operand::StackQWord(-8), Operand::Imm(5)),
            Instruction::Neg(Operand::StackQWord(-8)),
            Instruction::Cmp(Operand::StackQWord(-8), Operand::Imm(0)),
            Instruction::Mov(Operand::StackQWord(-16), Operand::Imm(0)),
            Instruction::Sete(Operand::StackByte(-16)),
            Instruction::Mov(reg(Reg::Rax), Operand::StackQWord(-16)),
            Instruction::Mov(reg(Reg::Rsp), reg(Reg::Rbp)),
            Instruction::Pop(reg(Reg::Rbp)),
            Instruction::Ret,
        ]
    );
    for instruction in &assembly.function.instructions {
        assert!(!matches!(instruction, Instruction::Sete(Operand::StackQWord(_))));
    }
}

#[test]
fn generate_division_by_an_immediate() {
    let assembly = generate(&program(vec![
        ir::Instruction::Binary(BinaryOp::Divide, Val::Constant(7), Val::Constant(2), var("t")),
        ir::Instruction::Return(var("t")),
    ]));
    assert_eq!(
        assembly.function.instructions,
        vec![
            Instruction::Push(reg(Reg::Rbp)),
            Instruction::Mov(reg(Reg::Rbp), reg(Reg::Rsp)),
            Instruction::Sub(reg(Reg::Rsp), Operand::Imm(16)),
            Instruction::Mov(reg(Reg::Rax), Operand::Imm(7)),
            Instruction::Cqo,
            Instruction::Mov(reg(Reg::R10), Operand::Imm(2)),
            Instruction::Idiv(reg(Reg::R10)),
            Instruction::Mov(Operand::StackQWord(-8), reg(Reg::Rax)),
            Instruction::Mov(reg(Reg::Rax), Operand::StackQWord(-8)),
            Instruction::Mov(reg(Reg::Rsp), reg(Reg::Rbp)),
            Instruction::Pop(reg(Reg::Rbp)),
            Instruction::Ret,
        ]
    );
}

#[test]
fn generated_code_has_no_two_memory_operands() {
    let mut instructions = Vec::new();
    for (i, op) in [
        BinaryOp::Add,
        BinaryOp::Subtract,
        BinaryOp::Multiply,
        BinaryOp::Divide,
        BinaryOp::Remainder,
    ]
    .into_iter()
    .enumerate()
    {
        instructions.push(ir::Instruction::Binary(
            op,
            Val::Var(format!("a{}", i)),
            Val::Var(format!("b{}", i)),
            Val::Var(format!("c{}", i)),
        ));
        instructions.push(ir::Instruction::Unary(
            UnaryOp::LogicalNegation,
            Val::Var(format!("c{}", i)),
            Val::Var(format!("d{}", i)),
        ));
    }
    instructions.push(ir::Instruction::Return(var("d4")));
    let assembly = generate(&program(instructions));
    let in_memory =
        |op: &Operand| matches!(op, Operand::StackQWord(_) | Operand::StackByte(_));
    for instruction in &assembly.function.instructions {
        match instruction {
            Instruction::Mov(d, s)
            | Instruction::Add(d, s)
            | Instruction::Sub(d, s)
            | Instruction::Cmp(d, s) => assert!(!(in_memory(d) && in_memory(s))),
            Instruction::Imul(d, _) => assert!(!in_memory(d)),
            Instruction::Idiv(s) => assert!(!matches!(s, Operand::Imm(_))),
            Instruction::Sete(d) => assert!(matches!(d, Operand::StackByte(_))),
            _ => {}
        }
        for operand in match instruction {
            Instruction::Mov(d, s)
            | Instruction::Add(d, s)
            | Instruction::Sub(d, s)
            | Instruction::Imul(d, s)
            | Instruction::Cmp(d, s) => vec![d, s],
            Instruction::Idiv(o)
            | Instruction::Neg(o)
            | Instruction::Not(o)
            | Instruction::Push(o)
            | Instruction::Pop(o)
            | Instruction::Sete(o) => vec![o],
            Instruction::Ret | Instruction::Cqo => vec![],
        } {
            assert!(!matches!(operand, Operand::Pseudo(_)));
        }
    }
    assert_eq!(assembly.function.instructions.last(), Some(&Instruction::Ret));
}

#[test]
fn try_generate_refuses_what_has_no_instructions() {
    assert!(try_generate(&program(vec![
        ir::Instruction::Copy(var("a"), Val::Constant(1)),
        ir::Instruction::Return(var("a")),
    ]))
    .is_none());
    assert!(try_generate(&program(vec![ir::Instruction::Binary(
        BinaryOp::Equal,
        Val::Constant(1),
        Val::Constant(1),
        var("a")
    )]))
    .is_none());
    assert!(try_generate(&program(vec![ir::Instruction::Unary(
        UnaryOp::LogicalNegation,
        var("a"),
        Val::Constant(1)
    )]))
    .is_none());
}

#[test]
fn try_generate_agrees_with_generate() {
    let instructions = || {
        vec![
            ir::Instruction::Binary(BinaryOp::Multiply, var("x"), Val::Constant(3), var("t")),
            ir::Instruction::Return(var("t")),
        ]
    };
    let checked = try_generate(&program(instructions())).expect("the program is supported");
    let plain = generate(&program(instructions()));
    assert_eq!(checked.function.name, plain.function.name);
    assert_eq!(checked.function.instructions, plain.function.instructions);
}
