use minic::ast::{BinOp, Expression, FunctionDeclaration, Program, Statement, UnOp};
use minic::ir::{BinaryOp, Instruction, UnaryOp, Val};
use minic::ir_gen::{generate, Generator};
use minic::lexer::lex;
use minic::parser::Parser;

fn lower_source(source: &str) -> Vec<Instruction> {
    let tokens = lex(source).expect("the source should lex");
    let program = Parser::new(tokens).parse_program().expect("the source should parse");
    generate(&program).function.instructions
}

fn lower_expression(source: &str) -> Vec<Instruction> {
    lower_source(&format!("int main() {{ return {}; }}", source))
}

fn var(name: &str) -> Val {
    Val::Var(String::from(name))
}

fn label(name: &str) -> String {
    String::from(name)
}

/// Runs instructions as the intermediate representation means them, and gives what
/// is returned.
fn run(instructions: &[Instruction]) -> i64 {
    let mut variables: std::collections::HashMap<String, i64> = std::collections::HashMap::new();
    let mut pc = 0;
    let mut steps = 0;
    loop {
        steps += 1;
        assert!(steps < 100_000, "the instructions do not end");
        let read = |v: &Val, variables: &std::collections::HashMap<String, i64>| match v {
            Val::Constant(c) => *c as i64,
            Val::Var(name) => *variables.get(name).expect("a variable is read before it is set"),
        };
        let jump = |target: &String| {
            instructions
                .iter()
                .position(|i| matches!(i, Instruction::Label(name) if name == target))
                .expect("a jump has no label")
        };
        match &instructions[pc] {
            Instruction::Return(v) => return read(v, &variables),
            Instruction::Unary(op, src, dst) => {
                let value = read(src, &variables);
                let result = match op {
                    UnaryOp::Negation => value.wrapping_neg(),
                    UnaryOp::BitwiseComplement => !value,
                    UnaryOp::LogicalNegation => (value == 0) as i64,
                };
                match dst {
                    Val::Var(name) => variables.insert(name.clone(), result),
                    Val::Constant(_) => panic!("a constant is no destination"),
                };
            }
            Instruction::Binary(op, src1, src2, dst) => {
                let a = read(src1, &variables);
                let b = read(src2, &variables);
                let result = match op {
                    BinaryOp::Add => a.wrapping_add(b),
                    BinaryOp::Subtract => a.wrapping_sub(b),
                    BinaryOp::Multiply => a.wrapping_mul(b),
                    BinaryOp::Divide => a / b,
                    BinaryOp::Remainder => a % b,
                    BinaryOp::BitwiseAnd => a & b,
                    BinaryOp::BitwiseOr => a | b,
                    BinaryOp::BitwiseXor => a ^ b,
                    BinaryOp::LeftShift => a << b,
                    BinaryOp::RightShift => a >> b,
                    BinaryOp::LessThan => (a < b) as i64,
                    BinaryOp::GreaterThan => (a > b) as i64,
                    BinaryOp::LessThanEqual => (a <= b) as i64,
                    BinaryOp::GreaterThanEqual => (a >= b) as i64,
                    BinaryOp::NotEqual => (a != b) as i64,
                    BinaryOp::Equal => (a == b) as i64,
                };
                match dst {
                    Val::Var(name) => variables.insert(name.clone(), result),
                    Val::Constant(_) => panic!("a constant is no destination"),
                };
            }
            Instruction::Copy(dst, src) => {
                let value = read(src, &variables);
                match dst {
                    Val::Var(name) => variables.insert(name.clone(), value),
                    Val::Constant(_) => panic!("a constant is no destination"),
                };
            }
            Instruction::Jump(target) => {
                pc = jump(target);
                continue;
            }
            Instruction::JumpIfZero(cond, target) => {
                if read(cond, &variables) == 0 {
                    pc = jump(target);
                    continue;
                }
            }
            Instruction::JumpIfNotZero(cond, target) => {
                if read(cond, &variables) != 0 {
                    pc = jump(target);
                    continue;
                }
            }
            Instruction::Label(_) => {}
        }
        pc += 1;
    }
}

#[test]
fn lower_constant_emits_only_the_return() {
    assert_eq!(lower_expression("2"), vec![Instruction::Return(Val::Constant(2))]);
}

#[test]
fn lower_keeps_the_function_name() {
    let program = Program {
        function: FunctionDeclaration {
            name: String::from("start"),
            body: Statement::Return(Expression::Constant(0)),
        },
    };
    assert_eq!(generate(&program).function.name, "start");
}

#[test]
fn lower_multiplication_before_addition() {
    assert_eq!(
        lower_expression("1 + 2 * 3"),
        vec![
            Instruction::Binary(
                BinaryOp::Multiply,
                Val::Constant(2),
                Val::Constant(3),
                var("temp.0"),
            ),
            Instruction::Binary(BinaryOp::Add, Val::Constant(1), var("temp.0"), var("temp.1")),
            Instruction::Return(var("temp.1")),
        ]
    );
}

#[test]
fn lower_left_operand_before_right() {
    assert_eq!(
        lower_expression("(1 - 2) / (3 % 4)"),
        vec![
            Instruction::Binary(
                BinaryOp::Subtract,
                Val::Constant(1),
                Val::Constant(2),
                var("temp.0"),
            ),
            Instruction::Binary(
                BinaryOp::Remainder,
                Val::Constant(3),
                Val::Constant(4),
                var("temp.1"),
            ),
            Instruction::Binary(BinaryOp::Divide, var("temp.0"), var("temp.1"), var("temp.2")),
            Instruction::Return(var("temp.2")),
        ]
    );
}

#[test]
fn lower_unary_operators() {
    assert_eq!(
        lower_expression("-~!5"),
        vec![
            Instruction::Unary(UnaryOp::LogicalNegation, Val::Constant(5), var("temp.0")),
            Instruction::Unary(UnaryOp::BitwiseComplement, var("temp.0"), var("temp.1")),
            Instruction::Unary(UnaryOp::Negation, var("temp.1"), var("temp.2")),
            Instruction::Return(var("temp.2")),
        ]
    );
}

#[test]
fn lower_every_plain_binary_operator() {
    let operators = [
        ("+", BinaryOp::Add),
        ("-", BinaryOp::Subtract),
        ("*", BinaryOp::Multiply),
        ("/", BinaryOp::Divide),
        ("%", BinaryOp::Remainder),
        ("&", BinaryOp::BitwiseAnd),
        ("|", BinaryOp::BitwiseOr),
        ("^", BinaryOp::BitwiseXor),
        ("<<", BinaryOp::LeftShift),
        (">>", BinaryOp::RightShift),
        ("==", BinaryOp::Equal),
        ("!=", BinaryOp::NotEqual),
        ("<", BinaryOp::LessThan),
        ("<=", BinaryOp::LessThanEqual),
        (">", BinaryOp::GreaterThan),
        (">=", BinaryOp::GreaterThanEqual),
    ];
    for (text, op) in operators {
        assert_eq!(
            lower_expression(&format!("6 {} 7", text)),
            vec![
                Instruction::Binary(op, Val::Constant(6), Val::Constant(7), var("temp.0")),
                Instruction::Return(var("temp.0")),
            ]
        );
    }
}

#[test]
fn lower_logical_and() {
    assert_eq!(
        lower_expression("1 && 0"),
        vec![
            Instruction::JumpIfZero(Val::Constant(1), label(".Land_false.0")),
            Instruction::JumpIfZero(Val::Constant(0), label(".Land_false.0")),
            Instruction::Copy(var("temp.0"), Val::Constant(1)),
            Instruction::Jump(label(".Land_end.1")),
            Instruction::Label(label(".Land_false.0")),
            Instruction::Copy(var("temp.0"), Val::Constant(0)),
            Instruction::Label(label(".Land_end.1")),
            Instruction::Return(var("temp.0")),
        ]
    );
}

#[test]
fn lower_logical_or() {
    assert_eq!(
        lower_expression("0 || 5"),
        vec![
            Instruction::JumpIfNotZero(Val::Constant(0), label(".Lor_true.0")),
            Instruction::JumpIfNotZero(Val::Constant(5), label(".Lor_true.0")),
            Instruction::Copy(var("temp.0"), Val::Constant(0)),
            Instruction::Jump(label(".Lor_end.1")),
            Instruction::Label(label(".Lor_true.0")),
            Instruction::Copy(var("temp.0"), Val::Constant(1)),
            Instruction::Label(label(".Lor_end.1")),
            Instruction::Return(var("temp.0")),
        ]
    );
}

#[test]
fn lower_nested_logical_operators_take_fresh_names() {
    assert_eq!(
        lower_expression("(1 + 2) && (3 || 4)"),
        vec![
            Instruction::Binary(BinaryOp::Add, Val::Constant(1), Val::Constant(2), var("temp.1")),
            Instruction::JumpIfZero(var("temp.1"), label(".Land_false.0")),
            Instruction::JumpIfNotZero(Val::Constant(3), label(".Lor_true.2")),
            Instruction::JumpIfNotZero(Val::Constant(4), label(".Lor_true.2")),
            Instruction::Copy(var("temp.2"), Val::Constant(0)),
            Instruction::Jump(label(".Lor_end.3")),
            Instruction::Label(label(".Lor_true.2")),
            Instruction::Copy(var("temp.2"), Val::Constant(1)),
            Instruction::Label(label(".Lor_end.3")),
            Instruction::JumpIfZero(var("temp.2"), label(".Land_false.0")),
            Instruction::Copy(var("temp.0"), Val::Constant(1)),
            Instruction::Jump(label(".Land_end.1")),
            Instruction::Label(label(".Land_false.0")),
            Instruction::Copy(var("temp.0"), Val::Constant(0)),
            Instruction::Label(label(".Land_end.1")),
            Instruction::Return(var("temp.0")),
        ]
    );
}

#[test]
fn logical_and_of_one_and_zero_is_zero() {
    assert_eq!(run(&lower_expression("1 && 0")), 0);
}

#[test]
fn logical_or_of_zero_and_five_is_one() {
    assert_eq!(run(&lower_expression("0 || 5")), 1);
}

#[test]
fn logical_operators_give_zero_or_one() {
    let cases = [
        ("0 && 0", 0),
        ("0 && 7", 0),
        ("7 && 0", 0),
        ("7 && 9", 1),
        ("0 || 0", 0),
        ("0 || 7", 1),
        ("7 || 0", 1),
        ("7 || 9", 1),
        ("2 && 3 && 4", 1),
        ("2 && 0 || 4", 1),
        ("0 || 0 || 0", 0),
        ("(1 && 2) + (0 || 3)", 2),
        ("!(3 && 4)", 0),
        ("-(5 || 0)", -1),
    ];
    for (source, expected) in cases {
        assert_eq!(run(&lower_expression(source)), expected, "{}", source);
    }
}

#[test]
fn logical_operators_do_not_evaluate_a_decided_right_operand() {
    // The division by zero is jumped over.
    assert_eq!(run(&lower_expression("0 && (1 / 0)")), 0);
    assert_eq!(run(&lower_expression("1 || (1 / 0)")), 1);
}

#[test]
fn lowered_arithmetic_evaluates_as_written() {
    let cases = [
        ("1 + 2 * 3", 7),
        ("(1 + 2) * 3", 9),
        ("7 / 2", 3),
        ("-7 / 2", -3),
        ("7 / -2", -3),
        ("7 % 3", 1),
        ("-7 % 3", -1),
        ("7 % -3", 1),
        ("10 - 4 - 3", 3),
        ("2 * 3 % 4", 2),
        ("~0", -1),
        ("!0", 1),
        ("!5", 0),
    ];
    for (source, expected) in cases {
        assert_eq!(run(&lower_expression(source)), expected, "{}", source);
    }
}

#[test]
fn temporaries_and_labels_are_numbered_apart() {
    let mut generator = Generator::new();
    assert_eq!(generator.make_temporary(), var("temp.0"));
    assert_eq!(generator.make_label("and_false"), ".Land_false.0");
    assert_eq!(generator.make_temporary(), var("temp.1"));
    assert_eq!(generator.make_label("x"), ".Lx.1");
    for _ in 2..10 {
        generator.make_temporary();
    }
    assert_eq!(generator.make_temporary(), var("temp.10"));
    assert_eq!(generator.temp_counter, 11);
    assert_eq!(generator.label_counter, 2);
    assert!(generator.instructions.is_empty());
}

#[test]
fn temporaries_are_never_reused() {
    let mut generator = Generator::new();
    let mut seen = std::collections::HashSet::new();
    for _ in 0..1200 {
        match generator.make_temporary() {
            Val::Var(name) => assert!(seen.insert(name)),
            Val::Constant(_) => panic!("a temporary is a variable"),
        }
        assert!(seen.insert(generator.make_label("l")));
    }
}

#[test]
fn emit_expression_appends_to_what_is_there() {
    let mut generator = Generator::new();
    let first = Expression::UnaryOp((UnOp::Negation, Box::new(Expression::Constant(1))));
    let second = Expression::BinaryOp(
        BinOp::Add,
        Box::new(Expression::Constant(2)),
        Box::new(Expression::Constant(3)),
    );
    assert_eq!(generator.emit_expression(&first), var("temp.0"));
    assert_eq!(generator.emit_expression(&second), var("temp.1"));
    assert_eq!(generator.emit_expression(&Expression::Constant(9)), Val::Constant(9));
    assert_eq!(
        generator.instructions,
        vec![
            Instruction::Unary(UnaryOp::Negation, Val::Constant(1), var("temp.0")),
            Instruction::Binary(BinaryOp::Add, Val::Constant(2), Val::Constant(3), var("temp.1")),
        ]
    );
}

#[test]
fn emit_function_ends_with_the_return() {
    let function = FunctionDeclaration {
        name: String::from("f"),
        body: Statement::Return(Expression::UnaryOp((
            UnOp::BitwiseComplement,
            Box::new(Expression::Constant(4)),
        ))),
    };
    let lowered = Generator::new().emit_function(&function);
    assert_eq!(lowered.name, "f");
    assert_eq!(
        lowered.instructions,
        vec![
            Instruction::Unary(UnaryOp::BitwiseComplement, Val::Constant(4), var("temp.0")),
            Instruction::Return(var("temp.0")),
        ]
    );
}
