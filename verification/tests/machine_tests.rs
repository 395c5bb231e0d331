use std::collections::HashMap;

use minic::codegen::{generate, Instruction, Operand, Reg};
use minic::ir_gen;
use minic::lexer::lex;
use minic::parser::Parser;

/// A processor that knows the instructions of the generated code.
struct Processor {
    regs: HashMap<Reg64, i64>,
    memory: HashMap<i64, i64>,
    zero: bool,
}

#[derive(Clone, Copy, PartialEq, Eq, Hash, Debug)]
enum Reg64 {
    Rax,
    Rcx,
    Rdx,
    R10,
    R11,
    Rsp,
    Rbp,
}

fn full(reg: &Reg) -> Reg64 {
    match reg {
        Reg::Rax | Reg::Al => Reg64::Rax,
        Reg::Rcx | Reg::Cl => Reg64::Rcx,
        Reg::Rdx | Reg::Dl => Reg64::Rdx,
        Reg::R10 | Reg::R10b => Reg64::R10,
        Reg::R11 | Reg::R11b => Reg64::R11,
        Reg::Rsp | Reg::Spl => Reg64::Rsp,
        Reg::Rbp | Reg::Bpl => Reg64::Rbp,
    }
}

fn is_byte(reg: &Reg) -> bool {
    matches!(reg, Reg::Al | Reg::Cl | Reg::Dl | Reg::R10b | Reg::R11b | Reg::Spl | Reg::Bpl)
}

const STACK_TOP: i64 = 0x7fff_0000;
const RETURN_ADDRESS: i64 = 0x40_1000;
const SAVED_RBP: i64 = 0x7fff_8000;

impl Processor {
    fn at_call() -> Processor {
        let mut processor =
            Processor { regs: HashMap::new(), memory: HashMap::new(), zero: false };
        // Registers hold what the caller left in them.
        processor.regs.insert(Reg64::Rax, 0x1111);
        processor.regs.insert(Reg64::Rcx, 0x2222);
        processor.regs.insert(Reg64::Rdx, 0x3333);
        processor.regs.insert(Reg64::R10, 0x4444);
        processor.regs.insert(Reg64::R11, 0x5555);
        processor.regs.insert(Reg64::Rbp, SAVED_RBP);
        processor.regs.insert(Reg64::Rsp, STACK_TOP);
        processor.memory.insert(STACK_TOP, RETURN_ADDRESS);
        processor
    }

    fn reg(&self, reg: Reg64) -> i64 {
        self.regs[&reg]
    }

    fn load(&self, address: i64) -> i64 {
        // Memory that was never written holds anything: here, a pattern.
        *self.memory.get(&address).unwrap_or(&0x5a5a_5a5a_5a5a_5a5a)
    }

    fn read(&self, operand: &Operand) -> i64 {
        match operand {
            Operand::Imm(value) => *value as i64,
            Operand::Reg(reg) => {
                assert!(!is_byte(reg), "a byte register is read as eight bytes");
                self.reg(full(reg))
            }
            Operand::StackQWord(offset) => self.load(self.reg(Reg64::Rbp) + *offset as i64),
            Operand::StackByte(_) => panic!("a byte slot is read as eight bytes"),
            Operand::Pseudo(name) => panic!("the name {} has no location", name),
        }
    }

    fn write(&mut self, operand: &Operand, value: i64) {
        match operand {
            Operand::Reg(reg) => {
                assert!(!is_byte(reg), "a byte register is written as eight bytes");
                self.regs.insert(full(reg), value);
            }
            Operand::StackQWord(offset) => {
                let address = self.reg(Reg64::Rbp) + *offset as i64;
                assert!(address < STACK_TOP, "the code writes into the frame of its caller");
                assert!(address >= self.reg(Reg64::Rsp), "the code writes below the stack pointer");
                self.memory.insert(address, value);
            }
            other => panic!("{:?} is no destination of eight bytes", other),
        }
    }

    fn set_byte(&mut self, operand: &Operand, byte: u8) {
        let replace = |value: i64| (value & !0xff) | byte as i64;
        match operand {
            Operand::Reg(reg) => {
                assert!(is_byte(reg), "Sete needs a byte register");
                let value = self.reg(full(reg));
                self.regs.insert(full(reg), replace(value));
            }
            Operand::StackByte(offset) => {
                let address = self.reg(Reg64::Rbp) + *offset as i64;
                let value = self.load(address);
                self.memory.insert(address, replace(value));
            }
            other => panic!("{:?} is no byte", other),
        }
    }

    fn in_memory(operand: &Operand) -> bool {
        matches!(operand, Operand::StackQWord(_) | Operand::StackByte(_))
    }

    /// Runs the instructions up to the return, and gives `rax`, or `None` where a
    /// division traps.
    fn run(&mut self, instructions: &[Instruction]) -> Option<i64> {
        for instruction in instructions {
            match instruction {
                Instruction::Mov(dst, src) => {
                    assert!(!(Self::in_memory(dst) && Self::in_memory(src)));
                    let value = self.read(src);
                    self.write(dst, value);
                }
                Instruction::Add(dst, src) => {
                    assert!(!(Self::in_memory(dst) && Self::in_memory(src)));
                    let value = self.read(dst).wrapping_add(self.read(src));
                    self.write(dst, value);
                }
                Instruction::Sub(dst, src) => {
                    assert!(!(Self::in_memory(dst) && Self::in_memory(src)));
                    let value = self.read(dst).wrapping_sub(self.read(src));
                    self.write(dst, value);
                }
                Instruction::Imul(dst, src) => {
                    assert!(matches!(dst, Operand::Reg(_)));
                    let value = self.read(dst).wrapping_mul(self.read(src));
                    self.write(dst, value);
                }
                Instruction::Cmp(left, right) => {
                    assert!(!(Self::in_memory(left) && Self::in_memory(right)));
                    self.zero = self.read(left) == self.read(right);
                }
                Instruction::Sete(dst) => self.set_byte(dst, self.zero as u8),
                Instruction::Neg(dst) => {
                    let value = self.read(dst).wrapping_neg();
                    self.write(dst, value);
                }
                Instruction::Not(dst) => {
                    let value = !self.read(dst);
                    self.write(dst, value);
                }
                Instruction::Cqo => {
                    let sign = if self.reg(Reg64::Rax) < 0 { -1 } else { 0 };
                    self.regs.insert(Reg64::Rdx, sign);
                }
                Instruction::Idiv(src) => {
                    assert!(!matches!(src, Operand::Imm(_)));
                    let divisor = self.read(src) as i128;
                    let dividend = ((self.reg(Reg64::Rdx) as i128) << 64)
                        | (self.reg(Reg64::Rax) as u64 as i128);
                    if divisor == 0 {
                        return None;
                    }
                    let quotient = dividend / divisor;
                    if quotient < i64::MIN as i128 || quotient > i64::MAX as i128 {
                        return None;
                    }
                    self.regs.insert(Reg64::Rax, quotient as i64);
                    self.regs.insert(Reg64::Rdx, (dividend % divisor) as i64);
                }
                Instruction::Push(src) => {
                    let value = self.read(src);
                    let top = self.reg(Reg64::Rsp) - 8;
                    self.regs.insert(Reg64::Rsp, top);
                    self.memory.insert(top, value);
                }
                Instruction::Pop(dst) => {
                    let top = self.reg(Reg64::Rsp);
                    let value = self.load(top);
                    self.regs.insert(Reg64::Rsp, top + 8);
                    self.write(dst, value);
                }
                Instruction::Ret => {
                    let top = self.reg(Reg64::Rsp);
                    assert_eq!(self.load(top), RETURN_ADDRESS, "the return address is lost");
                    self.regs.insert(Reg64::Rsp, top + 8);
                    return Some(self.reg(Reg64::Rax));
                }
            }
        }
        panic!("the instructions end without a return");
    }
}

fn instructions_of(expression: &str) -> Vec<Instruction> {
    let source = format!("int main() {{ return {}; }}", expression);
    let tokens = lex(&source).expect("the source should lex");
    let program = Parser::new(tokens).parse_program().expect("the source should parse");
    generate(&ir_gen::generate(&program)).function.instructions
}

fn run(expression: &str) -> Option<i64> {
    let instructions = instructions_of(expression);
    let mut processor = Processor::at_call();
    let value = processor.run(&instructions);
    if value.is_some() {
        assert_eq!(processor.reg(Reg64::Rsp), STACK_TOP + 8, "{}", expression);
        assert_eq!(processor.reg(Reg64::Rbp), SAVED_RBP, "{}", expression);
        assert_eq!(processor.load(STACK_TOP), RETURN_ADDRESS, "{}", expression);
    }
    value
}

#[test]
fn generated_code_returns_the_literal() {
    assert_eq!(run("2"), Some(2));
    assert_eq!(run("0"), Some(0));
    assert_eq!(run("2147483647"), Some(2147483647));
}

#[test]
fn generated_code_computes_sums_and_products() {
    assert_eq!(run("1 + 2"), Some(3));
    assert_eq!(run("1 + 2 * 3"), Some(7));
    assert_eq!(run("(1 + 2) * 3"), Some(9));
    assert_eq!(run("10 - 4 - 3"), Some(3));
    assert_eq!(run("10 - (4 - 3)"), Some(9));
    assert_eq!(run("2 * 3 * 4 - 5 * 6"), Some(-6));
    assert_eq!(run("1 - 2"), Some(-1));
}

#[test]
fn generated_code_divides_towards_zero() {
    assert_eq!(run("7 / 2"), Some(3));
    assert_eq!(run("-7 / 2"), Some(-3));
    assert_eq!(run("7 / -2"), Some(-3));
    assert_eq!(run("-7 / -2"), Some(3));
    assert_eq!(run("(0 - 7) / 2"), Some(-3));
    assert_eq!(run("6 / 3"), Some(2));
    assert_eq!(run("0 / 5"), Some(0));
    assert_eq!(run("1 / 2"), Some(0));
}

#[test]
fn generated_code_takes_remainders_of_the_sign_of_the_dividend() {
    assert_eq!(run("7 % 3"), Some(1));
    assert_eq!(run("-7 % 3"), Some(-1));
    assert_eq!(run("7 % -3"), Some(1));
    assert_eq!(run("-7 % -3"), Some(-1));
    assert_eq!(run("(0 - 7) % 3"), Some(-1));
    assert_eq!(run("6 % 3"), Some(0));
    assert_eq!(run("2 % 5"), Some(2));
}

#[test]
fn generated_code_traps_on_division_by_zero() {
    assert_eq!(run("1 / 0"), None);
    assert_eq!(run("1 % 0"), None);
    assert_eq!(run("1 + 2 / (3 - 3)"), None);
}

#[test]
fn generated_code_computes_in_sixty_four_bits() {
    assert_eq!(run("2147483647 + 1"), Some(2147483648));
    assert_eq!(run("2147483647 * 2147483647"), Some(4611686014132420609));
    assert_eq!(
        run("2147483647 * 2147483647 * 2 + 2147483647 * 4 + 1"),
        Some(i64::MAX)
    );
    assert_eq!(
        run("2147483647 * 2147483647 * 2 + 2147483647 * 4 + 2"),
        Some(i64::MIN)
    );
    assert_eq!(
        run("(0 - 2147483647 * 2147483647 * 2 - 2147483647 * 4 - 2) / (0 - 1)"),
        None
    );
    assert_eq!(
        run("(0 - 2147483647 * 2147483647 * 2 - 2147483647 * 4 - 2) % (0 - 1)"),
        None
    );
}

#[test]
fn generated_code_applies_prefix_operators() {
    assert_eq!(run("-5"), Some(-5));
    assert_eq!(run("- -5"), Some(5));
    assert_eq!(run("~0"), Some(-1));
    assert_eq!(run("~5"), Some(-6));
    assert_eq!(run("~-1"), Some(0));
    assert_eq!(run("!0"), Some(1));
    assert_eq!(run("!5"), Some(0));
    assert_eq!(run("!-5"), Some(0));
    assert_eq!(run("!(3 - 3)"), Some(1));
    assert_eq!(run("!(3 - 2)"), Some(0));
    assert_eq!(run("!!7"), Some(1));
    assert_eq!(run("-(!(1 - 1)) + ~(2 * 3)"), Some(-8));
}

/// The value of an expression as the language defines it, in 64 bits.
fn value(expression: &Tree) -> Option<i64> {
    match expression {
        Tree::Literal(value) => Some(*value as i64),
        Tree::Binary(op, left, right) => {
            let a = value(left)?;
            let b = value(right)?;
            match op {
                '+' => Some(a.wrapping_add(b)),
                '-' => Some(a.wrapping_sub(b)),
                '*' => Some(a.wrapping_mul(b)),
                '/' => a.checked_div(b),
                _ => a.checked_rem(b),
            }
        }
    }
}

enum Tree {
    Literal(i32),
    Binary(char, Box<Tree>, Box<Tree>),
}

fn text(expression: &Tree) -> String {
    match expression {
        Tree::Literal(value) => format!("{}", value),
        Tree::Binary(op, left, right) => format!("({} {} {})", text(left), op, text(right)),
    }
}

/// A small generator of numbers that needs no seed from outside.
struct Numbers(u64);

impl Numbers {
    fn next(&mut self) -> u64 {
        self.0 = self.0.wrapping_mul(6364136223846793005).wrapping_add(1442695040888963407);
        self.0 >> 33
    }

    fn tree(&mut self, depth: u32) -> Tree {
        if depth == 0 || self.next() % 4 == 0 {
            let literal = match self.next() % 6 {
                0 => 0,
                1 => 1,
                2 => 2147483647,
                3 => (self.next() % 10) as i32,
                _ => (self.next() % 2147483648) as i32,
            };
            Tree::Literal(literal)
        } else {
            let op = ['+', '-', '*', '/', '%'][(self.next() % 5) as usize];
            Tree::Binary(op, Box::new(self.tree(depth - 1)), Box::new(self.tree(depth - 1)))
        }
    }
}

#[test]
fn generated_code_computes_the_value_of_arithmetic() {
    let mut numbers = Numbers(2024);
    let mut with_value = 0;
    for _ in 0..400 {
        let tree = numbers.tree(5);
        let expected = value(&tree);
        assert_eq!(run(&text(&tree)), expected, "{}", text(&tree));
        if expected.is_some() {
            with_value += 1;
        }
    }
    assert!(with_value > 100);
}

#[test]
fn generated_code_keeps_to_its_frame() {
    // The processor refuses a write outside the reserved frame.
    assert_eq!(run("1 + 2 + 3 + 4 + 5 + 6 + 7 + 8 + 9"), Some(45));
    assert_eq!(run("((1 * 2) + (3 * 4)) * ((5 - 6) - (7 / 8))"), Some(-14));
}
