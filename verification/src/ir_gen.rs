//! Lowering: the syntax tree to the intermediate representation.
//!
//! Every operator gets a fresh temporary for its result. The logical operators
//! become conditional jumps, so that the right operand is not evaluated where the
//! left one decides.

use vstd::prelude::*;
use vstd::string::*;
use crate::ast;
use crate::ast::Expression;
use crate::ir;
use crate::ir::{instruction_views, Instruction, InstructionView, Val, ValView};
use crate::text::{digits, push_digits};

verus! {

/// The name of the temporary with number `n`.
pub open spec fn temp_name(n: nat) -> Seq<char> {
    "temp."@ + digits(n)
}

/// The name of the label with number `n` and the tag `tag`.
pub open spec fn label_name(tag: Seq<char>, n: nat) -> Seq<char> {
    ".L"@ + tag + "."@ + digits(n)
}

/// The number of the temporary with the given name, if it is the name of one.
pub open spec fn temp_index(name: Seq<char>) -> Option<nat> {
    if exists|n: nat| name == temp_name(n) {
        Some(choose|n: nat| name == temp_name(n))
    } else {
        None
    }
}

/// Temporaries with different numbers have different names.
pub proof fn lemma_temp_names_distinct(a: nat, b: nat)
    requires
        temp_name(a) == temp_name(b),
    ensures
        a == b,
{
    let prefix = "temp."@;
    let first = temp_name(a);
    let second = temp_name(b);
    assert(digits(a) =~= first.subrange(prefix.len() as int, first.len() as int));
    assert(digits(b) =~= second.subrange(prefix.len() as int, second.len() as int));
    crate::text::lemma_digits_injective(a, b);
}

/// The name of a temporary gives back its number.
pub proof fn lemma_temp_index(n: nat)
    ensures
        temp_index(temp_name(n)) == Some(n),
{
    let found = choose|k: nat| temp_name(n) == temp_name(k);
    lemma_temp_names_distinct(n, found);
}

/// The place of the last dot in a text tells its two parts apart: where two
/// texts that end in a dot, each followed by a text without dots, are the same
/// text, they are the same pair of texts.
proof fn lemma_split_at_last_dot(p1: Seq<char>, d1: Seq<char>, p2: Seq<char>, d2: Seq<char>)
    requires
        p1 + d1 == p2 + d2,
        p1.len() > 0 && p1.last() == '.',
        p2.len() > 0 && p2.last() == '.',
        forall|i: int| 0 <= i < d1.len() ==> d1[i] != '.',
        forall|i: int| 0 <= i < d2.len() ==> d2[i] != '.',
    ensures
        p1 == p2,
        d1 == d2,
{
    let whole = p1 + d1;
    assert(whole.len() == p1.len() + d1.len());
    assert(whole.len() == p2.len() + d2.len());
    if p1.len() < p2.len() {
        let k = p2.len() - 1;
        assert((p2 + d2)[k] == p2[k]);
        assert((p1 + d1)[k] == d1[k - p1.len()]);
    }
    if p2.len() < p1.len() {
        let k = p1.len() - 1;
        assert((p1 + d1)[k] == p1[k]);
        assert((p2 + d2)[k] == d2[k - p2.len()]);
    }
    assert(p1 =~= whole.subrange(0, p1.len() as int));
    assert(p2 =~= whole.subrange(0, p2.len() as int));
    assert(d1 =~= whole.subrange(p1.len() as int, whole.len() as int));
    assert(d2 =~= whole.subrange(p2.len() as int, whole.len() as int));
}

/// Labels with different numbers or different tags have different names.
pub proof fn lemma_label_names_distinct(tag1: Seq<char>, a: nat, tag2: Seq<char>, b: nat)
    requires
        label_name(tag1, a) == label_name(tag2, b),
    ensures
        tag1 == tag2,
        a == b,
{
    reveal_strlit(".L");
    reveal_strlit(".");
    let p1 = ".L"@ + tag1 + "."@;
    let p2 = ".L"@ + tag2 + "."@;
    assert forall|i: int| 0 <= i < digits(a).len() implies digits(a)[i] != '.' by {
        crate::text::lemma_digits_are_digits(a, i);
    }
    assert forall|i: int| 0 <= i < digits(b).len() implies digits(b)[i] != '.' by {
        crate::text::lemma_digits_are_digits(b, i);
    }
    lemma_split_at_last_dot(p1, digits(a), p2, digits(b));
    crate::text::lemma_digits_injective(a, b);
    assert(tag1 =~= p1.subrange(2, p1.len() - 1));
    assert(tag2 =~= p2.subrange(2, p2.len() - 1));
}

/// The number of the label with the given name, if it is the name of one.
pub open spec fn label_index(name: Seq<char>) -> Option<nat> {
    if exists|tag: Seq<char>, n: nat| name == label_name(tag, n) {
        let (tag, n) = choose|tag: Seq<char>, n: nat| name == label_name(tag, n);
        Some(n)
    } else {
        None
    }
}

/// The name of a label gives back its number.
pub proof fn lemma_label_index(tag: Seq<char>, n: nat)
    ensures
        label_index(label_name(tag, n)) == Some(n),
{
    let name = label_name(tag, n);
    let (found_tag, found) = choose|t: Seq<char>, k: nat| name == label_name(t, k);
    lemma_label_names_distinct(tag, n, found_tag, found);
}

/// The operation that a prefix operator stands for.
pub open spec fn unary_op(op: ast::UnOp) -> ir::UnaryOp {
    match op {
        ast::UnOp::Negation => ir::UnaryOp::Negation,
        ast::UnOp::BitwiseComplement => ir::UnaryOp::BitwiseComplement,
        ast::UnOp::LogicalNegation => ir::UnaryOp::LogicalNegation,
    }
}

/// The operation that an infix operator stands for. The logical operators stand
/// for none: they are lowered to jumps.
pub open spec fn binary_op(op: ast::BinOp) -> Option<ir::BinaryOp> {
    match op {
        ast::BinOp::Add => Some(ir::BinaryOp::Add),
        ast::BinOp::Subtract => Some(ir::BinaryOp::Subtract),
        ast::BinOp::Multiply => Some(ir::BinaryOp::Multiply),
        ast::BinOp::Divide => Some(ir::BinaryOp::Divide),
        ast::BinOp::Remainder => Some(ir::BinaryOp::Remainder),
        ast::BinOp::BitwiseAnd => Some(ir::BinaryOp::BitwiseAnd),
        ast::BinOp::BitwiseXor => Some(ir::BinaryOp::BitwiseXor),
        ast::BinOp::BitwiseOr => Some(ir::BinaryOp::BitwiseOr),
        ast::BinOp::LeftShift => Some(ir::BinaryOp::LeftShift),
        ast::BinOp::RightShift => Some(ir::BinaryOp::RightShift),
        ast::BinOp::Equal => Some(ir::BinaryOp::Equal),
        ast::BinOp::NotEqual => Some(ir::BinaryOp::NotEqual),
        ast::BinOp::LessThan => Some(ir::BinaryOp::LessThan),
        ast::BinOp::LessThanEqual => Some(ir::BinaryOp::LessThanEqual),
        ast::BinOp::GreaterThan => Some(ir::BinaryOp::GreaterThan),
        ast::BinOp::GreaterThanEqual => Some(ir::BinaryOp::GreaterThanEqual),
        ast::BinOp::LogicalAnd | ast::BinOp::LogicalOr => None,
    }
}

/// The expression `left && right` where `is_and` holds, `left || right` where it
/// does not.
pub open spec fn logical(is_and: bool, left: Expression, right: Expression) -> Expression {
    Expression::BinaryOp(
        if is_and {
            ast::BinOp::LogicalAnd
        } else {
            ast::BinOp::LogicalOr
        },
        Box::new(left),
        Box::new(right),
    )
}

/// What lowering an expression gives: the instructions that compute it, the
/// operand that holds its value after them, and the numbers of the next fresh
/// temporary and the next fresh label.
pub struct Lowered {
    pub code: Seq<InstructionView>,
    pub value: ValView,
    pub temps: nat,
    pub labels: nat,
}

/// The test of an operand of a logical operator: a jump to `decided` where the
/// operand decides the result, which for `&&` is where it is zero and for `||`
/// where it is not.
pub open spec fn logical_test(is_and: bool, operand: ValView, decided: Seq<char>) -> InstructionView {
    if is_and {
        InstructionView::JumpIfZero(operand, decided)
    } else {
        InstructionView::JumpIfNotZero(operand, decided)
    }
}

/// The instructions after the two operands of a logical operator: where the
/// second operand does not decide, the result is `fallthrough`; both jumps to
/// `decided` give the other truth value.
pub open spec fn logical_tail(
    is_and: bool,
    second: ValView,
    dst: ValView,
    decided: Seq<char>,
    end: Seq<char>,
) -> Seq<InstructionView> {
    seq![
        logical_test(is_and, second, decided),
        InstructionView::Copy(dst, ValView::Constant(if is_and { 1i32 } else { 0i32 })),
        InstructionView::Jump(end),
        InstructionView::Label(decided),
        InstructionView::Copy(dst, ValView::Constant(if is_and { 0i32 } else { 1i32 })),
        InstructionView::Label(end),
    ]
}

/// Lowering of `e`, where `temps` and `labels` are the numbers of the next fresh
/// temporary and label.
///
/// A constant is its own operand and needs no instruction. A unary or binary
/// operator evaluates its operands, the left one first, and then puts its result
/// in a fresh temporary. A logical operator takes its temporary and its two
/// labels first; it tests the left operand, and only where that does not decide
/// evaluates and tests the right one; the result is 1 or 0.
pub open spec fn lower(e: Expression, temps: nat, labels: nat) -> Lowered
    decreases e,
{
    match e {
        Expression::Constant(c) => Lowered {
            code: Seq::empty(),
            value: ValView::Constant(c),
            temps,
            labels,
        },
        Expression::UnaryOp((op, inner)) => {
            let operand = lower(*inner, temps, labels);
            let dst = ValView::Var(temp_name(operand.temps));
            Lowered {
                code: operand.code.push(InstructionView::Unary(unary_op(op), operand.value, dst)),
                value: dst,
                temps: operand.temps + 1,
                labels: operand.labels,
            }
        },
        Expression::BinaryOp(op, left, right) => match binary_op(op) {
            Some(operation) => {
                let first = lower(*left, temps, labels);
                let second = lower(*right, first.temps, first.labels);
                let dst = ValView::Var(temp_name(second.temps));
                Lowered {
                    code: (first.code + second.code).push(
                        InstructionView::Binary(operation, first.value, second.value, dst),
                    ),
                    value: dst,
                    temps: second.temps + 1,
                    labels: second.labels,
                }
            },
            None => {
                let is_and = op == ast::BinOp::LogicalAnd;
                let dst = ValView::Var(temp_name(temps));
                let decided = label_name(if is_and { "and_false"@ } else { "or_true"@ }, labels);
                let end = label_name(if is_and { "and_end"@ } else { "or_end"@ }, labels + 1);
                let first = lower(*left, temps + 1, labels + 2);
                let second = lower(*right, first.temps, first.labels);
                Lowered {
                    code: first.code.push(logical_test(is_and, first.value, decided)) + second.code
                        + logical_tail(is_and, second.value, dst, decided, end),
                    value: dst,
                    temps: second.temps,
                    labels: second.labels,
                }
            },
        },
    }
}

impl Expression {
    /// The number of labels that lowering the expression takes: two for each
    /// logical operator.
    pub open spec fn labels(self) -> nat
        decreases self,
    {
        match self {
            Expression::Constant(_) => 0,
            Expression::UnaryOp((_, inner)) => inner.labels(),
            Expression::BinaryOp(op, left, right) => (if binary_op(op) is None {
                2nat
            } else {
                0nat
            }) + left.labels() + right.labels(),
        }
    }
}

/// An expression has fewer operators than nodes, and takes fewer labels than it
/// has nodes.
pub proof fn lemma_size_bounds(e: Expression)
    ensures
        e.operators() < e.size(),
        e.labels() < e.size(),
    decreases e,
{
    match e {
        Expression::Constant(_) => {},
        Expression::UnaryOp((_, inner)) => {
            lemma_size_bounds(*inner);
        },
        Expression::BinaryOp(_, left, right) => {
            lemma_size_bounds(*left);
            lemma_size_bounds(*right);
        },
    }
}

/// Lowering takes one temporary for each operator and two labels for each logical
/// operator, and numbers them from the next fresh number on.
pub proof fn lemma_lower_counts(e: Expression, temps: nat, labels: nat)
    ensures
        lower(e, temps, labels).temps == temps + e.operators(),
        lower(e, temps, labels).labels == labels + e.labels(),
    decreases e,
{
    match e {
        Expression::Constant(_) => {},
        Expression::UnaryOp((_, inner)) => {
            lemma_lower_counts(*inner, temps, labels);
        },
        Expression::BinaryOp(op, left, right) => {
            if binary_op(op) is Some {
                lemma_lower_counts(*left, temps, labels);
                let first = lower(*left, temps, labels);
                lemma_lower_counts(*right, first.temps, first.labels);
            } else {
                lemma_lower_counts(*left, temps + 1, labels + 2);
                let first = lower(*left, temps + 1, labels + 2);
                lemma_lower_counts(*right, first.temps, first.labels);
            }
        },
    }
}

/// Sequences that are put together piece by piece are the pieces put together
/// first.
proof fn lemma_regroup<A>(before: Seq<A>, first: Seq<A>, middle: A, second: Seq<A>, tail: Seq<A>)
    ensures
        (before + first).push(middle) + second + tail == before + (first.push(middle) + second
            + tail),
{
    assert((before + first).push(middle) + second + tail =~= before + (first.push(middle)
        + second + tail));
}

/// The state of lowering one function: the instructions emitted so far, and the
/// numbers of the next fresh temporary and the next fresh label.
pub struct Generator {
    pub instructions: Vec<Instruction>,
    pub temp_counter: usize,
    pub label_counter: usize,
}

impl Generator {
    /// A generator that has emitted nothing and numbers from 0.
    pub fn new() -> (generator: Generator)
        ensures
            generator.instructions@.len() == 0,
            generator.temp_counter == 0,
            generator.label_counter == 0,
    {
        Generator { instructions: Vec::new(), temp_counter: 0, label_counter: 0 }
    }

    /// The values of the instructions emitted so far.
    pub open spec fn code(&self) -> Seq<InstructionView> {
        instruction_views(self.instructions@)
    }

    /// Returns a temporary that was not returned before.
    pub fn make_temporary(&mut self) -> (temporary: Val)
        requires
            old(self).temp_counter < usize::MAX,
        ensures
            temporary@ == ValView::Var(temp_name(old(self).temp_counter as nat)),
            final(self).temp_counter == old(self).temp_counter + 1,
            final(self).label_counter == old(self).label_counter,
            final(self).instructions == old(self).instructions,
    {
        let mut name = String::from_str("temp.");
        push_digits(&mut name, self.temp_counter as u64);
        self.temp_counter = self.temp_counter + 1;
        Val::Var(name)
    }

    /// Returns a label that was not returned before, with `label` in its name.
    pub fn make_label(&mut self, label: &str) -> (name: String)
        requires
            old(self).label_counter < usize::MAX,
        ensures
            name@ == label_name(label@, old(self).label_counter as nat),
            final(self).label_counter == old(self).label_counter + 1,
            final(self).temp_counter == old(self).temp_counter,
            final(self).instructions == old(self).instructions,
    {
        let mut name = String::from_str(".L");
        name.append(label);
        name.append(".");
        push_digits(&mut name, self.label_counter as u64);
        self.label_counter = self.label_counter + 1;
        name
    }

    /// Appends one instruction.
    fn emit(&mut self, instruction: Instruction)
        ensures
            final(self).code() == old(self).code().push(instruction@),
            final(self).temp_counter == old(self).temp_counter,
            final(self).label_counter == old(self).label_counter,
    {
        self.instructions.push(instruction);
        assert(self.code() =~= old(self).code().push(instruction@));
    }

    /// Emits the instructions that compute `expr` and returns the operand that
    /// holds its value after them.
    pub fn emit_expression(&mut self, expr: &Expression) -> (value: Val)
        requires
            old(self).temp_counter + expr.operators() <= usize::MAX,
            old(self).label_counter + expr.labels() <= usize::MAX,
        ensures
            final(self).code() == old(self).code() + lower(
                *expr,
                old(self).temp_counter as nat,
                old(self).label_counter as nat,
            ).code,
            value@ == lower(
                *expr,
                old(self).temp_counter as nat,
                old(self).label_counter as nat,
            ).value,
            final(self).temp_counter == old(self).temp_counter + expr.operators(),
            final(self).label_counter == old(self).label_counter + expr.labels(),
        decreases *expr, 1nat,
    {
        let ghost temps = self.temp_counter as nat;
        let ghost labels = self.label_counter as nat;
        proof {
            lemma_lower_counts(*expr, temps, labels);
        }
        match expr {
            Expression::Constant(c) => {
                assert(self.code() + Seq::<InstructionView>::empty() =~= self.code());
                Val::Constant(*c)
            },
            Expression::UnaryOp((op, inner)) => {
                let src = self.emit_expression(inner);
                let dst = self.make_temporary();
                let operation = match op {
                    ast::UnOp::Negation => ir::UnaryOp::Negation,
                    ast::UnOp::BitwiseComplement => ir::UnaryOp::BitwiseComplement,
                    ast::UnOp::LogicalNegation => ir::UnaryOp::LogicalNegation,
                };
                self.emit(Instruction::Unary(operation, src, dst.clone()));
                proof {
                    let operand = lower(**inner, temps, labels);
                    assert(self.code() =~= old(self).code() + lower(*expr, temps, labels).code);
                }
                dst
            },
            Expression::BinaryOp(op, left, right) => match op {
                ast::BinOp::LogicalAnd => self.emit_logical(true, left, right),
                ast::BinOp::LogicalOr => self.emit_logical(false, left, right),
                _ => {
                    proof {
                        lemma_lower_counts(**left, temps, labels);
                    }
                    let v1 = self.emit_expression(left);
                    let v2 = self.emit_expression(right);
                    let dst = self.make_temporary();
                    let operation = match op {
                        ast::BinOp::Add => ir::BinaryOp::Add,
                        ast::BinOp::Subtract => ir::BinaryOp::Subtract,
                        ast::BinOp::Multiply => ir::BinaryOp::Multiply,
                        ast::BinOp::Divide => ir::BinaryOp::Divide,
                        ast::BinOp::Remainder => ir::BinaryOp::Remainder,
                        ast::BinOp::BitwiseAnd => ir::BinaryOp::BitwiseAnd,
                        ast::BinOp::BitwiseXor => ir::BinaryOp::BitwiseXor,
                        ast::BinOp::BitwiseOr => ir::BinaryOp::BitwiseOr,
                        ast::BinOp::LeftShift => ir::BinaryOp::LeftShift,
                        ast::BinOp::RightShift => ir::BinaryOp::RightShift,
                        ast::BinOp::Equal => ir::BinaryOp::Equal,
                        ast::BinOp::NotEqual => ir::BinaryOp::NotEqual,
                        ast::BinOp::LessThan => ir::BinaryOp::LessThan,
                        ast::BinOp::LessThanEqual => ir::BinaryOp::LessThanEqual,
                        ast::BinOp::GreaterThan => ir::BinaryOp::GreaterThan,
                        _ => ir::BinaryOp::GreaterThanEqual,
                    };
                    self.emit(Instruction::Binary(operation, v1, v2, dst.clone()));
                    proof {
                        assert(self.code() =~= old(self).code() + lower(*expr, temps, labels).code);
                    }
                    dst
                },
            },
        }
    }

    /// Emits the test of one operand of a logical operator.
    fn emit_test(&mut self, is_and: bool, operand: Val, decided: String)
        ensures
            final(self).code() == old(self).code().push(logical_test(is_and, operand@, decided@)),
            final(self).temp_counter == old(self).temp_counter,
            final(self).label_counter == old(self).label_counter,
    {
        if is_and {
            self.emit(Instruction::JumpIfZero(operand, decided));
        } else {
            self.emit(Instruction::JumpIfNotZero(operand, decided));
        }
    }

    /// Emits what follows the two operands of a logical operator.
    fn emit_tail(&mut self, is_and: bool, second: Val, dst: &Val, decided: String, end: String)
        ensures
            final(self).code() == old(self).code() + logical_tail(
                is_and,
                second@,
                dst@,
                decided@,
                end@,
            ),
            final(self).temp_counter == old(self).temp_counter,
            final(self).label_counter == old(self).label_counter,
    {
        self.emit_test(is_and, second, decided.clone());
        self.emit(Instruction::Copy(dst.clone(), Val::Constant(if is_and { 1 } else { 0 })));
        self.emit(Instruction::Jump(end.clone()));
        self.emit(Instruction::Label(decided));
        self.emit(Instruction::Copy(dst.clone(), Val::Constant(if is_and { 0 } else { 1 })));
        self.emit(Instruction::Label(end));
        assert(self.code() =~= old(self).code() + logical_tail(
            is_and,
            second@,
            dst@,
            decided@,
            end@,
        ));
    }

    /// Emits the jumps and copies of a logical operator: `&&` where `is_and` holds,
    /// `||` where it does not.
    fn emit_logical(&mut self, is_and: bool, left: &Expression, right: &Expression) -> (value: Val)
        requires
            old(self).temp_counter + 1 + left.operators() + right.operators() <= usize::MAX,
            old(self).label_counter + 2 + left.labels() + right.labels() <= usize::MAX,
        ensures
            final(self).code() == old(self).code() + lower(
                logical(is_and, *left, *right),
                old(self).temp_counter as nat,
                old(self).label_counter as nat,
            ).code,
            value@ == lower(
                logical(is_and, *left, *right),
                old(self).temp_counter as nat,
                old(self).label_counter as nat,
            ).value,
            final(self).temp_counter == old(self).temp_counter + 1 + left.operators()
                + right.operators(),
            final(self).label_counter == old(self).label_counter + 2 + left.labels()
                + right.labels(),
        decreases logical(is_and, *left, *right), 0nat,
    {
        let ghost temps = self.temp_counter as nat;
        let ghost labels = self.label_counter as nat;
        let ghost first = lower(*left, temps + 1, labels + 2);
        let ghost second = lower(*right, first.temps, first.labels);
        proof {
            lemma_lower_counts(*left, temps + 1, labels + 2);
        }
        let dst = self.make_temporary();
        let decided = self.make_label(if is_and { "and_false" } else { "or_true" });
        let end = self.make_label(if is_and { "and_end" } else { "or_end" });
        assert(self.code() == old(self).code());
        let v1 = self.emit_expression(left);
        self.emit_test(is_and, v1, decided.clone());
        let v2 = self.emit_expression(right);
        self.emit_tail(is_and, v2, &dst, decided, end);
        proof {
            lemma_regroup(
                old(self).code(),
                first.code,
                logical_test(is_and, first.value, decided@),
                second.code,
                logical_tail(is_and, second.value, dst@, decided@, end@),
            );
        }
        dst
    }

    /// Lowers a function: the instructions that compute the returned expression,
    /// and a `Return` of its value at the end.
    pub fn emit_function(self, func: &ast::FunctionDeclaration) -> (function: ir::Function)
        requires
            self.temp_counter + func.body.expression().operators() <= usize::MAX,
            self.label_counter + func.body.expression().labels() <= usize::MAX,
        ensures
            function@ == lower_function(
                self.code(),
                func@,
                self.temp_counter as nat,
                self.label_counter as nat,
            ),
    {
        let mut generator = self;
        match &func.body {
            ast::Statement::Return(expr) => {
                let val = generator.emit_expression(expr);
                generator.emit(Instruction::Return(val));
            },
        }
        ir::Function { name: func.name.clone(), instructions: generator.instructions }
    }
}

/// The function that lowering `function` gives, after the instructions `before`.
pub open spec fn lower_function(
    before: Seq<InstructionView>,
    function: ast::FunctionDeclarationView,
    temps: nat,
    labels: nat,
) -> ir::FunctionView {
    let body = lower(function.body.expression(), temps, labels);
    ir::FunctionView {
        name: function.name,
        instructions: (before + body.code).push(InstructionView::Return(body.value)),
    }
}

/// The program that lowering `program` gives.
pub open spec fn lower_program(program: ast::ProgramView) -> ir::ProgramView {
    ir::ProgramView { function: lower_function(Seq::empty(), program.function, 0, 0) }
}

/// Lowers a program to the intermediate representation.
///
/// The function keeps its name. Its instructions compute the returned expression
/// and end with the one `Return`.
pub fn generate(program: &ast::Program) -> (lowered: ir::Program)
    requires
        program.function.body.expression().operators() <= usize::MAX,
        program.function.body.expression().labels() <= usize::MAX,
    ensures
        lowered@ == lower_program(program@),
        lowered@.function.instructions.len() > 0,
        lowered@.function.instructions.last() is Return,
{
    let generator = Generator::new();
    assert(generator.code() =~= Seq::empty());
    let function = generator.emit_function(&program.function);
    ir::Program { function }
}

} // verus!
