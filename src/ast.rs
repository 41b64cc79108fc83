//! Syntactic elements of assembly, and their mathematical models.
use vstd::prelude::*;

verus! {

broadcast use {vstd::std_specs::vec::group_vec_axioms, vstd::seq::group_seq_axioms};

/// A unit that can stand by itself in a program.
#[derive(Debug, PartialEq, Eq)]
pub enum Statement {
    /// Label declaration.
    Label(Label),
    /// Processor operation.
    Opcode(Opcode),
    /// Group of if blocks, possibly with else if conditions.
    If(Vec<Condition>),
    /// Assignment of an `Expression` to a `VariableName`.
    Assignment(VariableName, Expression),
}

/// A unique name of an identifier in a program.
///
/// Most of the time a `Label` is used when a reference to a value is needed;
/// variable names serve where a relative label reference is not acceptable,
/// in particular in assignments.
#[derive(Clone, Debug, PartialEq, Eq)]
pub struct VariableName(pub String);

/// A reference to a location in assembly.
///
/// It is named or relative. A relative location is a signed depth: negative
/// numbers are backward references, positive numbers forward references.
#[derive(Clone, Debug, PartialEq, Eq)]
pub enum Label {
    Named(VariableName),
    Relative(i32),
}

/// A processor instruction with its operand.
#[derive(Debug, PartialEq, Eq)]
pub struct Opcode {
    pub name: String,
    /// Explicit byte width given by a `.b`, `.w` or `.l` suffix.
    pub width: Option<u32>,
    pub mode: OpcodeMode,
    pub value: Expression,
}

/// The operand syntax of an instruction.
#[derive(Debug, PartialEq, Eq)]
pub enum OpcodeMode {
    /// No argument.
    Implied,
    /// `#$`
    Immediate,
    /// `$`
    Address,
    /// `($)`
    Indirect,
    /// `($,x)`
    XIndirect,
    /// `($),y`
    IndirectY,
    /// `($,s),y`
    StackIndirectY,
    /// `[$]`
    LongIndirect,
    /// `[$],y`
    LongIndirectY,
    /// `$,$`
    Move { second: Expression },
    /// `A`
    Accumulator,
}

/// A single "if" block with its predicate and statements.
#[derive(Debug, PartialEq, Eq)]
pub struct Condition {
    pub predicate: Option<Expression>,
    pub statements: Vec<Statement>,
}

/// An operator that takes two arguments.
#[derive(Copy, Clone, Debug, PartialEq, Eq)]
pub enum BinaryOperator {
    /// Addition (`+`).
    Add,
    /// Subtraction (`-`).
    Sub,
    /// Multiplication (`*`).
    Mul,
    /// Division (`/`).
    Div,
    /// Shift left (`<<`).
    Shl,
    /// Shift right (`>>`).
    Shr,
    /// Bitwise xor (`^`).
    Xor,
    /// Bitwise and (`&`).
    And,
    /// Bitwise or (`|`).
    Or,
}

/// A numeric literal.
#[derive(Copy, Clone, Debug, PartialEq, Eq)]
pub struct Number {
    pub value: u32,
    pub width: NumberWidth,
}

/// The byte width suggested by a numeric literal.
///
/// 65c816 has immediate instructions that share one opcode and differ in
/// operand size depending on CPU mode. Hexadecimal literals of exactly one
/// or two bytes say which size is meant:
///
/// ```asm
/// LDA #$10   ; one byte literal,  A9 10
/// LDA #$1000 ; two bytes literal, A9 00 10
/// ```
#[derive(Copy, Clone, Debug, PartialEq, Eq)]
pub enum NumberWidth {
    Unspecified,
    OneByte,
    TwoBytes,
}

/// An expression tree: each node owns its operands.
#[derive(Debug, PartialEq, Eq)]
pub enum Expression {
    Number(Number),
    Variable(Label),
    Binary(BinaryOperator, Box<Expression>, Box<Expression>),
    Call(VariableName, Vec<Expression>),
}

/// The mathematical model of an `Expression`.
pub enum ExprModel {
    Number(u32, NumberWidth),
    Named(Seq<char>),
    Relative(i32),
    Binary(BinaryOperator, Box<ExprModel>, Box<ExprModel>),
    Call(Seq<char>, Seq<ExprModel>),
}

/// The mathematical model of an `OpcodeMode`.
pub enum ModeModel {
    Implied,
    Immediate,
    Address,
    Indirect,
    XIndirect,
    IndirectY,
    StackIndirectY,
    LongIndirect,
    LongIndirectY,
    Move { second: ExprModel },
    Accumulator,
}

/// The mathematical model of an `Opcode`.
pub struct OpcodeModel {
    pub name: Seq<char>,
    pub width: Option<u32>,
    pub mode: ModeModel,
    pub value: ExprModel,
}

impl Expression {
    pub open spec fn view(&self) -> ExprModel
        decreases self,
    {
        match self {
            Expression::Number(n) => ExprModel::Number(n.value, n.width),
            Expression::Variable(Label::Named(name)) => ExprModel::Named(name.0@),
            Expression::Variable(Label::Relative(depth)) => ExprModel::Relative(*depth),
            Expression::Binary(op, left, right) => ExprModel::Binary(
                *op,
                Box::new(left.view()),
                Box::new(right.view()),
            ),
            Expression::Call(name, args) => ExprModel::Call(
                name.0@,
                Seq::new(
                    args@.len(),
                    |i: int|
                        if 0 <= i < args@.len() {
                            args[i].view()
                        } else {
                            ExprModel::Relative(0)
                        },
                ),
            ),
        }
    }
}

impl Clone for Expression {
    /// A deep copy, with the same model as `self`.
    fn clone(&self) -> (r: Expression)
        ensures
            r@ == self@,
    {
        copy_expression(self)
    }
}

/// A deep copy of an expression tree.
#[verifier::loop_isolation(false)]
fn copy_expression(e: &Expression) -> (r: Expression)
    ensures
        r@ == e@,
    decreases e,
{
    match e {
        Expression::Number(number) => Expression::Number(*number),
        Expression::Variable(Label::Named(name)) => Expression::Variable(
            Label::Named(VariableName(name.0.clone())),
        ),
        Expression::Variable(Label::Relative(depth)) => Expression::Variable(
            Label::Relative(*depth),
        ),
        Expression::Binary(op, left, right) => {
            let l = copy_expression(left);
            let r = copy_expression(right);
            Expression::Binary(*op, Box::new(l), Box::new(r))
        },
        Expression::Call(name, args) => {
            let mut copies: Vec<Expression> = Vec::new();
            let mut i: usize = 0;
            while i < args.len()
                invariant
                    i <= args@.len(),
                    copies@.len() == i,
                    forall|j: int| 0 <= j < i ==> copies@[j]@ == args@[j]@,
                decreases args@.len() - i,
            {
                proof {
                    assert(decreases_to!(*e => *args));
                    assert(decreases_to!(*args => args@));
                    assert(decreases_to!(args@ => args@[i as int]));
                    assert(decreases_to!(*e => args@[i as int]));
                }
                let c = copy_expression(&args[i]);
                copies.push(c);
                i += 1;
            }
            let copied_name = name.0.clone();
            assert(copied_name@ == name.0@);
            let r = Expression::Call(VariableName(copied_name), copies);
            assert(r@->Call_1 =~= e@->Call_1);
            r
        },
    }
}

/// The models of a sequence of expressions.
pub open spec fn exprs_view(v: Seq<Expression>) -> Seq<ExprModel> {
    Seq::new(v.len(), |i: int| v[i].view())
}

/// The model of a call is its name and the models of its arguments.
pub proof fn lemma_call_view(name: VariableName, args: Vec<Expression>)
    ensures
        Expression::Call(name, args)@ == ExprModel::Call(name.0@, exprs_view(args@)),
{
    let e = Expression::Call(name, args);
    assert(e@->Call_1 =~= exprs_view(args@));
}

impl OpcodeMode {
    pub open spec fn view(&self) -> ModeModel {
        match self {
            OpcodeMode::Implied => ModeModel::Implied,
            OpcodeMode::Immediate => ModeModel::Immediate,
            OpcodeMode::Address => ModeModel::Address,
            OpcodeMode::Indirect => ModeModel::Indirect,
            OpcodeMode::XIndirect => ModeModel::XIndirect,
            OpcodeMode::IndirectY => ModeModel::IndirectY,
            OpcodeMode::StackIndirectY => ModeModel::StackIndirectY,
            OpcodeMode::LongIndirect => ModeModel::LongIndirect,
            OpcodeMode::LongIndirectY => ModeModel::LongIndirectY,
            OpcodeMode::Move { second } => ModeModel::Move { second: second.view() },
            OpcodeMode::Accumulator => ModeModel::Accumulator,
        }
    }
}

impl Opcode {
    pub open spec fn view(&self) -> OpcodeModel {
        OpcodeModel {
            name: self.name@,
            width: self.width,
            mode: self.mode.view(),
            value: self.value.view(),
        }
    }
}

} // verus!
