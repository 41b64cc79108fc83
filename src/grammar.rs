//! The grammar, as spec functions over the input that remains to be read.
//!
//! Each rule takes the remaining input and gives either nothing (the rule does
//! not match) or what it read together with the input that is left after it.
//! Spaces (` `, tab, carriage return, newline) may stand around every token;
//! a rule that reads a token also reads the spaces that follow it.
use crate::ast::{BinaryOperator, ExprModel, ModeModel, NumberWidth, OpcodeModel};
use crate::xid::{is_ascii_digit, xid_continue, xid_start};
use vstd::prelude::*;

verus! {

pub open spec fn is_space(c: char) -> bool {
    c == ' ' || c == '\t' || c == '\r' || c == '\n'
}

/// The input without its leading spaces.
pub open spec fn trim(t: Seq<char>) -> Seq<char>
    decreases t.len(),
{
    if t.len() > 0 && is_space(t[0]) {
        trim(t.drop_first())
    } else {
        t
    }
}

/// The one-character token `c`, with the spaces around it.
pub open spec fn token(t: Seq<char>, c: char) -> Option<Seq<char>> {
    let u = trim(t);
    if u.len() > 0 && u[0] == c {
        Some(trim(u.drop_first()))
    } else {
        None
    }
}

/// A one-letter token, in lower or upper case.
pub open spec fn letter(t: Seq<char>, lower: char, upper: char) -> Option<Seq<char>> {
    match token(t, lower) {
        Some(u) => Some(u),
        None => token(t, upper),
    }
}

pub open spec fn is_hex_digit(c: char) -> bool {
    is_ascii_digit(c) || ('a' <= c && c <= 'f') || ('A' <= c && c <= 'F')
}

/// Whether `c` is a digit of a literal in `base` (10 or 16).
pub open spec fn is_digit_in(c: char, base: nat) -> bool {
    if base == 16 {
        is_hex_digit(c)
    } else {
        is_ascii_digit(c)
    }
}

pub open spec fn digit_value(c: char) -> nat {
    if is_ascii_digit(c) {
        (c as nat - '0' as nat) as nat
    } else if 'a' <= c && c <= 'f' {
        (c as nat - 'a' as nat + 10) as nat
    } else {
        (c as nat - 'A' as nat + 10) as nat
    }
}

/// How many digits in `base` the input starts with.
pub open spec fn digit_count(t: Seq<char>, base: nat) -> nat
    decreases t.len(),
{
    if t.len() > 0 && is_digit_in(t[0], base) {
        1 + digit_count(t.drop_first(), base)
    } else {
        0
    }
}

/// A run of digits is no longer than the input it starts.
pub proof fn lemma_digit_count_bound(t: Seq<char>, b: nat)
    ensures
        digit_count(t, b) <= t.len(),
    decreases t.len(),
{
    if t.len() > 0 {
        lemma_digit_count_bound(t.drop_first(), b);
    }
}

/// The value of a run of digits in `base`, most significant first.
pub open spec fn value_in(d: Seq<char>, base: nat) -> nat
    decreases d.len(),
{
    if d.len() == 0 {
        0
    } else {
        value_in(d.drop_last(), base) * base + digit_value(d.last())
    }
}

/// The width that a hexadecimal literal of `n` digits suggests.
pub open spec fn width_for_length(n: nat) -> NumberWidth {
    if n == 2 {
        NumberWidth::OneByte
    } else if n == 4 {
        NumberWidth::TwoBytes
    } else {
        NumberWidth::Unspecified
    }
}

/// A run of digits in `base` at the start of `u`, with the width it gets, if
/// its value fits in 32 bits.
pub open spec fn literal(u: Seq<char>, base: nat, width: NumberWidth) -> Option<
    (ExprModel, Seq<char>),
> {
    let n = digit_count(u, base);
    let v = value_in(u.take(n as int), base);
    if n > 0 && v <= u32::MAX {
        Some((ExprModel::Number(v as u32, width), trim(u.skip(n as int))))
    } else {
        None
    }
}

/// A decimal literal: it suggests no width.
pub open spec fn decimal(t: Seq<char>) -> Option<(ExprModel, Seq<char>)> {
    literal(trim(t), 10, NumberWidth::Unspecified)
}

/// A hexadecimal literal: `$` and hexadecimal digits.
pub open spec fn hexadecimal(t: Seq<char>) -> Option<(ExprModel, Seq<char>)> {
    match token(t, '$') {
        Some(u) => literal(u, 16, width_for_length(digit_count(u, 16))),
        None => None,
    }
}

pub open spec fn identifier_start(c: char) -> bool {
    c == '!' || c == '_' || xid_start(c)
}

pub open spec fn identifier_part(c: char) -> bool {
    xid_continue(c) || c == '_'
}

/// How many identifier characters the input starts with.
pub open spec fn part_count(t: Seq<char>) -> nat
    decreases t.len(),
{
    if t.len() > 0 && identifier_part(t[0]) {
        1 + part_count(t.drop_first())
    } else {
        0
    }
}

/// A run of identifier characters is no longer than the input it starts.
pub proof fn lemma_part_count_bound(t: Seq<char>)
    ensures
        part_count(t) <= t.len(),
    decreases t.len(),
{
    if t.len() > 0 {
        lemma_part_count_bound(t.drop_first());
    }
}

/// The longest identifier at the very start of the input (no spaces read).
pub open spec fn identifier(t: Seq<char>) -> Option<(Seq<char>, Seq<char>)> {
    if t.len() > 0 && identifier_start(t[0]) {
        let n = 1 + part_count(t.drop_first());
        Some((t.take(n as int), t.skip(n as int)))
    } else {
        None
    }
}

/// `(` expression `)`.
pub open spec fn parenthesized(t: Seq<char>) -> Option<(ExprModel, Seq<char>)>
    decreases t.len(), 0nat,
{
    match token(t, '(') {
        Some(u) => if u.len() < t.len() {
            match expression(u) {
                Some((e, v)) => match token(v, ')') {
                    Some(w) => Some((e, w)),
                    None => None,
                },
                None => None,
            }
        } else {
            None
        },
        None => None,
    }
}

/// An identifier: a call where `(` follows it, else a variable.
///
/// Once `(` follows the name the call must be complete: `f(` with no valid
/// argument list and `)` is no expression at all.
pub open spec fn call_or_variable(t: Seq<char>) -> Option<(ExprModel, Seq<char>)>
    decreases t.len(), 0nat,
{
    match identifier(trim(t)) {
        Some((name, u)) => match token(u, '(') {
            Some(v) => if v.len() < t.len() {
                match arguments(v) {
                    Some((args, w)) => match token(w, ')') {
                        Some(x) => Some((ExprModel::Call(name, args), x)),
                        None => None,
                    },
                    None => None,
                }
            } else {
                None
            },
            None => Some((ExprModel::Named(name), trim(u))),
        },
        None => None,
    }
}

/// The first of: a parenthesized expression, a decimal literal, a
/// hexadecimal literal, a call or a variable.
pub open spec fn primary(t: Seq<char>) -> Option<(ExprModel, Seq<char>)>
    decreases t.len(), 1nat,
{
    if parenthesized(t) is Some {
        parenthesized(t)
    } else if decimal(t) is Some {
        decimal(t)
    } else if hexadecimal(t) is Some {
        hexadecimal(t)
    } else {
        call_or_variable(t)
    }
}

pub open spec fn mul_operator(t: Seq<char>) -> Option<(BinaryOperator, Seq<char>)> {
    match token(t, '*') {
        Some(u) => Some((BinaryOperator::Mul, u)),
        None => match token(t, '/') {
            Some(u) => Some((BinaryOperator::Div, u)),
            None => None,
        },
    }
}

pub open spec fn add_operator(t: Seq<char>) -> Option<(BinaryOperator, Seq<char>)> {
    match token(t, '+') {
        Some(u) => Some((BinaryOperator::Add, u)),
        None => match token(t, '-') {
            Some(u) => Some((BinaryOperator::Sub, u)),
            None => None,
        },
    }
}

/// Folds `* primary` and `/ primary` onto `acc`, left to right, while they
/// match.
pub open spec fn term_rest(t: Seq<char>, acc: ExprModel) -> (ExprModel, Seq<char>)
    decreases t.len(), 0nat,
{
    match mul_operator(t) {
        Some((op, u)) => if u.len() < t.len() {
            match primary(u) {
                Some((e, v)) => if v.len() < t.len() {
                    term_rest(v, ExprModel::Binary(op, Box::new(acc), Box::new(e)))
                } else {
                    (acc, t)
                },
                None => (acc, t),
            }
        } else {
            (acc, t)
        },
        None => (acc, t),
    }
}

/// Primaries joined by `*` and `/`, associating to the left.
pub open spec fn term(t: Seq<char>) -> Option<(ExprModel, Seq<char>)>
    decreases t.len(), 2nat,
{
    match primary(t) {
        Some((e, u)) => if u.len() < t.len() {
            Some(term_rest(u, e))
        } else {
            None
        },
        None => None,
    }
}

/// Folds `+ term` and `- term` onto `acc`, left to right, while they match.
pub open spec fn expression_rest(t: Seq<char>, acc: ExprModel) -> (ExprModel, Seq<char>)
    decreases t.len(), 0nat,
{
    match add_operator(t) {
        Some((op, u)) => if u.len() < t.len() {
            match term(u) {
                Some((e, v)) => if v.len() < t.len() {
                    expression_rest(v, ExprModel::Binary(op, Box::new(acc), Box::new(e)))
                } else {
                    (acc, t)
                },
                None => (acc, t),
            }
        } else {
            (acc, t)
        },
        None => (acc, t),
    }
}

/// Terms joined by `+` and `-`, associating to the left.
pub open spec fn expression(t: Seq<char>) -> Option<(ExprModel, Seq<char>)>
    decreases t.len(), 3nat,
{
    match term(t) {
        Some((e, u)) => if u.len() < t.len() {
            Some(expression_rest(u, e))
        } else {
            None
        },
        None => None,
    }
}

/// Appends `, expression` to `acc` while it matches.
pub open spec fn arguments_rest(t: Seq<char>, acc: Seq<ExprModel>) -> (Seq<ExprModel>, Seq<char>)
    decreases t.len(), 0nat,
{
    match token(t, ',') {
        Some(u) => if u.len() < t.len() {
            match expression(u) {
                Some((e, v)) => if v.len() < t.len() {
                    arguments_rest(v, acc.push(e))
                } else {
                    (acc, t)
                },
                None => (acc, t),
            }
        } else {
            (acc, t)
        },
        None => (acc, t),
    }
}

/// A comma-separated list of expressions, possibly empty.
pub open spec fn arguments(t: Seq<char>) -> Option<(Seq<ExprModel>, Seq<char>)>
    decreases t.len(), 4nat,
{
    match expression(t) {
        Some((e, u)) => if u.len() < t.len() {
            Some(arguments_rest(u, seq![e]))
        } else {
            Some((seq![], t))
        },
        None => Some((seq![], t)),
    }
}

/// `(` expression `)`, the remaining input after `)`.
pub open spec fn paren_operand(t: Seq<char>) -> Option<(ExprModel, Seq<char>)> {
    match token(t, '(') {
        Some(u) => match expression(u) {
            Some((e, v)) => match token(v, ')') {
                Some(w) => Some((e, w)),
                None => None,
            },
            None => None,
        },
        None => None,
    }
}

/// `(` expression `,` and a register letter, the remaining input after the
/// letter.
pub open spec fn paren_indexed(t: Seq<char>, lower: char, upper: char) -> Option<
    (ExprModel, Seq<char>),
> {
    match token(t, '(') {
        Some(u) => match expression(u) {
            Some((e, v)) => match token(v, ',') {
                Some(w) => match letter(w, lower, upper) {
                    Some(x) => Some((e, x)),
                    None => None,
                },
                None => None,
            },
            None => None,
        },
        None => None,
    }
}

/// `[` expression `]`.
pub open spec fn long_indirect(t: Seq<char>) -> Option<(ExprModel, Seq<char>)> {
    match token(t, '[') {
        Some(u) => match expression(u) {
            Some((e, v)) => match token(v, ']') {
                Some(w) => Some((e, w)),
                None => None,
            },
            None => None,
        },
        None => None,
    }
}

/// `, y` or `, Y` after what `r` read.
pub open spec fn then_y(r: Option<(ExprModel, Seq<char>)>) -> Option<(ExprModel, Seq<char>)> {
    match r {
        Some((e, u)) => match token(u, ',') {
            Some(v) => match letter(v, 'y', 'Y') {
                Some(w) => Some((e, w)),
                None => None,
            },
            None => None,
        },
        None => None,
    }
}

/// `)` after what `r` read.
pub open spec fn then_close(r: Option<(ExprModel, Seq<char>)>) -> Option<(ExprModel, Seq<char>)> {
    match r {
        Some((e, u)) => match token(u, ')') {
            Some(v) => Some((e, v)),
            None => None,
        },
        None => None,
    }
}

pub open spec fn is_operator(c: char) -> bool {
    c == '+' || c == '-' || c == '*' || c == '/'
}

/// `(` expression `)` where no arithmetic operator follows.
pub open spec fn indirect(t: Seq<char>) -> Option<(ExprModel, Seq<char>)> {
    match paren_operand(t) {
        Some((e, u)) => if u.len() > 0 && is_operator(u[0]) {
            None
        } else {
            Some((e, u))
        },
        None => None,
    }
}

/// expression `,` expression: the operands of a block move.
pub open spec fn address_pair(t: Seq<char>) -> Option<(ExprModel, ExprModel, Seq<char>)> {
    match expression(t) {
        Some((e, u)) => match token(u, ',') {
            Some(v) => match expression(v) {
                Some((f, w)) => Some((e, f, w)),
                None => None,
            },
            None => None,
        },
        None => None,
    }
}

/// `#` expression.
pub open spec fn immediate(t: Seq<char>) -> Option<(ExprModel, Seq<char>)> {
    match token(t, '#') {
        Some(u) => expression(u),
        None => None,
    }
}

pub open spec fn with_mode(r: Option<(ExprModel, Seq<char>)>, m: ModeModel) -> Option<
    (ModeModel, ExprModel, Seq<char>),
> {
    match r {
        Some((e, u)) => Some((m, e, u)),
        None => None,
    }
}

/// The operand of an instruction: the addressing modes are tried in this
/// order, and the first that matches decides.
pub open spec fn operand(t: Seq<char>) -> Option<(ModeModel, ExprModel, Seq<char>)> {
    if then_y(paren_operand(t)) is Some {
        with_mode(then_y(paren_operand(t)), ModeModel::IndirectY)
    } else if indirect(t) is Some {
        with_mode(indirect(t), ModeModel::Indirect)
    } else if then_close(paren_indexed(t, 'x', 'X')) is Some {
        with_mode(then_close(paren_indexed(t, 'x', 'X')), ModeModel::XIndirect)
    } else if address_pair(t) is Some {
        let (e, f, u) = address_pair(t)->0;
        Some((ModeModel::Move { second: f }, e, u))
    } else if expression(t) is Some {
        with_mode(expression(t), ModeModel::Address)
    } else if immediate(t) is Some {
        with_mode(immediate(t), ModeModel::Immediate)
    } else if then_y(long_indirect(t)) is Some {
        with_mode(then_y(long_indirect(t)), ModeModel::LongIndirectY)
    } else if long_indirect(t) is Some {
        with_mode(long_indirect(t), ModeModel::LongIndirect)
    } else {
        with_mode(then_y(then_close(paren_indexed(t, 's', 'S'))), ModeModel::StackIndirectY)
    }
}

/// The byte width that a size suffix letter gives.
pub open spec fn suffix_width(c: char) -> Option<u32> {
    if c == 'b' || c == 'B' {
        Some(1)
    } else if c == 'w' || c == 'W' {
        Some(2)
    } else if c == 'l' || c == 'L' {
        Some(3)
    } else {
        None
    }
}

/// An optional `.b`, `.w` or `.l` suffix.
pub open spec fn size_suffix(t: Seq<char>) -> (Option<u32>, Seq<char>) {
    match token(t, '.') {
        Some(u) => if u.len() > 0 && suffix_width(u[0]) is Some {
            (suffix_width(u[0]), trim(u.drop_first()))
        } else {
            (None, t)
        },
        None => (None, t),
    }
}

/// An instruction: its name, an optional size suffix, and its operand.
pub open spec fn opcode(t: Seq<char>) -> Option<(OpcodeModel, Seq<char>)> {
    match identifier(trim(t)) {
        Some((name, u)) => {
            let (width, v) = size_suffix(trim(u));
            match operand(v) {
                Some((mode, value, w)) => Some(
                    (OpcodeModel { name: name, width: width, mode: mode, value: value }, w),
                ),
                None => None,
            }
        },
        None => None,
    }
}

/// name `=` expression.
pub open spec fn assignment(t: Seq<char>) -> Option<(Seq<char>, ExprModel, Seq<char>)> {
    match identifier(trim(t)) {
        Some((name, u)) => match token(u, '=') {
            Some(v) => match expression(v) {
                Some((e, w)) => Some((name, e, w)),
                None => None,
            },
            None => None,
        },
        None => None,
    }
}

} // verus!
