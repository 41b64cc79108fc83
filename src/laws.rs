//! Properties of the grammar, proved over its spec functions.
use crate::ast::{ExprModel, NumberWidth};
use crate::grammar::{
    add_operator, arguments, arguments_rest, call_or_variable, decimal,
    digit_count, expression, expression_rest, hexadecimal, identifier, 
    is_space, lemma_digit_count_bound, lemma_part_count_bound, letter, literal, long_indirect,
    mul_operator, opcode, operand, paren_indexed, paren_operand, parenthesized, primary,
    size_suffix, term, term_rest, then_close, then_y, token, trim, value_in, width_for_length,
};
use crate::xid::is_ascii_digit;
use vstd::prelude::*;

verus! {

broadcast use vstd::seq::group_seq_axioms;

proof fn lemma_all_digits_count(d: Seq<char>)
    requires
        forall|i: int| 0 <= i < d.len() ==> is_ascii_digit(#[trigger] d[i]),
    ensures
        digit_count(d, 10) == d.len(),
    decreases d.len(),
{
    if d.len() > 0 {
        let rest = d.drop_first();
        assert forall|i: int| 0 <= i < rest.len() implies is_ascii_digit(#[trigger] rest[i]) by {
            assert(rest[i] == d[i + 1]);
        }
        lemma_all_digits_count(rest);
    }
}

/// A non-empty run of decimal digits, as a whole input, is an expression
/// exactly when its value fits in 32 bits: then it is that number, with no
/// suggested width, and nothing is left.
pub proof fn lemma_decimal_literal(d: Seq<char>)
    requires
        d.len() > 0,
        forall|i: int| 0 <= i < d.len() ==> is_ascii_digit(#[trigger] d[i]),
    ensures
        value_in(d, 10) <= u32::MAX ==> decimal(d) == Some(
            (ExprModel::Number(value_in(d, 10) as u32, NumberWidth::Unspecified), Seq::<char>::empty()),
        ),
        value_in(d, 10) <= u32::MAX ==> expression(d) == Some(
            (ExprModel::Number(value_in(d, 10) as u32, NumberWidth::Unspecified), Seq::<char>::empty()),
        ),
        value_in(d, 10) > u32::MAX ==> decimal(d) is None,
        value_in(d, 10) > u32::MAX ==> expression(d) is None,
{
    assert(is_ascii_digit(d[0]));
    assert(trim(d) == d);
    lemma_all_digits_count(d);
    assert(d.take(d.len() as int) =~= d);
    let empty = Seq::<char>::empty();
    assert(d.skip(d.len() as int) =~= empty);
    assert(trim(empty) == empty);
    assert(token(d, '(') is None);
    assert(parenthesized(d) is None);
    assert(token(d, '$') is None);
    assert(hexadecimal(d) is None);
    assert(call_or_variable(d) is None);
    if value_in(d, 10) <= u32::MAX {
        let e = ExprModel::Number(value_in(d, 10) as u32, NumberWidth::Unspecified);
        assert(primary(d) == Some((e, empty)));
        assert(term_rest(empty, e) == (e, empty));
        assert(term(d) == Some((e, empty)));
        assert(expression_rest(empty, e) == (e, empty));
    } else {
        assert(primary(d) is None);
        assert(term(d) is None);
    }
}

/// `r` is what is left of `t` once some characters at its start are read.
pub open spec fn is_suffix(r: Seq<char>, t: Seq<char>) -> bool {
    r.len() <= t.len() && r == t.skip(t.len() - r.len())
}

/// Whatever `r` read, what it left is what is left of `t`.
pub open spec fn leaves_suffix<A>(r: Option<(A, Seq<char>)>, t: Seq<char>) -> bool {
    match r {
        Some((_, u)) => is_suffix(u, t),
        None => true,
    }
}

proof fn lemma_suffix_refl(t: Seq<char>)
    ensures
        is_suffix(t, t),
{
    assert(t.skip(0) =~= t);
}

proof fn lemma_suffix_trans(a: Seq<char>, b: Seq<char>, c: Seq<char>)
    requires
        is_suffix(a, b),
        is_suffix(b, c),
    ensures
        is_suffix(a, c),
{
    assert(c.skip(c.len() - b.len()).skip(b.len() - a.len()) =~= c.skip(c.len() - a.len()));
}

proof fn lemma_skip_suffix(t: Seq<char>, n: int)
    requires
        0 <= n <= t.len(),
    ensures
        is_suffix(t.skip(n), t),
{
    assert(t.skip(t.len() - (t.len() - n)) =~= t.skip(n));
}

proof fn lemma_trim_suffix(t: Seq<char>)
    ensures
        is_suffix(trim(t), t),
    decreases t.len(),
{
    if t.len() > 0 && is_space(t[0]) {
        lemma_trim_suffix(t.drop_first());
        assert(t.drop_first() =~= t.skip(1));
        lemma_skip_suffix(t, 1);
        lemma_suffix_trans(trim(t.drop_first()), t.drop_first(), t);
    } else {
        lemma_suffix_refl(t);
    }
}

proof fn lemma_token_suffix(t: Seq<char>, c: char)
    ensures
        match token(t, c) {
            Some(u) => is_suffix(u, t) && u.len() < t.len(),
            None => true,
        },
{
    lemma_trim_suffix(t);
    let u = trim(t);
    if u.len() > 0 && u[0] == c {
        assert(u.drop_first() =~= u.skip(1));
        lemma_skip_suffix(u, 1);
        lemma_trim_suffix(u.drop_first());
        lemma_suffix_trans(trim(u.drop_first()), u.drop_first(), u);
        lemma_suffix_trans(trim(u.drop_first()), u, t);
    }
}

proof fn lemma_letter_suffix(t: Seq<char>, lower: char, upper: char)
    ensures
        match letter(t, lower, upper) {
            Some(u) => is_suffix(u, t),
            None => true,
        },
{
    lemma_token_suffix(t, lower);
    lemma_token_suffix(t, upper);
}

proof fn lemma_literal_suffix(u: Seq<char>, base: nat, width: NumberWidth)
    ensures
        leaves_suffix(literal(u, base, width), u),
{
    lemma_digit_count_bound(u, base);
    let n = digit_count(u, base) as int;
    lemma_skip_suffix(u, n);
    lemma_trim_suffix(u.skip(n));
    lemma_suffix_trans(trim(u.skip(n)), u.skip(n), u);
}

proof fn lemma_decimal_suffix(t: Seq<char>)
    ensures
        leaves_suffix(decimal(t), t),
{
    lemma_trim_suffix(t);
    lemma_literal_suffix(trim(t), 10, NumberWidth::Unspecified);
    if let Some((_, r)) = decimal(t) {
        lemma_suffix_trans(r, trim(t), t);
    }
}

proof fn lemma_hexadecimal_suffix(t: Seq<char>)
    ensures
        leaves_suffix(hexadecimal(t), t),
{
    lemma_token_suffix(t, '$');
    if let Some(u) = token(t, '$') {
        lemma_literal_suffix(u, 16, width_for_length(digit_count(u, 16)));
        if let Some((_, r)) = hexadecimal(t) {
            lemma_suffix_trans(r, u, t);
        }
    }
}

proof fn lemma_identifier_suffix(t: Seq<char>)
    ensures
        leaves_suffix(identifier(t), t),
{
    if t.len() > 0 {
        lemma_part_count_bound(t.drop_first());
        let n = 1 + crate::grammar::part_count(t.drop_first());
        lemma_skip_suffix(t, n as int);
    }
}

proof fn lemma_parenthesized_suffix(t: Seq<char>)
    ensures
        leaves_suffix(parenthesized(t), t),
    decreases t.len(), 0nat,
{
    lemma_token_suffix(t, '(');
    if let Some(u) = token(t, '(') {
        if u.len() < t.len() {
            lemma_expression_suffix(u);
            if let Some((_, v)) = expression(u) {
                lemma_token_suffix(v, ')');
                if let Some(w) = token(v, ')') {
                    lemma_suffix_trans(w, v, u);
                    lemma_suffix_trans(w, u, t);
                }
            }
        }
    }
}

proof fn lemma_call_or_variable_suffix(t: Seq<char>)
    ensures
        leaves_suffix(call_or_variable(t), t),
    decreases t.len(), 0nat,
{
    lemma_trim_suffix(t);
    let t1 = trim(t);
    lemma_identifier_suffix(t1);
    if let Some((_, u)) = identifier(t1) {
        lemma_suffix_trans(u, t1, t);
        lemma_token_suffix(u, '(');
        match token(u, '(') {
            Some(v) => {
                if v.len() < t.len() {
                    lemma_suffix_trans(v, u, t);
                    lemma_arguments_suffix(v);
                    if let Some((_, w)) = arguments(v) {
                        lemma_token_suffix(w, ')');
                        if let Some(x) = token(w, ')') {
                            lemma_suffix_trans(x, w, v);
                            lemma_suffix_trans(x, v, t);
                        }
                    }
                }
            },
            None => {
                lemma_trim_suffix(u);
                lemma_suffix_trans(trim(u), u, t);
            },
        }
    }
}

proof fn lemma_primary_suffix(t: Seq<char>)
    ensures
        leaves_suffix(primary(t), t),
    decreases t.len(), 1nat,
{
    lemma_parenthesized_suffix(t);
    lemma_decimal_suffix(t);
    lemma_hexadecimal_suffix(t);
    lemma_call_or_variable_suffix(t);
}

proof fn lemma_operators_suffix(t: Seq<char>)
    ensures
        leaves_suffix(mul_operator(t), t),
        leaves_suffix(add_operator(t), t),
{
    lemma_token_suffix(t, '*');
    lemma_token_suffix(t, '/');
    lemma_token_suffix(t, '+');
    lemma_token_suffix(t, '-');
}

proof fn lemma_term_rest_suffix(t: Seq<char>, acc: ExprModel)
    ensures
        is_suffix(term_rest(t, acc).1, t),
    decreases t.len(), 0nat,
{
    lemma_suffix_refl(t);
    lemma_operators_suffix(t);
    if let Some((op, u)) = mul_operator(t) {
        if u.len() < t.len() {
            lemma_primary_suffix(u);
            if let Some((e, v)) = primary(u) {
                if v.len() < t.len() {
                    lemma_suffix_trans(v, u, t);
                    let next = ExprModel::Binary(op, Box::new(acc), Box::new(e));
                    lemma_term_rest_suffix(v, next);
                    lemma_suffix_trans(term_rest(v, next).1, v, t);
                }
            }
        }
    }
}

proof fn lemma_term_suffix(t: Seq<char>)
    ensures
        leaves_suffix(term(t), t),
    decreases t.len(), 2nat,
{
    lemma_primary_suffix(t);
    if let Some((e, u)) = primary(t) {
        if u.len() < t.len() {
            lemma_term_rest_suffix(u, e);
            lemma_suffix_trans(term_rest(u, e).1, u, t);
        }
    }
}

proof fn lemma_expression_rest_suffix(t: Seq<char>, acc: ExprModel)
    ensures
        is_suffix(expression_rest(t, acc).1, t),
    decreases t.len(), 0nat,
{
    lemma_suffix_refl(t);
    lemma_operators_suffix(t);
    if let Some((op, u)) = add_operator(t) {
        if u.len() < t.len() {
            lemma_term_suffix(u);
            if let Some((e, v)) = term(u) {
                if v.len() < t.len() {
                    lemma_suffix_trans(v, u, t);
                    let next = ExprModel::Binary(op, Box::new(acc), Box::new(e));
                    lemma_expression_rest_suffix(v, next);
                    lemma_suffix_trans(expression_rest(v, next).1, v, t);
                }
            }
        }
    }
}

proof fn lemma_expression_suffix(t: Seq<char>)
    ensures
        leaves_suffix(expression(t), t),
    decreases t.len(), 3nat,
{
    lemma_term_suffix(t);
    if let Some((e, u)) = term(t) {
        if u.len() < t.len() {
            lemma_expression_rest_suffix(u, e);
            lemma_suffix_trans(expression_rest(u, e).1, u, t);
        }
    }
}

proof fn lemma_arguments_rest_suffix(t: Seq<char>, acc: Seq<ExprModel>)
    ensures
        is_suffix(arguments_rest(t, acc).1, t),
    decreases t.len(), 0nat,
{
    lemma_suffix_refl(t);
    lemma_token_suffix(t, ',');
    if let Some(u) = token(t, ',') {
        if u.len() < t.len() {
            lemma_expression_suffix(u);
            if let Some((e, v)) = expression(u) {
                if v.len() < t.len() {
                    lemma_suffix_trans(v, u, t);
                    lemma_arguments_rest_suffix(v, acc.push(e));
                    lemma_suffix_trans(arguments_rest(v, acc.push(e)).1, v, t);
                }
            }
        }
    }
}

proof fn lemma_arguments_suffix(t: Seq<char>)
    ensures
        leaves_suffix(arguments(t), t),
    decreases t.len(), 4nat,
{
    lemma_suffix_refl(t);
    lemma_expression_suffix(t);
    if let Some((e, u)) = expression(t) {
        if u.len() < t.len() {
            lemma_arguments_rest_suffix(u, seq![e]);
            lemma_suffix_trans(arguments_rest(u, seq![e]).1, u, t);
        }
    }
}

/// What is left after an expression is the end of the input: parsing it
/// again reads that part of the input on its own, with nothing carried over
/// from the first parse.
pub proof fn lemma_reparse_remainder(t: Seq<char>)
    ensures
        match expression(t) {
            Some((_, r)) => r.len() <= t.len() && r == t.subrange(t.len() - r.len(), t.len() as int)
                && expression(r) == expression(t.subrange(t.len() - r.len(), t.len() as int)),
            None => true,
        },
{
    lemma_expression_suffix(t);
    if let Some((_, r)) = expression(t) {
        assert(t.skip(t.len() - r.len()) =~= t.subrange(t.len() - r.len(), t.len() as int));
    }
}

proof fn lemma_paren_operand_suffix(t: Seq<char>)
    ensures
        leaves_suffix(paren_operand(t), t),
{
    lemma_token_suffix(t, '(');
    if let Some(u) = token(t, '(') {
        lemma_expression_suffix(u);
        if let Some((_, v)) = expression(u) {
            lemma_token_suffix(v, ')');
            if let Some(w) = token(v, ')') {
                lemma_suffix_trans(w, v, u);
                lemma_suffix_trans(w, u, t);
            }
        }
    }
}

proof fn lemma_paren_indexed_suffix(t: Seq<char>, lower: char, upper: char)
    ensures
        leaves_suffix(paren_indexed(t, lower, upper), t),
{
    lemma_token_suffix(t, '(');
    if let Some(u) = token(t, '(') {
        lemma_expression_suffix(u);
        if let Some((_, v)) = expression(u) {
            lemma_token_suffix(v, ',');
            if let Some(w) = token(v, ',') {
                lemma_letter_suffix(w, lower, upper);
                if let Some(x) = letter(w, lower, upper) {
                    lemma_suffix_trans(x, w, v);
                    lemma_suffix_trans(x, v, u);
                    lemma_suffix_trans(x, u, t);
                }
            }
        }
    }
}

proof fn lemma_long_indirect_suffix(t: Seq<char>)
    ensures
        leaves_suffix(long_indirect(t), t),
{
    lemma_token_suffix(t, '[');
    if let Some(u) = token(t, '[') {
        lemma_expression_suffix(u);
        if let Some((_, v)) = expression(u) {
            lemma_token_suffix(v, ']');
            if let Some(w) = token(v, ']') {
                lemma_suffix_trans(w, v, u);
                lemma_suffix_trans(w, u, t);
            }
        }
    }
}

proof fn lemma_then_suffix(r: Option<(ExprModel, Seq<char>)>, t: Seq<char>)
    requires
        leaves_suffix(r, t),
    ensures
        leaves_suffix(then_y(r), t),
        leaves_suffix(then_close(r), t),
{
    if let Some((_, u)) = r {
        lemma_token_suffix(u, ',');
        lemma_token_suffix(u, ')');
        if let Some(v) = token(u, ',') {
            lemma_letter_suffix(v, 'y', 'Y');
            if let Some(w) = letter(v, 'y', 'Y') {
                lemma_suffix_trans(w, v, u);
                lemma_suffix_trans(w, u, t);
            }
        }
        if let Some(v) = token(u, ')') {
            lemma_suffix_trans(v, u, t);
        }
    }
}

proof fn lemma_operand_suffix(t: Seq<char>)
    ensures
        match operand(t) {
            Some((_, _, u)) => is_suffix(u, t),
            None => true,
        },
{
    lemma_paren_operand_suffix(t);
    lemma_then_suffix(paren_operand(t), t);
    lemma_paren_indexed_suffix(t, 'x', 'X');
    lemma_then_suffix(paren_indexed(t, 'x', 'X'), t);
    lemma_paren_indexed_suffix(t, 's', 'S');
    lemma_then_suffix(paren_indexed(t, 's', 'S'), t);
    lemma_then_suffix(then_close(paren_indexed(t, 's', 'S')), t);
    lemma_long_indirect_suffix(t);
    lemma_then_suffix(long_indirect(t), t);
    lemma_expression_suffix(t);
    if let Some((_, u)) = expression(t) {
        lemma_token_suffix(u, ',');
        if let Some(v) = token(u, ',') {
            lemma_expression_suffix(v);
            if let Some((_, w)) = expression(v) {
                lemma_suffix_trans(w, v, u);
                lemma_suffix_trans(w, u, t);
            }
        }
    }
    lemma_token_suffix(t, '#');
    if let Some(u) = token(t, '#') {
        lemma_expression_suffix(u);
        if let Some((_, v)) = expression(u) {
            lemma_suffix_trans(v, u, t);
        }
    }
}

proof fn lemma_opcode_suffix(t: Seq<char>)
    ensures
        leaves_suffix(opcode(t), t),
{
    lemma_trim_suffix(t);
    let t1 = trim(t);
    lemma_identifier_suffix(t1);
    if let Some((_, u)) = identifier(t1) {
        lemma_suffix_trans(u, t1, t);
        lemma_trim_suffix(u);
        let u1 = trim(u);
        lemma_suffix_trans(u1, u, t);
        let v = size_suffix(u1).1;
        lemma_token_suffix(u1, '.');
        if let Some(w) = token(u1, '.') {
            if w.len() > 0 {
                assert(w.drop_first() =~= w.skip(1));
                lemma_skip_suffix(w, 1);
                lemma_trim_suffix(w.drop_first());
                lemma_suffix_trans(trim(w.drop_first()), w.drop_first(), w);
                lemma_suffix_trans(trim(w.drop_first()), w, u1);
            }
        }
        lemma_suffix_refl(u1);
        assert(is_suffix(v, u1));
        lemma_suffix_trans(v, u1, t);
        lemma_operand_suffix(v);
        if let Some((_, _, x)) = operand(v) {
            lemma_suffix_trans(x, v, t);
        }
    }
}

/// What is left after an instruction is the end of the input: parsing it
/// again reads that part of the input on its own, with nothing carried over
/// from the first parse.
pub proof fn lemma_reparse_after_opcode(t: Seq<char>)
    ensures
        match opcode(t) {
            Some((_, r)) => r.len() <= t.len() && r == t.subrange(t.len() - r.len(), t.len() as int)
                && opcode(r) == opcode(t.subrange(t.len() - r.len(), t.len() as int)),
            None => true,
        },
{
    lemma_opcode_suffix(t);
    if let Some((_, r)) = opcode(t) {
        assert(t.skip(t.len() - r.len()) =~= t.subrange(t.len() - r.len(), t.len() as int));
    }
}

} // verus!
