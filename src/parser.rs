//! The parser: each rule reads from a position in the input and gives what
//! it read and the position after it, exactly as the rule of the same name in
//! `grammar` says.
use crate::ast::{
    exprs_view, lemma_call_view, BinaryOperator, ExprModel, Expression, Label, ModeModel, Number, NumberWidth, Opcode,
    OpcodeMode, Statement, VariableName,
};
use crate::grammar;
use crate::xid::{is_xid_continue, is_xid_start};
use vstd::prelude::*;
use vstd::string::StrSliceExecFns;

verus! {

broadcast use {vstd::seq::group_seq_axioms, vstd::std_specs::vec::group_vec_axioms};

/// The input text together with its characters.
pub struct Source<'a> {
    pub text: &'a str,
    pub chars: Vec<char>,
}

impl<'a> Source<'a> {
    pub open spec fn view(&self) -> Seq<char> {
        self.chars@
    }

    pub open spec fn wf(&self) -> bool {
        self.text@ == self.chars@
    }

    /// The characters of `text`.
    pub fn new(text: &'a str) -> (r: Source<'a>)
        ensures
            r.wf(),
            r.text == text,
    {
        let n = text.unicode_len();
        let mut chars: Vec<char> = Vec::new();
        let mut i: usize = 0;
        while i < n
            invariant
                n == text@.len(),
                i <= n,
                chars@ == text@.take(i as int),
            decreases n - i,
        {
            let c = text.get_char(i);
            chars.push(c);
            i += 1;
            assert(chars@ =~= text@.take(i as int));
        }
        assert(chars@ =~= text@);
        Source { text, chars }
    }

    /// The text from position `p` to the end.
    pub fn rest(&self, p: usize) -> (r: &'a str)
        requires
            self.wf(),
            p <= self@.len(),
        ensures
            r@ == self@.skip(p as int),
    {
        self.text.substring_char(p, self.chars.len())
    }

    /// The text between positions `p` and `q`, as a `String`.
    pub fn slice(&self, p: usize, q: usize) -> (r: String)
        requires
            self.wf(),
            p <= q <= self@.len(),
        ensures
            r@ == self@.subrange(p as int, q as int),
    {
        self.text.substring_char(p, q).to_owned()
    }
}

proof fn lemma_skip_first(s: Seq<char>, p: int)
    requires
        0 <= p < s.len(),
    ensures
        s.skip(p).len() > 0,
        s.skip(p)[0] == s[p],
        s.skip(p).drop_first() == s.skip(p + 1),
{
    assert(s.skip(p).drop_first() =~= s.skip(p + 1));
}

pub fn is_space(c: char) -> (r: bool)
    ensures
        r == grammar::is_space(c),
{
    c == ' ' || c == '\t' || c == '\r' || c == '\n'
}

/// The position after the spaces at `p`.
pub fn skip_spaces(s: &Vec<char>, p: usize) -> (q: usize)
    requires
        p <= s@.len(),
    ensures
        p <= q <= s@.len(),
        grammar::trim(s@.skip(p as int)) == s@.skip(q as int),
{
    let mut q = p;
    while q < s.len() && is_space(s[q])
        invariant
            p <= q <= s@.len(),
            grammar::trim(s@.skip(p as int)) == grammar::trim(s@.skip(q as int)),
        decreases s@.len() - q,
    {
        proof {
            lemma_skip_first(s@, q as int);
        }
        q += 1;
    }
    proof {
        if q < s@.len() {
            lemma_skip_first(s@, q as int);
        } else {
            assert(s@.skip(q as int).len() == 0);
        }
    }
    q
}

/// The token `c` with the spaces around it: the position after them.
pub fn token(s: &Vec<char>, p: usize, c: char) -> (r: Option<usize>)
    requires
        p <= s@.len(),
    ensures
        match r {
            Some(q) => q <= s@.len() && grammar::token(s@.skip(p as int), c) == Some(
                s@.skip(q as int),
            ),
            None => grammar::token(s@.skip(p as int), c) is None,
        },
{
    let q = skip_spaces(s, p);
    if q < s.len() && s[q] == c {
        proof {
            lemma_skip_first(s@, q as int);
        }
        Some(skip_spaces(s, q + 1))
    } else {
        proof {
            if q < s@.len() {
                lemma_skip_first(s@, q as int);
            }
        }
        None
    }
}

/// A one-letter token in lower or upper case.
pub fn letter(s: &Vec<char>, p: usize, lower: char, upper: char) -> (r: Option<usize>)
    requires
        p <= s@.len(),
    ensures
        match r {
            Some(q) => q <= s@.len() && grammar::letter(s@.skip(p as int), lower, upper) == Some(
                s@.skip(q as int),
            ),
            None => grammar::letter(s@.skip(p as int), lower, upper) is None,
        },
{
    match token(s, p, lower) {
        Some(q) => Some(q),
        None => token(s, p, upper),
    }
}

pub fn is_digit_in(c: char, base: u64) -> (r: bool)
    ensures
        r == grammar::is_digit_in(c, base as nat),
{
    if base == 16 {
        ('0' <= c && c <= '9') || ('a' <= c && c <= 'f') || ('A' <= c && c <= 'F')
    } else {
        '0' <= c && c <= '9'
    }
}

pub fn digit_value(c: char) -> (r: u64)
    requires
        grammar::is_hex_digit(c),
    ensures
        r as nat == grammar::digit_value(c),
        r < 16,
{
    if '0' <= c && c <= '9' {
        (c as u64) - ('0' as u64)
    } else if 'a' <= c && c <= 'f' {
        (c as u64) - ('a' as u64) + 10
    } else {
        (c as u64) - ('A' as u64) + 10
    }
}

/// A prefix of a run of digits is worth no more than the whole run.
proof fn lemma_value_prefix(d: Seq<char>, k: int, base: nat)
    requires
        base >= 1,
        0 <= k <= d.len(),
    ensures
        grammar::value_in(d.take(k), base) <= grammar::value_in(d, base),
    decreases d.len(),
{
    if k == d.len() {
        assert(d.take(k) =~= d);
    } else {
        assert(d.drop_last().take(k) =~= d.take(k));
        lemma_value_prefix(d.drop_last(), k, base);
        let x = grammar::value_in(d.drop_last(), base);
        assert(x * base >= x) by (nonlinear_arith)
            requires
                base >= 1,
                x >= 0,
        ;
    }
}

/// The run of digits in `base` at `p`: its value and the position after it,
/// if the run is not empty and its value fits in 32 bits.
pub fn digit_run(s: &Vec<char>, p: usize, base: u64) -> (r: Option<(u32, usize)>)
    requires
        p <= s@.len(),
        base == 10 || base == 16,
    ensures
        ({
            let n = grammar::digit_count(s@.skip(p as int), base as nat);
            let v = grammar::value_in(s@.skip(p as int).take(n as int), base as nat);
            match r {
                Some((value, q)) => n > 0 && v <= u32::MAX && value as nat == v && q == p + n && q
                    <= s@.len(),
                None => !(n > 0 && v <= u32::MAX),
            }
        }),
{
    let ghost t = s@.skip(p as int);
    let ghost b = base as nat;
    let mut q = p;
    let mut value: u64 = 0;
    while q < s.len() && is_digit_in(s[q], base)
        invariant
            p <= q <= s@.len(),
            t == s@.skip(p as int),
            b == base as nat,
            base == 10 || base == 16,
            grammar::digit_count(t, b) == (q - p) + grammar::digit_count(s@.skip(q as int), b),
            value as nat == grammar::value_in(s@.subrange(p as int, q as int), b),
            value <= u32::MAX,
        decreases s@.len() - q,
    {
        proof {
            lemma_skip_first(s@, q as int);
            assert(s@.subrange(p as int, q + 1).drop_last() =~= s@.subrange(p as int, q as int));
            assert(grammar::digit_count(s@.skip(q as int), b) == 1 + grammar::digit_count(
                s@.skip(q + 1),
                b,
            ));
            grammar::lemma_digit_count_bound(t, b);
        }
        let next = value * base + digit_value(s[q]);
        if next > u32::MAX as u64 {
            proof {
                let n = grammar::digit_count(t, b);
                let whole = t.take(n as int);
                assert(whole.take(q + 1 - p) =~= s@.subrange(p as int, q + 1));
                lemma_value_prefix(whole, q + 1 - p, b);
            }
            return None;
        }
        value = next;
        q += 1;
    }
    proof {
        if q < s@.len() {
            lemma_skip_first(s@, q as int);
        }
        let n = grammar::digit_count(t, b);
        assert(n == q - p);
        assert(t.take(n as int) =~= s@.subrange(p as int, q as int));
    }
    if q == p {
        None
    } else {
        Some((value as u32, q))
    }
}

/// The width that a hexadecimal literal of `n` digits suggests.
pub fn hex_width_for_length(n: usize) -> (r: NumberWidth)
    ensures
        r == grammar::width_for_length(n as nat),
{
    if n == 2 {
        NumberWidth::OneByte
    } else if n == 4 {
        NumberWidth::TwoBytes
    } else {
        NumberWidth::Unspecified
    }
}

pub open spec fn expr_result(s: Seq<char>, r: Option<(Expression, usize)>) -> Option<
    (ExprModel, Seq<char>),
> {
    match r {
        Some((e, q)) => Some((e@, s.skip(q as int))),
        None => None,
    }
}

pub open spec fn in_bounds(s: Seq<char>, r: Option<(Expression, usize)>) -> bool {
    match r {
        Some((e, q)) => q <= s.len(),
        None => true,
    }
}

/// A decimal literal at `p`.
pub fn decimal(s: &Vec<char>, p: usize) -> (r: Option<(Expression, usize)>)
    requires
        p <= s@.len(),
    ensures
        in_bounds(s@, r),
        expr_result(s@, r) == grammar::decimal(s@.skip(p as int)),
{
    let q = skip_spaces(s, p);
    match digit_run(s, q, 10) {
        Some((value, e)) => {
            assert(s@.skip(q as int).skip(e - q) =~= s@.skip(e as int));
            let number = Number { value, width: NumberWidth::Unspecified };
            Some((Expression::Number(number), skip_spaces(s, e)))
        },
        None => None,
    }
}

/// A hexadecimal literal at `p`: `$` and hexadecimal digits.
pub fn hexadecimal(s: &Vec<char>, p: usize) -> (r: Option<(Expression, usize)>)
    requires
        p <= s@.len(),
    ensures
        in_bounds(s@, r),
        expr_result(s@, r) == grammar::hexadecimal(s@.skip(p as int)),
{
    match token(s, p, '$') {
        Some(q) => match digit_run(s, q, 16) {
            Some((value, e)) => {
                assert(s@.skip(q as int).skip(e - q) =~= s@.skip(e as int));
                let number = Number { value, width: hex_width_for_length(e - q) };
                Some((Expression::Number(number), skip_spaces(s, e)))
            },
            None => None,
        },
        None => None,
    }
}

/// Whether `c` may begin an identifier.
pub fn valid_identifier_first_character(c: char) -> (r: bool)
    ensures
        r == grammar::identifier_start(c),
{
    c == '!' || c == '_' || is_xid_start(c)
}

/// Whether `c` may continue an identifier.
pub fn valid_later_character(c: char) -> (r: bool)
    ensures
        r == grammar::identifier_part(c),
{
    is_xid_continue(c) || c == '_'
}

/// The end of the identifier that starts right at `p`, if one does.
pub fn identifier_end(s: &Vec<char>, p: usize) -> (r: Option<usize>)
    requires
        p <= s@.len(),
    ensures
        match r {
            Some(q) => p < q <= s@.len() && grammar::identifier(s@.skip(p as int)) == Some(
                (s@.subrange(p as int, q as int), s@.skip(q as int)),
            ),
            None => grammar::identifier(s@.skip(p as int)) is None,
        },
{
    if p < s.len() && valid_identifier_first_character(s[p]) {
        proof {
            lemma_skip_first(s@, p as int);
        }
        let mut q = p + 1;
        while q < s.len() && valid_later_character(s[q])
            invariant
                p < q <= s@.len(),
                grammar::part_count(s@.skip(p + 1)) == (q - p - 1) + grammar::part_count(
                    s@.skip(q as int),
                ),
            decreases s@.len() - q,
        {
            proof {
                lemma_skip_first(s@, q as int);
            }
            q += 1;
        }
        proof {
            if q < s@.len() {
                lemma_skip_first(s@, q as int);
            }
            let t = s@.skip(p as int);
            assert(t.take(q - p) =~= s@.subrange(p as int, q as int));
            assert(t.skip(q - p) =~= s@.skip(q as int));
        }
        Some(q)
    } else {
        proof {
            if p < s@.len() {
                lemma_skip_first(s@, p as int);
            }
        }
        None
    }
}

/// `*` or `/` at `p`.
pub fn mul_operator(s: &Vec<char>, p: usize) -> (r: Option<(BinaryOperator, usize)>)
    requires
        p <= s@.len(),
    ensures
        match r {
            Some((op, q)) => q <= s@.len() && grammar::mul_operator(s@.skip(p as int)) == Some(
                (op, s@.skip(q as int)),
            ),
            None => grammar::mul_operator(s@.skip(p as int)) is None,
        },
{
    match token(s, p, '*') {
        Some(q) => Some((BinaryOperator::Mul, q)),
        None => match token(s, p, '/') {
            Some(q) => Some((BinaryOperator::Div, q)),
            None => None,
        },
    }
}

/// `+` or `-` at `p`.
pub fn add_operator(s: &Vec<char>, p: usize) -> (r: Option<(BinaryOperator, usize)>)
    requires
        p <= s@.len(),
    ensures
        match r {
            Some((op, q)) => q <= s@.len() && grammar::add_operator(s@.skip(p as int)) == Some(
                (op, s@.skip(q as int)),
            ),
            None => grammar::add_operator(s@.skip(p as int)) is None,
        },
{
    match token(s, p, '+') {
        Some(q) => Some((BinaryOperator::Add, q)),
        None => match token(s, p, '-') {
            Some(q) => Some((BinaryOperator::Sub, q)),
            None => None,
        },
    }
}

/// `(` expression `)` at `p`.
pub fn parenthesized(src: &Source, p: usize) -> (r: Option<(Expression, usize)>)
    requires
        src.wf(),
        p <= src@.len(),
    ensures
        in_bounds(src@, r),
        expr_result(src@, r) == grammar::parenthesized(src@.skip(p as int)),
    decreases src@.len() - p, 0nat,
{
    let s = &src.chars;
    match token(s, p, '(') {
        Some(u) => if u > p {
            match expression_at(src, u) {
                Some((e, v)) => match token(s, v, ')') {
                    Some(w) => Some((e, w)),
                    None => None,
                },
                None => None,
            }
        } else {
            None
        },
        None => None,
    }
}

/// A call or a variable at `p`.
pub fn call_or_variable(src: &Source, p: usize) -> (r: Option<(Expression, usize)>)
    requires
        src.wf(),
        p <= src@.len(),
    ensures
        in_bounds(src@, r),
        expr_result(src@, r) == grammar::call_or_variable(src@.skip(p as int)),
    decreases src@.len() - p, 0nat,
{
    let s = &src.chars;
    let q = skip_spaces(s, p);
    match identifier_end(s, q) {
        Some(e) => {
            let name = VariableName(src.slice(q, e));
            match token(s, e, '(') {
                Some(v) => if v > p {
                    match arguments(src, v) {
                        Some((args, w)) => match token(s, w, ')') {
                            Some(x) => {
                                proof {
                                    lemma_call_view(name, args);
                                }
                                Some((Expression::Call(name, args), x))
                            },
                            None => None,
                        },
                        None => None,
                    }
                } else {
                    None
                },
                None => {
                    let x = skip_spaces(s, e);
                    Some((Expression::Variable(Label::Named(name)), x))
                },
            }
        },
        None => None,
    }
}

/// A primary expression at `p`: the first of a parenthesized expression, a
/// decimal literal, a hexadecimal literal, a call or a variable.
pub fn primary(src: &Source, p: usize) -> (r: Option<(Expression, usize)>)
    requires
        src.wf(),
        p <= src@.len(),
    ensures
        in_bounds(src@, r),
        expr_result(src@, r) == grammar::primary(src@.skip(p as int)),
    decreases src@.len() - p, 1nat,
{
    let s = &src.chars;
    let r = parenthesized(src, p);
    if r.is_some() {
        return r;
    }
    let r = decimal(s, p);
    if r.is_some() {
        return r;
    }
    let r = hexadecimal(s, p);
    if r.is_some() {
        return r;
    }
    call_or_variable(src, p)
}

/// Primaries joined by `*` and `/` at `p`, associating to the left.
pub fn term(src: &Source, p: usize) -> (r: Option<(Expression, usize)>)
    requires
        src.wf(),
        p <= src@.len(),
    ensures
        in_bounds(src@, r),
        expr_result(src@, r) == grammar::term(src@.skip(p as int)),
    decreases src@.len() - p, 2nat,
{
    let s = &src.chars;
    match primary(src, p) {
        Some((first, u)) => if u > p {
            let ghost target = grammar::term_rest(s@.skip(u as int), first@);
            let mut acc = first;
            let mut q = u;
            loop
                invariant
                    p < q <= s@.len(),
                    s == &src.chars,
                    src.wf(),
                    target == grammar::term_rest(s@.skip(q as int), acc@),
                ensures
                    p < q <= s@.len(),
                    target == (acc@, s@.skip(q as int)),
                decreases s@.len() - q,
            {
                match mul_operator(s, q) {
                    Some((op, v)) => if v > q {
                        match primary(src, v) {
                            Some((next, w)) => if w > q {
                                acc = Expression::Binary(op, Box::new(acc), Box::new(next));
                                q = w;
                            } else {
                                break ;
                            },
                            None => break ,
                        }
                    } else {
                        break ;
                    },
                    None => break ,
                }
            }
            Some((acc, q))
        } else {
            None
        },
        None => None,
    }
}

/// Terms joined by `+` and `-` at `p`, associating to the left.
pub fn expression_at(src: &Source, p: usize) -> (r: Option<(Expression, usize)>)
    requires
        src.wf(),
        p <= src@.len(),
    ensures
        in_bounds(src@, r),
        expr_result(src@, r) == grammar::expression(src@.skip(p as int)),
    decreases src@.len() - p, 3nat,
{
    let s = &src.chars;
    match term(src, p) {
        Some((first, u)) => if u > p {
            let ghost target = grammar::expression_rest(s@.skip(u as int), first@);
            let mut acc = first;
            let mut q = u;
            loop
                invariant
                    p < q <= s@.len(),
                    s == &src.chars,
                    src.wf(),
                    target == grammar::expression_rest(s@.skip(q as int), acc@),
                ensures
                    p < q <= s@.len(),
                    target == (acc@, s@.skip(q as int)),
                decreases s@.len() - q,
            {
                match add_operator(s, q) {
                    Some((op, v)) => if v > q {
                        match term(src, v) {
                            Some((next, w)) => if w > q {
                                acc = Expression::Binary(op, Box::new(acc), Box::new(next));
                                q = w;
                            } else {
                                break ;
                            },
                            None => break ,
                        }
                    } else {
                        break ;
                    },
                    None => break ,
                }
            }
            Some((acc, q))
        } else {
            None
        },
        None => None,
    }
}

/// A comma-separated list of expressions at `p`, possibly empty.
pub fn arguments(src: &Source, p: usize) -> (r: Option<(Vec<Expression>, usize)>)
    requires
        src.wf(),
        p <= src@.len(),
    ensures
        match r {
            Some((args, q)) => q <= src@.len() && grammar::arguments(src@.skip(p as int)) == Some(
                (exprs_view(args@), src@.skip(q as int)),
            ),
            None => grammar::arguments(src@.skip(p as int)) is None,
        },
    decreases src@.len() - p, 4nat,
{
    let s = &src.chars;
    match expression_at(src, p) {
        Some((first, u)) => if u > p {
            let ghost first_view = first@;
            let ghost target = grammar::arguments_rest(s@.skip(u as int), seq![first_view]);
            let mut args: Vec<Expression> = Vec::new();
            args.push(first);
            assert(exprs_view(args@) =~= seq![first_view]);
            let mut q = u;
            loop
                invariant
                    p < q <= s@.len(),
                    s == &src.chars,
                    src.wf(),
                    target == grammar::arguments_rest(s@.skip(q as int), exprs_view(args@)),
                ensures
                    p < q <= s@.len(),
                    target == (exprs_view(args@), s@.skip(q as int)),
                decreases s@.len() - q,
            {
                match token(s, q, ',') {
                    Some(v) => if v > q {
                        match expression_at(src, v) {
                            Some((next, w)) => if w > q {
                                let ghost before = exprs_view(args@);
                                let ghost next_view = next@;
                                args.push(next);
                                assert(exprs_view(args@) =~= before.push(next_view));
                                q = w;
                            } else {
                                break ;
                            },
                            None => break ,
                        }
                    } else {
                        break ;
                    },
                    None => break ,
                }
            }
            Some((args, q))
        } else {
            let args: Vec<Expression> = Vec::new();
            assert(exprs_view(args@) =~= seq![]);
            Some((args, p))
        },
        None => {
            let args: Vec<Expression> = Vec::new();
            assert(exprs_view(args@) =~= seq![]);
            Some((args, p))
        },
    }
}

/// `(` expression `)` at `p`.
pub fn paren_operand(src: &Source, p: usize) -> (r: Option<(Expression, usize)>)
    requires
        src.wf(),
        p <= src@.len(),
    ensures
        in_bounds(src@, r),
        expr_result(src@, r) == grammar::paren_operand(src@.skip(p as int)),
{
    let s = &src.chars;
    match token(s, p, '(') {
        Some(u) => match expression_at(src, u) {
            Some((e, v)) => match token(s, v, ')') {
                Some(w) => Some((e, w)),
                None => None,
            },
            None => None,
        },
        None => None,
    }
}

/// `(` expression `,` and a register letter at `p`.
pub fn paren_indexed(src: &Source, p: usize, lower: char, upper: char) -> (r: Option<
    (Expression, usize),
>)
    requires
        src.wf(),
        p <= src@.len(),
    ensures
        in_bounds(src@, r),
        expr_result(src@, r) == grammar::paren_indexed(src@.skip(p as int), lower, upper),
{
    let s = &src.chars;
    match token(s, p, '(') {
        Some(u) => match expression_at(src, u) {
            Some((e, v)) => match token(s, v, ',') {
                Some(w) => match letter(s, w, lower, upper) {
                    Some(x) => Some((e, x)),
                    None => None,
                },
                None => None,
            },
            None => None,
        },
        None => None,
    }
}

/// `[` expression `]` at `p`.
pub fn long_indirect(src: &Source, p: usize) -> (r: Option<(Expression, usize)>)
    requires
        src.wf(),
        p <= src@.len(),
    ensures
        in_bounds(src@, r),
        expr_result(src@, r) == grammar::long_indirect(src@.skip(p as int)),
{
    let s = &src.chars;
    match token(s, p, '[') {
        Some(u) => match expression_at(src, u) {
            Some((e, v)) => match token(s, v, ']') {
                Some(w) => Some((e, w)),
                None => None,
            },
            None => None,
        },
        None => None,
    }
}

/// `, y` or `, Y` after what `r` read.
pub fn then_y(s: &Vec<char>, r: Option<(Expression, usize)>) -> (out: Option<(Expression, usize)>)
    requires
        in_bounds(s@, r),
    ensures
        in_bounds(s@, out),
        expr_result(s@, out) == grammar::then_y(expr_result(s@, r)),
{
    match r {
        Some((e, u)) => match token(s, u, ',') {
            Some(v) => match letter(s, v, 'y', 'Y') {
                Some(w) => Some((e, w)),
                None => None,
            },
            None => None,
        },
        None => None,
    }
}

/// `)` after what `r` read.
pub fn then_close(s: &Vec<char>, r: Option<(Expression, usize)>) -> (out: Option<
    (Expression, usize),
>)
    requires
        in_bounds(s@, r),
    ensures
        in_bounds(s@, out),
        expr_result(s@, out) == grammar::then_close(expr_result(s@, r)),
{
    match r {
        Some((e, u)) => match token(s, u, ')') {
            Some(v) => Some((e, v)),
            None => None,
        },
        None => None,
    }
}

pub fn is_operator(c: char) -> (r: bool)
    ensures
        r == grammar::is_operator(c),
{
    c == '+' || c == '-' || c == '*' || c == '/'
}

/// `(` expression `)` at `p`, where no arithmetic operator follows.
pub fn indirect(src: &Source, p: usize) -> (r: Option<(Expression, usize)>)
    requires
        src.wf(),
        p <= src@.len(),
    ensures
        in_bounds(src@, r),
        expr_result(src@, r) == grammar::indirect(src@.skip(p as int)),
{
    let s = &src.chars;
    match paren_operand(src, p) {
        Some((e, u)) => {
            proof {
                if u < s@.len() {
                    lemma_skip_first(s@, u as int);
                }
            }
            if u < s.len() && is_operator(s[u]) {
                None
            } else {
                Some((e, u))
            }
        },
        None => None,
    }
}

/// expression `,` expression at `p`.
pub fn address_pair(src: &Source, p: usize) -> (r: Option<(Expression, Expression, usize)>)
    requires
        src.wf(),
        p <= src@.len(),
    ensures
        match r {
            Some((e, f, q)) => q <= src@.len() && grammar::address_pair(src@.skip(p as int))
                == Some((e@, f@, src@.skip(q as int))),
            None => grammar::address_pair(src@.skip(p as int)) is None,
        },
{
    let s = &src.chars;
    match expression_at(src, p) {
        Some((e, u)) => match token(s, u, ',') {
            Some(v) => match expression_at(src, v) {
                Some((f, w)) => Some((e, f, w)),
                None => None,
            },
            None => None,
        },
        None => None,
    }
}

/// `#` expression at `p`.
pub fn immediate(src: &Source, p: usize) -> (r: Option<(Expression, usize)>)
    requires
        src.wf(),
        p <= src@.len(),
    ensures
        in_bounds(src@, r),
        expr_result(src@, r) == grammar::immediate(src@.skip(p as int)),
{
    match token(&src.chars, p, '#') {
        Some(u) => expression_at(src, u),
        None => None,
    }
}

pub open spec fn operand_result(s: Seq<char>, r: Option<(OpcodeMode, Expression, usize)>) -> Option<
    (ModeModel, ExprModel, Seq<char>),
> {
    match r {
        Some((m, e, q)) => Some((m.view(), e@, s.skip(q as int))),
        None => None,
    }
}

/// Gives what `r` read the addressing mode `mode`.
pub fn with_mode(s: &Vec<char>, r: Option<(Expression, usize)>, mode: OpcodeMode) -> (out: Option<
    (OpcodeMode, Expression, usize),
>)
    requires
        in_bounds(s@, r),
    ensures
        out is Some ==> (out->0).2 <= s@.len(),
        operand_result(s@, out) == grammar::with_mode(expr_result(s@, r), mode.view()),
{
    match r {
        Some((e, q)) => Some((mode, e, q)),
        None => None,
    }
}

/// The operand of an instruction at `p`: the addressing modes are tried in
/// the order that `grammar::operand` gives, and the first that matches
/// decides.
pub fn operand(src: &Source, p: usize) -> (r: Option<(OpcodeMode, Expression, usize)>)
    requires
        src.wf(),
        p <= src@.len(),
    ensures
        r is Some ==> (r->0).2 <= src@.len(),
        operand_result(src@, r) == grammar::operand(src@.skip(p as int)),
{
    let s = &src.chars;
    let r = then_y(s, paren_operand(src, p));
    if r.is_some() {
        return with_mode(s, r, OpcodeMode::IndirectY);
    }
    let r = indirect(src, p);
    if r.is_some() {
        return with_mode(s, r, OpcodeMode::Indirect);
    }
    let r = then_close(s, paren_indexed(src, p, 'x', 'X'));
    if r.is_some() {
        return with_mode(s, r, OpcodeMode::XIndirect);
    }
    match address_pair(src, p) {
        Some((e, f, q)) => {
            return Some((OpcodeMode::Move { second: f }, e, q));
        },
        None => {},
    }
    let r = expression_at(src, p);
    if r.is_some() {
        return with_mode(s, r, OpcodeMode::Address);
    }
    let r = immediate(src, p);
    if r.is_some() {
        return with_mode(s, r, OpcodeMode::Immediate);
    }
    let r = then_y(s, long_indirect(src, p));
    if r.is_some() {
        return with_mode(s, r, OpcodeMode::LongIndirectY);
    }
    let r = long_indirect(src, p);
    if r.is_some() {
        return with_mode(s, r, OpcodeMode::LongIndirect);
    }
    let r = then_y(s, then_close(s, paren_indexed(src, p, 's', 'S')));
    with_mode(s, r, OpcodeMode::StackIndirectY)
}

/// The byte width that a size suffix letter gives.
pub fn suffix_width(c: char) -> (r: Option<u32>)
    ensures
        r == grammar::suffix_width(c),
{
    if c == 'b' || c == 'B' {
        Some(1)
    } else if c == 'w' || c == 'W' {
        Some(2)
    } else if c == 'l' || c == 'L' {
        Some(3)
    } else {
        None
    }
}

/// An optional `.b`, `.w` or `.l` suffix at `p`.
pub fn size_suffix(s: &Vec<char>, p: usize) -> (r: (Option<u32>, usize))
    requires
        p <= s@.len(),
    ensures
        r.1 <= s@.len(),
        grammar::size_suffix(s@.skip(p as int)) == (r.0, s@.skip(r.1 as int)),
{
    match token(s, p, '.') {
        Some(v) => {
            proof {
                if v < s@.len() {
                    lemma_skip_first(s@, v as int);
                }
            }
            if v < s.len() {
                let width = suffix_width(s[v]);
                if width.is_some() {
                    return (width, skip_spaces(s, v + 1));
                }
            }
            (None, p)
        },
        None => (None, p),
    }
}

pub open spec fn opcode_result(s: Seq<char>, r: Option<(Opcode, usize)>) -> Option<
    (crate::ast::OpcodeModel, Seq<char>),
> {
    match r {
        Some((op, q)) => Some((op@, s.skip(q as int))),
        None => None,
    }
}

/// An instruction at `p`: its name, an optional size suffix, its operand.
pub fn opcode_at(src: &Source, p: usize) -> (r: Option<(Opcode, usize)>)
    requires
        src.wf(),
        p <= src@.len(),
    ensures
        r is Some ==> (r->0).1 <= src@.len(),
        opcode_result(src@, r) == grammar::opcode(src@.skip(p as int)),
{
    let s = &src.chars;
    let q = skip_spaces(s, p);
    match identifier_end(s, q) {
        Some(e) => {
            let name = src.slice(q, e);
            let u = skip_spaces(s, e);
            let (width, v) = size_suffix(s, u);
            match operand(src, v) {
                Some((mode, value, w)) => Some((Opcode { name, width, mode, value }, w)),
                None => None,
            }
        },
        None => None,
    }
}

/// The outcome of a parse: what was read and the text left after it, or a
/// failure.
///
/// `Error` carries no position or cause: when every alternative of a rule
/// fails, the rule fails as a whole, whichever alternative got furthest.
/// Success does not mean that all the input was read; the caller decides
/// what to make of the text that is left.
#[derive(Debug, PartialEq, Eq)]
pub enum IResult<'a, O> {
    Done(&'a str, O),
    Error,
}

impl<'a, O> IResult<'a, O> {
    pub fn is_done(&self) -> (r: bool)
        ensures
            r == (self is Done),
    {
        match self {
            IResult::Done(_, _) => true,
            IResult::Error => false,
        }
    }

    pub fn is_err(&self) -> (r: bool)
        ensures
            r == (self is Error),
    {
        match self {
            IResult::Done(_, _) => false,
            IResult::Error => true,
        }
    }
}

/// An identifier at the very start of `input`: a first character that is
/// `!`, `_` or `XID_Start`, then any number of `XID_Continue` characters or
/// `_`. The longest such prefix is read; no spaces are skipped.
pub fn identifier<'a>(input: &'a str) -> (r: IResult<'a, String>)
    ensures
        match r {
            IResult::Done(rest, name) => grammar::identifier(input@) == Some((name@, rest@)),
            IResult::Error => grammar::identifier(input@) is None,
        },
{
    let src = Source::new(input);
    assert(src@.skip(0) =~= src@);
    match identifier_end(&src.chars, 0) {
        Some(q) => IResult::Done(src.rest(q), src.slice(0, q)),
        None => IResult::Error,
    }
}

/// An expression at the start of `input`, and the text after it.
pub fn expression<'a>(input: &'a str) -> (r: IResult<'a, Expression>)
    ensures
        match r {
            IResult::Done(rest, e) => grammar::expression(input@) == Some((e@, rest@)),
            IResult::Error => grammar::expression(input@) is None,
        },
{
    let src = Source::new(input);
    assert(src@.skip(0) =~= src@);
    match expression_at(&src, 0) {
        Some((e, q)) => IResult::Done(src.rest(q), e),
        None => IResult::Error,
    }
}

/// A statement at the start of `input`: an instruction.
pub fn statement<'a>(input: &'a str) -> (r: IResult<'a, Statement>)
    ensures
        match r {
            IResult::Done(rest, Statement::Opcode(op)) => grammar::opcode(input@) == Some(
                (op@, rest@),
            ),
            IResult::Done(_, _) => false,
            IResult::Error => grammar::opcode(input@) is None,
        },
{
    let src = Source::new(input);
    assert(src@.skip(0) =~= src@);
    match opcode_at(&src, 0) {
        Some((op, q)) => IResult::Done(src.rest(q), Statement::Opcode(op)),
        None => IResult::Error,
    }
}

/// An assignment at the start of `input`: a name, `=` and an expression.
pub fn assignment<'a>(input: &'a str) -> (r: IResult<'a, Statement>)
    ensures
        match r {
            IResult::Done(rest, Statement::Assignment(name, value)) => grammar::assignment(input@)
                == Some((name.0@, value@, rest@)),
            IResult::Done(_, _) => false,
            IResult::Error => grammar::assignment(input@) is None,
        },
{
    let src = Source::new(input);
    assert(src@.skip(0) =~= src@);
    let s = &src.chars;
    let q = skip_spaces(s, 0);
    match identifier_end(s, q) {
        Some(e) => match token(s, e, '=') {
            Some(v) => match expression_at(&src, v) {
                Some((value, w)) => {
                    let name = VariableName(src.slice(q, e));
                    IResult::Done(src.rest(w), Statement::Assignment(name, value))
                },
                None => IResult::Error,
            },
            None => IResult::Error,
        },
        None => IResult::Error,
    }
}

} // verus!
