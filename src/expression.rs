use vstd::prelude::*;
use crate::number::{digit_value, digits_value, spec_number, Number};
use crate::operations::{char_of_op, op_of_char, spec_operation, Operation};
use crate::utils::{
    extract_whitespace, is_digit, is_space, lemma_extract_digits_split, run_len, spec_extract_whitespace,
};
use crate::value::Value;

verus! {

/// A bare number, or one operator applied to two numbers.
#[derive(Debug, Clone, Copy, PartialEq, Eq, Structural)]
pub enum Expression {
    Number(Number),
    Operation { lhs: Number, rhs: Number, op: Operation },
}

/// The two-operand form at the head of `s`: number, optional spaces, operator,
/// optional spaces, number.
pub open spec fn spec_expression_op(s: Seq<char>) -> Result<(Seq<char>, Expression), Seq<char>> {
    match spec_number(s) {
        Err(e) => Err(e),
        Ok((s1, lhs)) => match spec_operation(spec_extract_whitespace(s1).0) {
            Err(e) => Err(e),
            Ok((s2, op)) => match spec_number(spec_extract_whitespace(s2).0) {
                Err(e) => Err(e),
                Ok((rest, rhs)) => Ok((rest, Expression::Operation { lhs, rhs, op })),
            },
        },
    }
}

/// A bare number at the head of `s`.
pub open spec fn spec_expression_number(s: Seq<char>) -> Result<(Seq<char>, Expression), Seq<char>> {
    match spec_number(s) {
        Err(e) => Err(e),
        Ok((rest, n)) => Ok((rest, Expression::Number(n))),
    }
}

/// An expression at the head of `s`: the two-operand form where it parses, else a bare
/// number read from the same text.
pub open spec fn spec_expression(s: Seq<char>) -> Result<(Seq<char>, Expression), Seq<char>> {
    match spec_expression_op(s) {
        Ok(p) => Ok(p),
        Err(_) => spec_expression_number(s),
    }
}

/// Integer division rounding toward zero.
pub open spec fn trunc_div(a: int, b: int) -> int {
    let q = abs(a) / abs(b);
    if (a < 0) == (b < 0) {
        q
    } else {
        -q
    }
}

pub open spec fn abs(a: int) -> int {
    if a < 0 {
        -a
    } else {
        a
    }
}

/// The mathematical value of applying `op` to `a` and `b`.
pub open spec fn apply_op(op: Operation, a: int, b: int) -> int {
    match op {
        Operation::Add => a + b,
        Operation::Sub => a - b,
        Operation::Mul => a * b,
        Operation::Div => trunc_div(a, b),
    }
}

/// The digit character of a value below ten.
pub open spec fn digit_char(d: nat) -> char {
    if d == 0 { '0' }
    else if d == 1 { '1' }
    else if d == 2 { '2' }
    else if d == 3 { '3' }
    else if d == 4 { '4' }
    else if d == 5 { '5' }
    else if d == 6 { '6' }
    else if d == 7 { '7' }
    else if d == 8 { '8' }
    else { '9' }
}

/// The decimal writing of `n`, without leading zeros.
pub open spec fn decimal(n: nat) -> Seq<char>
    decreases n,
{
    if n < 10 {
        seq![digit_char(n)]
    } else {
        decimal(n / 10).push(digit_char(n % 10))
    }
}

/// The two-operand form written without spaces, e.g. `12*34`.
pub open spec fn write_operation(lhs: Number, rhs: Number, op: Operation) -> Seq<char> {
    decimal(lhs.0 as nat) + seq![char_of_op(op)] + decimal(rhs.0 as nat)
}

proof fn lemma_decimal(n: nat)
    ensures
        decimal(n).len() > 0,
        forall|i: int| 0 <= i < decimal(n).len() ==> is_digit(#[trigger] decimal(n)[i]),
        digits_value(decimal(n)) == n,
    decreases n,
{
    if n >= 10 {
        lemma_decimal(n / 10);
        let d = decimal(n / 10);
        assert(decimal(n).drop_last() =~= d);
        assert(digit_value(digit_char(n % 10)) == n % 10);
        assert(decimal(n).last() == digit_char(n % 10));
        assert(digits_value(decimal(n)) == digits_value(d) * 10 + digit_value(digit_char(n % 10)));
        assert((n / 10) * 10 + n % 10 == n);
    } else {
        assert(digit_value(digit_char(n)) == n);
        assert(decimal(n).drop_last() =~= Seq::<char>::empty());
        assert(decimal(n).last() == digit_char(n));
        assert(digits_value(decimal(n)) == digits_value(Seq::<char>::empty()) * 10 + digit_value(digit_char(n)));
    }
}

/// A number written in decimal and followed by text that does not start with a digit
/// parses back to itself.
proof fn lemma_number_round_trip(n: Number, rest: Seq<char>)
    requires
        n.0 >= 0,
        rest.len() == 0 || !is_digit(rest[0]),
    ensures
        spec_number(decimal(n.0 as nat) + rest) == Ok::<(Seq<char>, Number), Seq<char>>((rest, n)),
{
    lemma_decimal(n.0 as nat);
    lemma_extract_digits_split(decimal(n.0 as nat), rest);
}

/// Text that does not start with a space loses nothing to optional whitespace.
proof fn lemma_no_leading_space(s: Seq<char>)
    requires
        s.len() > 0,
        !is_space(s[0]),
    ensures
        spec_extract_whitespace(s).0 == s,
{
    assert(run_len(s, |c: char| is_space(c)) == 0);
    assert(s.skip(0) =~= s);
}

/// Writing out a two-operand expression with non-negative operands and parsing the text
/// gives back the same operands and operator, with nothing left over.
pub proof fn lemma_operation_round_trip(lhs: Number, rhs: Number, op: Operation)
    requires
        lhs.0 >= 0,
        rhs.0 >= 0,
    ensures
        spec_expression(write_operation(lhs, rhs, op))
            == Ok::<(Seq<char>, Expression), Seq<char>>((Seq::<char>::empty(), Expression::Operation { lhs, rhs, op })),
{
    let a = decimal(lhs.0 as nat);
    let b = decimal(rhs.0 as nat);
    let tail = seq![char_of_op(op)] + b;
    assert(write_operation(lhs, rhs, op) =~= a + tail);
    assert(tail[0] == char_of_op(op));
    lemma_number_round_trip(lhs, tail);
    lemma_no_leading_space(tail);
    assert(tail.skip(1) =~= b);
    assert(op_of_char(char_of_op(op)) == op);
    lemma_decimal(rhs.0 as nat);
    lemma_no_leading_space(b);
    assert(b + Seq::<char>::empty() =~= b);
    lemma_number_round_trip(rhs, Seq::<char>::empty());
}

impl Expression {
    /// The mathematical value of the expression.
    pub open spec fn spec_eval(self) -> int {
        match self {
            Expression::Number(n) => n.0 as int,
            Expression::Operation { lhs, rhs, op } => apply_op(op, lhs.0 as int, rhs.0 as int),
        }
    }

    /// The expression has a value in `i32`: no division by zero and no overflow.
    pub open spec fn is_evaluable(self) -> bool {
        &&& i32::MIN <= self.spec_eval() <= i32::MAX
        &&& match self {
            Expression::Operation { rhs, op: Operation::Div, .. } => rhs.0 != 0,
            _ => true,
        }
    }

    /// Parses an expression at the head of `s`.
    pub fn new(s: &str) -> (r: Result<(&str, Expression), String>)
        ensures
            match r {
                Ok((rest, e)) => spec_expression(s@) == Ok::<(Seq<char>, Expression), Seq<char>>((rest@, e)),
                Err(e) => spec_expression(s@) == Err::<(Seq<char>, Expression), Seq<char>>(e@),
            },
    {
        match Self::new_operations(s) {
            Ok(p) => Ok(p),
            Err(_) => Self::new_number(s),
        }
    }

    fn new_operations(s: &str) -> (r: Result<(&str, Expression), String>)
        ensures
            match r {
                Ok((rest, e)) => spec_expression_op(s@) == Ok::<(Seq<char>, Expression), Seq<char>>((rest@, e)),
                Err(e) => spec_expression_op(s@) == Err::<(Seq<char>, Expression), Seq<char>>(e@),
            },
    {
        let (s1, lhs) = match Number::new(s) {
            Ok(p) => p,
            Err(e) => return Err(e),
        };
        let (s2, _) = extract_whitespace(s1);
        let (s3, op) = match Operation::new(s2) {
            Ok(p) => p,
            Err(e) => return Err(e),
        };
        let (s4, _) = extract_whitespace(s3);
        let (rest, rhs) = match Number::new(s4) {
            Ok(p) => p,
            Err(e) => return Err(e),
        };
        Ok((rest, Expression::Operation { lhs, rhs, op }))
    }

    fn new_number(s: &str) -> (r: Result<(&str, Expression), String>)
        ensures
            match r {
                Ok((rest, e)) => spec_expression_number(s@) == Ok::<(Seq<char>, Expression), Seq<char>>((rest@, e)),
                Err(e) => spec_expression_number(s@) == Err::<(Seq<char>, Expression), Seq<char>>(e@),
            },
    {
        match Number::new(s) {
            Ok((rest, n)) => Ok((rest, Expression::Number(n))),
            Err(e) => Err(e),
        }
    }

    /// Evaluates the expression; division rounds toward zero.
    pub fn evaluate(&self) -> (r: Value)
        requires
            self.is_evaluable(),
        ensures
            r == Value::Number(self.spec_eval() as i32),
    {
        match self {
            Expression::Number(n) => Value::Number(n.0),
            Expression::Operation { lhs, rhs, op } => {
                let a = lhs.0 as i64;
                let b = rhs.0 as i64;
                let result: i64 = match op {
                    Operation::Add => a + b,
                    Operation::Sub => a - b,
                    Operation::Mul => {
                        assert(-0x8000_0000 * 0x8000_0000 <= a * b <= 0x8000_0000 * 0x8000_0000)
                            by (nonlinear_arith)
                            requires
                                -0x8000_0000 <= a <= 0x7fff_ffff,
                                -0x8000_0000 <= b <= 0x7fff_ffff,
                        ;
                        a * b
                    },
                    Operation::Div => {
                        let a_abs: i64 = if a < 0 { -a } else { a };
                        let b_abs: i64 = if b < 0 { -b } else { b };
                        let q = a_abs / b_abs;
                        if (a < 0) == (b < 0) {
                            q
                        } else {
                            -q
                        }
                    },
                };
                Value::Number(result as i32)
            },
        }
    }
}

} // verus!
