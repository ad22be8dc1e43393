use vstd::prelude::*;
use crate::utils::{extract_op, spec_extract_op};

verus! {

/// One of the four binary arithmetic operators.
#[derive(Debug, Clone, Copy, PartialEq, Eq, Structural)]
pub enum Operation {
    Add,
    Sub,
    Mul,
    Div,
}

/// The operator a character denotes; only meaningful on operator characters.
pub open spec fn op_of_char(c: char) -> Operation {
    if c == '+' {
        Operation::Add
    } else if c == '-' {
        Operation::Sub
    } else if c == '*' {
        Operation::Mul
    } else {
        Operation::Div
    }
}

/// The character that writes an operator.
pub open spec fn char_of_op(op: Operation) -> char {
    match op {
        Operation::Add => '+',
        Operation::Sub => '-',
        Operation::Mul => '*',
        Operation::Div => '/',
    }
}

/// An operator at the head of `s`.
pub open spec fn spec_operation(s: Seq<char>) -> Result<(Seq<char>, Operation), Seq<char>> {
    match spec_extract_op(s) {
        Err(e) => Err(e),
        Ok((rest, t)) => Ok((rest, op_of_char(t[0]))),
    }
}

impl Operation {
    /// Parses the operator character at the head of `s`.
    pub fn new(s: &str) -> (r: Result<(&str, Operation), String>)
        ensures
            match r {
                Ok((rest, op)) => spec_operation(s@) == Ok::<(Seq<char>, Operation), Seq<char>>((rest@, op)),
                Err(e) => spec_operation(s@) == Err::<(Seq<char>, Operation), Seq<char>>(e@),
            },
    {
        let (rest, op) = match extract_op(s) {
            Ok(p) => p,
            Err(e) => return Err(e),
        };
        let c = op.get_char(0);
        let op = if c == '+' {
            Operation::Add
        } else if c == '-' {
            Operation::Sub
        } else if c == '*' {
            Operation::Mul
        } else if c == '/' {
            Operation::Div
        } else {
            return Err(String::from_str("expected operator"));
        };
        Ok((rest, op))
    }
}

} // verus!
