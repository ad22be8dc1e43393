use vstd::prelude::*;
use crate::utils::{extract_digits, is_digit, spec_extract_digits};

verus! {

/// A parsed integer literal.
#[derive(Debug, Clone, Copy, PartialEq, Eq, Structural)]
pub struct Number(pub i32);

/// The value of one ASCII digit.
pub open spec fn digit_value(c: char) -> int {
    (c as u32) as int - ('0' as u32) as int
}

/// The value of a string of decimal digits, most significant first.
pub open spec fn digits_value(d: Seq<char>) -> int
    decreases d.len(),
{
    if d.len() == 0 {
        0
    } else {
        digits_value(d.drop_last()) * 10 + digit_value(d.last())
    }
}

pub open spec fn msg_out_of_range() -> Seq<char> {
    "number out of range"@
}

/// A number literal at the head of `s`; its digits must denote a value that fits in `i32`.
pub open spec fn spec_number(s: Seq<char>) -> Result<(Seq<char>, Number), Seq<char>> {
    match spec_extract_digits(s) {
        Err(e) => Err(e),
        Ok((rest, d)) => if digits_value(d) <= i32::MAX {
            Ok((rest, Number(digits_value(d) as i32)))
        } else {
            Err(msg_out_of_range())
        },
    }
}

/// A digit string never decreases in value when digits are appended.
proof fn lemma_digits_value_grows(d: Seq<char>, k: int)
    requires
        0 <= k <= d.len(),
        forall|i: int| 0 <= i < d.len() ==> is_digit(#[trigger] d[i]),
    ensures
        0 <= digits_value(d.take(k)) <= digits_value(d),
    decreases d.len(),
{
    if d.len() > 0 {
        let init = d.drop_last();
        if k < d.len() {
            assert(init.take(k) =~= d.take(k));
            lemma_digits_value_grows(init, k);
        } else {
            assert(d.take(k) =~= d);
            lemma_digits_value_grows(init, k - 1);
            assert(init.take(k - 1) =~= init);
        }
    } else {
        assert(d.take(k) =~= d);
    }
}

impl Number {
    /// Parses the digit run at the head of `s` as a number.
    pub fn new(s: &str) -> (r: Result<(&str, Number), String>)
        ensures
            match r {
                Ok((rest, n)) => spec_number(s@) == Ok::<(Seq<char>, Number), Seq<char>>((rest@, n)),
                Err(e) => spec_number(s@) == Err::<(Seq<char>, Number), Seq<char>>(e@),
            },
    {
        let (rest, digits) = match extract_digits(s) {
            Ok(p) => p,
            Err(e) => return Err(e),
        };
        let n = digits.unicode_len();
        let mut acc: i64 = 0;
        let mut i: usize = 0;
        while i < n
            invariant
                spec_extract_digits(s@) == Ok::<(Seq<char>, Seq<char>), Seq<char>>((rest@, digits@)),
                n == digits@.len(),
                i <= n,
                forall|j: int| 0 <= j < digits@.len() ==> is_digit(#[trigger] digits@[j]),
                acc == digits_value(digits@.take(i as int)),
                0 <= acc <= i32::MAX,
            decreases n - i,
        {
            let c = digits.get_char(i);
            assert(is_digit(digits@[i as int]));
            let v = (c as u32 - '0' as u32) as i64;
            assert(digits@.take(i as int + 1).drop_last() =~= digits@.take(i as int));
            assert(digits@.take(i as int + 1).last() == digits@[i as int]);
            acc = acc * 10 + v;
            i = i + 1;
            assert(acc == digits_value(digits@.take(i as int)));
            if acc > i32::MAX as i64 {
                proof {
                    lemma_digits_value_grows(digits@, i as int);
                }
                return Err(String::from_str("number out of range"));
            }
        }
        assert(digits@.take(n as int) =~= digits@);
        Ok((rest, Number(acc as i32)))
    }
}

} // verus!
