use letcalc::binding_def::BindingDef;
use letcalc::binding_usage::BindingUsage;
use letcalc::expression::Expression;
use letcalc::number::Number;
use letcalc::operations::Operation;
use letcalc::utils::{extract_digits, extract_ident, extract_op, extract_whitespace, extract_whitespace1, tag, take_while};

#[test]
fn parse_number() {
    assert_eq!(Number::new("123"), Ok(("", Number(123))));
}

#[test]
fn parse_add_op() {
    assert_eq!(Operation::new("+"), Ok(("", Operation::Add)));
}

#[test]
fn parse_sub_op() {
    assert_eq!(Operation::new("-"), Ok(("", Operation::Sub)));
}

#[test]
fn parse_mul_op() {
    assert_eq!(Operation::new("*"), Ok(("", Operation::Mul)));
}

#[test]
fn parse_div_op() {
    assert_eq!(Operation::new("/"), Ok(("", Operation::Div)));
}

#[test]
fn parse_one_plus_two() {
    assert_eq!(
        Expression::new("1 + 2"),
        Ok((
            "",
            Expression::Operation {
                lhs: Number(1),
                rhs: Number(2),
                op: Operation::Add,
            },
        )),
    );
}

#[test]
fn extract_one_digit() {
    assert_eq!(extract_digits("1+2"), Ok(("+2", "1")));
}

#[test]
fn extract_multiple_digit() {
    assert_eq!(extract_digits("10-20"), Ok(("-20", "10")));
}

#[test]
fn do_not_extract_digits_when_input_is_invalid() {
    assert_eq!(extract_digits("abcd"), Err("expected digits".to_string()));
}

#[test]
fn extract_digits_with_no_remainder() {
    assert_eq!(extract_digits("100"), Ok(("", "100")));
}

#[test]
fn extract_spaces() {
    assert_eq!(extract_whitespace("   1"), ("1", "   "));
}

#[test]
fn parse_binding_def() {
    assert_eq!(
        BindingDef::new("let a = 10 / 2"),
        Ok((
            "",
            BindingDef {
                name: "a".to_string(),
                value: Expression::Operation {
                    lhs: Number(10),
                    rhs: Number(2),
                    op: Operation::Div,
                },
            },
        )),
    );
}

#[test]
fn extract_alphabetical_ident() {
    assert_eq!(extract_ident("abcdEFG stop"), Ok((" stop", "abcdEFG")));
}

#[test]
fn extract_alphanumerical_ident() {
    assert_eq!(extract_ident("footbar1()"), Ok(("()", "footbar1")));
}

#[test]
fn cannot_extract_ident_beginning_with_number() {
    assert_eq!(
        extract_ident("123abc"),
        Err("expected identifier".to_string()),
    );
}

#[test]
fn tag_word() {
    assert_eq!(tag("let", "let a"), Ok(" a"));
}

#[test]
fn parse_number_as_expression() {
    assert_eq!(
        Expression::new("456"),
        Ok(("", Expression::Number(Number(456))))
    );
}

#[test]
fn do_not_extract_spaces1_when_does_not_start_with_them() {
    assert_eq!(
        extract_whitespace1("blah"),
        Err("expected a space".to_string()),
    );
}

#[test]
fn cannot_parse_binding_def_without_space_after_let() {
    assert_eq!(
        BindingDef::new("letaaa=1+2"),
        Err("expected a space".to_string())
    );
}

#[test]
fn parse_binding_usage() {
    assert_eq!(
        BindingUsage::new("abc"),
        Ok((
            "",
            BindingUsage {
                name: "abc".to_string(),
            }
        ))
    );
}

#[test]
fn extract_digits_of_empty_text_fails() {
    assert_eq!(extract_digits(""), Err("expected digits".to_string()));
}

#[test]
fn extract_digits_splits_digit_run_from_suffix() {
    assert_eq!(extract_digits("0042abc9"), Ok(("abc9", "0042")));
}

#[test]
fn extract_ident_splits_identifier_from_suffix() {
    assert_eq!(extract_ident("x9y = 3"), Ok((" = 3", "x9y")));
    assert_eq!(extract_ident(""), Err("expected identifier".to_string()));
}

#[test]
fn extract_whitespace_with_no_spaces() {
    assert_eq!(extract_whitespace("abc"), ("abc", ""));
    assert_eq!(extract_whitespace1("  x"), Ok(("x", "  ")));
}

#[test]
fn take_while_stops_at_first_rejected_char() {
    assert_eq!(take_while(|c| c == 'a', "aab"), ("b", "aa"));
    assert_eq!(take_while(|c| c == 'z', "aab"), ("aab", ""));
}

#[test]
fn extract_op_rejects_other_chars_and_empty_text() {
    assert_eq!(extract_op("+1"), Ok(("1", "+")));
    assert_eq!(extract_op("%1"), Err("expected operator".to_string()));
    assert_eq!(extract_op(""), Err("expected operator".to_string()));
    assert_eq!(Operation::new("x"), Err("expected operator".to_string()));
}

#[test]
fn tag_mismatch_names_the_literal() {
    assert_eq!(tag("=", "+ 1"), Err("expected =".to_string()));
    assert_eq!(tag("let", "le"), Err("expected let".to_string()));
}

#[test]
fn number_out_of_range_is_an_error() {
    assert_eq!(Number::new("2147483647 "), Ok((" ", Number(2147483647))));
    assert_eq!(Number::new("2147483648"), Err("number out of range".to_string()));
    assert_eq!(Number::new("99999999999999999999"), Err("number out of range".to_string()));
}

#[test]
fn expression_falls_back_to_bare_number() {
    assert_eq!(
        Expression::new("7 + x"),
        Ok((" + x", Expression::Number(Number(7))))
    );
    assert_eq!(Expression::new("x"), Err("expected digits".to_string()));
}

#[test]
fn expression_round_trip_of_two_operand_form() {
    assert_eq!(
        Expression::new("12*34rest"),
        Ok((
            "rest",
            Expression::Operation {
                lhs: Number(12),
                rhs: Number(34),
                op: Operation::Mul,
            }
        ))
    );
}

#[test]
fn binding_def_errors_at_each_step() {
    assert_eq!(BindingDef::new("var a = 1"), Err("expected let".to_string()));
    assert_eq!(BindingDef::new("let 1 = 1"), Err("expected identifier".to_string()));
    assert_eq!(BindingDef::new("let a 1"), Err("expected =".to_string()));
    assert_eq!(BindingDef::new("let a = b"), Err("expected digits".to_string()));
}

#[test]
fn binding_usage_requires_identifier() {
    assert_eq!(BindingUsage::new("1abc"), Err("expected identifier".to_string()));
}
