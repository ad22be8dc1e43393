use vstd::prelude::*;
use crate::environment::Environment;
use crate::expression::{spec_expression, Expression};
use crate::utils::{
    extract_ident, extract_whitespace, extract_whitespace1, spec_extract_ident,
    spec_extract_whitespace, spec_extract_whitespace1, spec_tag, tag,
};
use crate::value::Value;

verus! {

/// The statement `let <name> = <expression>`.
#[derive(Debug, PartialEq)]
pub struct BindingDef {
    pub name: String,
    pub value: Expression,
}

/// A binding definition at the head of `s`, as its name and expression: `let`, at least one
/// space, an identifier, optional spaces, `=`, optional spaces, an expression.
pub open spec fn spec_binding_def(s: Seq<char>) -> Result<(Seq<char>, (Seq<char>, Expression)), Seq<char>> {
    match spec_tag("let"@, s) {
        Err(e) => Err(e),
        Ok(s1) => match spec_extract_whitespace1(s1) {
            Err(e) => Err(e),
            Ok((s2, _)) => match spec_extract_ident(s2) {
                Err(e) => Err(e),
                Ok((s3, name)) => match spec_tag("="@, spec_extract_whitespace(s3).0) {
                    Err(e) => Err(e),
                    Ok(s4) => match spec_expression(spec_extract_whitespace(s4).0) {
                        Err(e) => Err(e),
                        Ok((rest, value)) => Ok((rest, (name, value))),
                    },
                },
            },
        },
    }
}

impl BindingDef {
    /// Parses a binding definition at the head of `s`.
    pub fn new(s: &str) -> (r: Result<(&str, BindingDef), String>)
        ensures
            match r {
                Ok((rest, d)) => spec_binding_def(s@)
                    == Ok::<(Seq<char>, (Seq<char>, Expression)), Seq<char>>((rest@, (d.name@, d.value))),
                Err(e) => spec_binding_def(s@) == Err::<(Seq<char>, (Seq<char>, Expression)), Seq<char>>(e@),
            },
    {
        let s = match tag("let", s) {
            Ok(p) => p,
            Err(e) => return Err(e),
        };
        let (s, _) = match extract_whitespace1(s) {
            Ok(p) => p,
            Err(e) => return Err(e),
        };
        let (s, name) = match extract_ident(s) {
            Ok(p) => p,
            Err(e) => return Err(e),
        };
        let (s, _) = extract_whitespace(s);
        let s = match tag("=", s) {
            Ok(p) => p,
            Err(e) => return Err(e),
        };
        let (s, _) = extract_whitespace(s);
        let (s, value) = match Expression::new(s) {
            Ok(p) => p,
            Err(e) => return Err(e),
        };
        Ok((s, BindingDef { name: String::from_str(name), value }))
    }

    /// Evaluates the expression and stores its value under the name, replacing any earlier one.
    pub fn evaluate(&self, environment: &mut Environment)
        requires
            old(environment).wf(),
            self.value.is_evaluable(),
        ensures
            final(environment).wf(),
            final(environment).view() == old(environment).view().insert(
                self.name@,
                Value::Number(self.value.spec_eval() as i32),
            ),
    {
        environment.store_binding(self.name.clone(), self.value.evaluate());
    }
}

} // verus!
