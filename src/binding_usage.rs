use vstd::prelude::*;
use crate::environment::{msg_binding_not_found, Environment};
use crate::utils::{extract_ident, spec_extract_ident};
use crate::value::Value;

verus! {

/// A reference to a binding by its name.
#[derive(Debug, PartialEq)]
pub struct BindingUsage {
    pub name: String,
}

impl BindingUsage {
    /// Parses the identifier at the head of `s` as a binding usage.
    pub fn new(s: &str) -> (r: Result<(&str, BindingUsage), String>)
        ensures
            match r {
                Ok((rest, u)) => spec_extract_ident(s@) == Ok::<(Seq<char>, Seq<char>), Seq<char>>((rest@, u.name@)),
                Err(e) => spec_extract_ident(s@) == Err::<(Seq<char>, Seq<char>), Seq<char>>(e@),
            },
    {
        let (rest, name) = match extract_ident(s) {
            Ok(p) => p,
            Err(e) => return Err(e),
        };
        Ok((rest, BindingUsage { name: String::from_str(name) }))
    }

    /// The value bound to this name in `env`, or an error naming it when there is none.
    pub fn evaluate(&self, env: &Environment) -> (r: Result<Value, String>)
        requires
            env.wf(),
        ensures
            match r {
                Ok(v) => env.view().contains_key(self.name@) && env.view()[self.name@] == v,
                Err(e) => !env.view().contains_key(self.name@) && e@ == msg_binding_not_found(self.name@),
            },
    {
        env.get_binding_value(self.name.as_str())
    }
}

} // verus!
