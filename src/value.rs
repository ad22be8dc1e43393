use vstd::prelude::*;

verus! {

/// The result of evaluating an expression or a binding usage.
#[derive(Debug, Clone, Copy, PartialEq, Eq, Structural)]
pub enum Value {
    Number(i32),
}

} // verus!
