//! The compiler interface: a pure lowering from a policy to a target
//! authorization-policy document.

use vstd::prelude::*;

use crate::policy::Policy;

verus! {

/// A lowering from a policy to one policy document. Implementations
/// must be deterministic: the same policy always yields byte-identical
/// text, so that generated documents stay diffable.
pub trait PolicyCompiler {
    fn compile_policy(&self, policy: &Policy) -> String;
}

} // verus!
