//! Function signature values, used when the extrinsic imports of a module
//! are resolved: the engine checks a call's signature before surfacing the
//! interrupt, so the core can treat arity as settled.

use vstd::prelude::*;

verus! {

/// Type of a WebAssembly value.
#[derive(Debug, Copy, Clone, PartialEq, Eq, Structural, Hash)]
pub enum ValueType {
    /// 32-bit integer.
    I32,
    /// 64-bit integer.
    I64,
    /// 32-bit floating point.
    F32,
    /// 64-bit floating point.
    F64,
}

/// Signature of an imported or exported function.
#[derive(Debug, Clone)]
pub struct Signature {
    /// Parameter types, in order.
    pub params: Vec<ValueType>,
    /// Return type, if the function returns a value.
    pub ret_ty: Option<ValueType>,
}

impl Signature {
    /// Builds a signature from its parts.
    pub fn new(params: Vec<ValueType>, ret_ty: Option<ValueType>) -> (r: Signature)
        ensures
            r.params@ == params@,
            r.ret_ty == ret_ty,
    {
        Signature { params, ret_ty }
    }

    /// Two signatures accept the same calls.
    pub fn matches(&self, other: &Signature) -> (r: bool)
        ensures
            r == (self.params@ == other.params@ && self.ret_ty == other.ret_ty),
    {
        if self.params.len() != other.params.len() {
            proof {
                assert(self.params@.len() != other.params@.len());
            }
            return false;
        }
        let mut i: usize = 0;
        while i < self.params.len()
            invariant
                i <= self.params@.len(),
                self.params@.len() == other.params@.len(),
                forall|j: int| 0 <= j < i ==> self.params@[j] == other.params@[j],
            decreases self.params@.len() - i,
        {
            if self.params[i] != other.params[i] {
                return false;
            }
            i += 1;
        }
        proof {
            assert(self.params@ =~= other.params@);
        }
        match (&self.ret_ty, &other.ret_ty) {
            (None, None) => true,
            (Some(a), Some(b)) => *a == *b,
            _ => false,
        }
    }
}

} // verus!
