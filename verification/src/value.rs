//! What a runtime class instance is an instance of, and the kinds of values.
use std::any::TypeId;
use vstd::prelude::*;

use crate::indexers::ClassIndex;

verus! {

#[verifier::external_type_specification]
#[verifier::external_body]
pub struct ExTypeId(TypeId);

/// What a class instance is an instance of: a native Rust type or a script class.
#[derive(Debug, Clone, Copy, PartialEq, Eq, PartialOrd, Ord, Hash)]
pub enum ClassKind {
    Native(TypeId),
    Script(ClassIndex),
}

/// The kind of value a field or an input can hold.
#[derive(Debug, Clone, Copy, PartialEq, Eq, PartialOrd, Ord, Hash)]
pub enum ValueKind {
    Any,
    NoneValue,
    Bool,
    Int,
    Float,
    Str,
    Class(ClassIndex),
}

} // verus!
