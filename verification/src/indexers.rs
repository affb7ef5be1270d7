//! Typed indices into the tables of a program layout.
use vstd::prelude::*;

verus! {

/// Index of a scope.
#[derive(Debug, Clone, Copy, PartialEq, Eq, Structural, PartialOrd, Ord, Hash)]
pub struct ScopeIndex(pub usize);

/// Index of a class.
#[derive(Debug, Clone, Copy, PartialEq, Eq, Structural, PartialOrd, Ord, Hash)]
pub struct ClassIndex(pub usize);

/// Index of a function.
#[derive(Debug, Clone, Copy, PartialEq, Eq, Structural, PartialOrd, Ord, Hash)]
pub struct FuncIndex(pub usize);

/// Index of a global value.
#[derive(Debug, Clone, Copy, PartialEq, Eq, Structural, PartialOrd, Ord, Hash)]
pub struct GlobalIndex(pub usize);

impl ScopeIndex {
    pub open spec fn index(&self) -> usize {
        self.0
    }

    pub fn new(raw: usize) -> (i: Self)
        ensures
            i.index() == raw,
    {
        ScopeIndex(raw)
    }

    pub fn raw(&self) -> (r: usize)
        ensures
            r == self.index(),
    {
        self.0
    }

    /// The root scope, index 0.
    pub fn root() -> (i: Self)
        ensures
            i.index() == 0,
    {
        ScopeIndex(0)
    }
}

impl ClassIndex {
    pub open spec fn index(&self) -> usize {
        self.0
    }

    pub fn new(raw: usize) -> (i: Self)
        ensures
            i.index() == raw,
    {
        ClassIndex(raw)
    }

    pub fn raw(&self) -> (r: usize)
        ensures
            r == self.index(),
    {
        self.0
    }
}

impl FuncIndex {
    pub open spec fn index(&self) -> usize {
        self.0
    }

    pub fn new(raw: usize) -> (i: Self)
        ensures
            i.index() == raw,
    {
        FuncIndex(raw)
    }

    pub fn raw(&self) -> (r: usize)
        ensures
            r == self.index(),
    {
        self.0
    }
}

impl GlobalIndex {
    pub open spec fn index(&self) -> usize {
        self.0
    }

    pub fn new(raw: usize) -> (i: Self)
        ensures
            i.index() == raw,
    {
        GlobalIndex(raw)
    }

    pub fn raw(&self) -> (r: usize)
        ensures
            r == self.index(),
    {
        self.0
    }
}

} // verus!
