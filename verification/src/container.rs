//! A container expression: one of the four grouping forms an expression can
//! take. Only the container's shape and construction live here; evaluation
//! of the grouped expressions belongs to the surrounding expression
//! language, not to this crate.

use vstd::prelude::*;

verus! {

/// A parenthesised group.
#[derive(Debug, Clone, Copy, PartialEq, Eq, Structural)]
pub struct Group;

/// A block of statements.
#[derive(Debug, Clone, Copy, PartialEq, Eq, Structural)]
pub struct Block;

/// An array literal.
#[derive(Debug, Clone, Copy, PartialEq, Eq, Structural)]
pub struct Array;

/// An object literal.
#[derive(Debug, Clone, Copy, PartialEq, Eq, Structural)]
pub struct Object;

/// The form a container expression takes.
#[derive(Debug, Clone, Copy, PartialEq, Eq, Structural)]
pub enum Variant {
    Group(Group),
    Block(Block),
    Array(Array),
    Object(Object),
}

/// A container expression: its variant says which grouping form it is.
#[derive(Debug, Clone, Copy, PartialEq, Eq, Structural)]
pub struct Container {
    pub variant: Variant,
}

impl Container {
    /// Wraps a variant as a container expression.
    #[must_use]
    pub fn new(variant: Variant) -> (r: Self)
        ensures
            r.variant == variant,
    {
        Container { variant }
    }
}

} // verus!
