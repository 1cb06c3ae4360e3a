//! Composition in place of inheritance: a node type holds its shared base as
//! a named field and exposes it through this trait.
use vstd::prelude::*;

verus! {

/// A node type that owns one instance of the base type `B`.
pub trait Inherited<B> {
    /// The embedded base.
    fn base(&self) -> &B;
}

} // verus!
