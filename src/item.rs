//! Classification flags: algebraic facts about a value, computed on demand.
use vstd::prelude::*;

verus! {

/// One algebraic fact that a classification may hold.
#[derive(Debug, Clone, Copy, PartialEq, Eq, Structural, Hash)]
pub enum Flag {
    Rational,
    Integer,
    /// The magnitude is exactly one.
    UOne,
    Zero,
    Pos,
    Neg,
}

/// A set of flags.
#[derive(Debug, Clone, Copy, PartialEq, Eq, Structural, Hash)]
pub struct Item {
    pub rational: bool,
    pub integer: bool,
    pub unit_one: bool,
    pub zero: bool,
    pub pos: bool,
    pub neg: bool,
}

impl Item {
    /// Whether flag `f` is in the set.
    pub open spec fn contains(self, f: Flag) -> bool {
        match f {
            Flag::Rational => self.rational,
            Flag::Integer => self.integer,
            Flag::UOne => self.unit_one,
            Flag::Zero => self.zero,
            Flag::Pos => self.pos,
            Flag::Neg => self.neg,
        }
    }

    /// The empty set.
    pub fn empty() -> (r: Item)
        ensures
            forall|f: Flag| !r.contains(f),
    {
        Item { rational: false, integer: false, unit_one: false, zero: false, pos: false, neg: false }
    }

    /// Whether flag `f` is in the set.
    pub fn has(&self, f: Flag) -> (r: bool)
        ensures
            r == self.contains(f),
    {
        match f {
            Flag::Rational => self.rational,
            Flag::Integer => self.integer,
            Flag::UOne => self.unit_one,
            Flag::Zero => self.zero,
            Flag::Pos => self.pos,
            Flag::Neg => self.neg,
        }
    }

    /// The set with flag `f` added.
    pub fn with(self, f: Flag) -> (r: Item)
        ensures
            forall|g: Flag| #[trigger] r.contains(g) == (self.contains(g) || g == f),
    {
        let mut r = self;
        match f {
            Flag::Rational => r.rational = true,
            Flag::Integer => r.integer = true,
            Flag::UOne => r.unit_one = true,
            Flag::Zero => r.zero = true,
            Flag::Pos => r.pos = true,
            Flag::Neg => r.neg = true,
        }
        r
    }
}

/// A value that can say which algebraic facts hold of it.
pub trait CalcursType {
    /// The facts that hold of the value.
    spec fn desc_spec(&self) -> Item;

    /// Computes the facts that hold of the value.
    fn desc(&self) -> (r: Item)
        ensures
            r == self.desc_spec(),
    ;
}

} // verus!
