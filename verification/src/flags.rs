//! Class flags.
use vstd::prelude::*;

verus! {

/// A set of class flags, one bit each.
#[derive(Clone, Copy, Debug, PartialEq, Eq, Structural)]
pub struct Flags {
    pub bits: usize,
}

/// Bit of [`Flags::META`].
pub const META_BIT: usize = 1;

/// Bit of [`Flags::USER_CREATED`].
pub const USER_CREATED_BIT: usize = 2;

impl Flags {
    /// Whether every flag of `other` is set in `self`.
    pub open spec fn contains_spec(self, other: Flags) -> bool {
        self.bits & other.bits == other.bits
    }

    /// The flags of `self` together with those of `other`.
    pub open spec fn union_spec(self, other: Flags) -> Flags {
        Flags { bits: self.bits | other.bits }
    }

    /// The flags of a class that was made through the runtime's interface.
    pub open spec fn user_class() -> Flags {
        Flags { bits: 2 }
    }

    /// The flags of a metaclass that was made through the runtime's interface.
    pub open spec fn user_metaclass() -> Flags {
        Flags { bits: 3 }
    }

    /// Whether the metaclass flag is set.
    pub open spec fn is_meta(self) -> bool {
        self.bits & META_BIT == META_BIT
    }

    /// Whether the user-created flag is set.
    pub open spec fn is_user_created(self) -> bool {
        self.bits & USER_CREATED_BIT == USER_CREATED_BIT
    }

    /// No flag.
    pub fn empty() -> (r: Flags)
        ensures
            r.bits == 0,
            !r.is_meta(),
            !r.is_user_created(),
    {
        assert(0usize & 1usize != 1usize && 0usize & 2usize != 2usize) by (bit_vector);
        Flags { bits: 0 }
    }

    /// The record is a metaclass.
    pub fn META() -> (r: Flags)
        ensures
            r.bits == META_BIT,
            r.is_meta(),
            !r.is_user_created(),
    {
        assert(1usize & 1usize == 1usize && 1usize & 2usize != 2usize) by (bit_vector);
        Flags { bits: META_BIT }
    }

    /// The record was made through the runtime's interface.
    pub fn USER_CREATED() -> (r: Flags)
        ensures
            r.bits == USER_CREATED_BIT,
            !r.is_meta(),
            r.is_user_created(),
    {
        assert(2usize & 1usize != 1usize && 2usize & 2usize == 2usize) by (bit_vector);
        Flags { bits: USER_CREATED_BIT }
    }

    pub fn bits(&self) -> (r: usize)
        ensures
            r == self.bits,
    {
        self.bits
    }

    /// Whether every flag of `other` is set in `self`.
    pub fn contains(&self, other: Flags) -> (r: bool)
        ensures
            r == self.contains_spec(other),
    {
        self.bits & other.bits == other.bits
    }

    /// The flags of `self` together with those of `other`: a flag is set in
    /// the union exactly when it is set in one of the two.
    pub fn union(self, other: Flags) -> (r: Flags)
        ensures
            r == self.union_spec(other),
            r.is_meta() == (self.is_meta() || other.is_meta()),
            r.is_user_created() == (self.is_user_created() || other.is_user_created()),
    {
        let a: usize = self.bits;
        let b: usize = other.bits;
        assert(((a | b) & 1usize == 1usize) == (a & 1usize == 1usize || b & 1usize == 1usize))
            by (bit_vector);
        assert(((a | b) & 2usize == 2usize) == (a & 2usize == 2usize || b & 2usize == 2usize))
            by (bit_vector);
        Flags { bits: a | b }
    }
}

impl Default for Flags {
    fn default() -> (r: Flags)
        ensures
            r.bits == 0,
    {
        Flags { bits: 0 }
    }
}

} // verus!
