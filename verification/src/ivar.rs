//! Instance-variable records.
use pow_of_2::PowOf2;
use vstd::arithmetic::power2::{is_pow2, pow2};
use vstd::prelude::*;

verus! {

/// One instance variable of a class.
///
/// `offset` is where the variable starts in the class's ivar block. It is
/// assigned once, when the variable is added to a class.
pub struct objc_ivar {
    pub name: String,
    pub size: usize,
    pub alignment: usize,
    pub offset: usize,
    pub types: String,
}

/// Calls `pow_of_2::PowOf2::<usize>::from_exp` and then `PowOf2::to_uint`.
///
/// Trusted: for an exponent below the width of `usize` the result is two to
/// that power. `from_exp` panics on any other exponent, which `requires` leaves out.
#[verifier::external_body]
fn power_of_two(exp: u8) -> (r: usize)
    requires
        exp < usize::BITS,
    ensures
        r == pow2(exp as nat),
{
    PowOf2::<usize>::from_exp(exp).to_uint()
}

impl objc_ivar {
    /// The alignment is a power of two.
    pub open spec fn wf(&self) -> bool {
        is_pow2(self.alignment as int)
    }

    /// Where the variable ends in the ivar block.
    pub open spec fn end(&self) -> int {
        self.offset + self.size
    }

    /// An ivar of `size` bytes, aligned to two to the power `alignment`, not
    /// yet placed in any class.
    pub fn new(name: String, size: usize, alignment: u8, types: String) -> (r: objc_ivar)
        requires
            alignment < usize::BITS,
        ensures
            r.name == name,
            r.size == size,
            r.alignment == pow2(alignment as nat),
            r.offset == 0,
            r.types == types,
            r.wf(),
    {
        let align = power_of_two(alignment);
        proof {
            vstd::arithmetic::power2::is_pow2_equiv(align as int);
            vstd::arithmetic::power::lemma_pow_positive(2, alignment as nat);
            assert(vstd::arithmetic::power::pow(2, alignment as nat) == align as int);
        }
        objc_ivar { name, size, alignment: align, offset: 0, types }
    }

    pub fn name(&self) -> (r: &String)
        ensures
            r == self.name,
    {
        &self.name
    }

    pub fn size(&self) -> (r: usize)
        ensures
            r == self.size,
    {
        self.size
    }

    pub fn alignment(&self) -> (r: usize)
        ensures
            r == self.alignment,
    {
        self.alignment
    }

    pub fn offset(&self) -> (r: usize)
        ensures
            r == self.offset,
    {
        self.offset
    }
}

} // verus!
