//! Stable handles into the class arena and the selector table.
use slotmap::KeyData;
use vstd::prelude::*;

verus! {

/// The arena's own form of a 64-bit handle: the bits that
/// `as_ffi` gives back for the key that `KeyData::from_ffi` reads out of `raw`.
pub uninterp spec fn handle_of(raw: u64) -> u64;

/// Calls `slotmap::KeyData::from_ffi` and then `KeyData::as_ffi` on the key read.
///
/// Trusted: the result is `handle_of(raw)`, and reading the result again gives the
/// same bits, because `from_ffi` gives back the very key that `as_ffi` was called on.
#[verifier::external_body]
pub(crate) fn normalize_handle(raw: u64) -> (bits: u64)
    ensures
        bits == handle_of(raw),
        handle_of(bits) == bits,
{
    KeyData::from_ffi(raw).as_ffi()
}

/// Handle of a class record. Only the arena issues live ones; a handle stays
/// valid for as long as the arena lives, since classes are never removed.
#[derive(Clone, Copy, Debug, PartialEq, Eq, Structural, Hash)]
pub struct ClassKey {
    pub(crate) raw: u64,
}

/// Handle of an interned selector.
#[derive(Clone, Copy, Debug, PartialEq, Eq, Structural, Hash)]
pub struct SelectorKey {
    pub(crate) raw: u64,
}

impl View for ClassKey {
    type V = u64;

    closed spec fn view(&self) -> u64 {
        self.raw
    }
}

impl View for SelectorKey {
    type V = u64;

    closed spec fn view(&self) -> u64 {
        self.raw
    }
}

/// The bits of the handle that `key` holds, if it holds one.
pub open spec fn bits_of(key: Option<ClassKey>) -> Option<u64> {
    match key {
        Some(k) => Some(k@),
        None => None,
    }
}

/// Two class handles are equal exactly when their bits are.
pub proof fn lemma_class_key_eq(a: ClassKey, b: ClassKey)
    ensures
        (a@ == b@) == (a == b),
{
}

/// Two selector handles are equal exactly when their bits are.
pub proof fn lemma_selector_key_eq(a: SelectorKey, b: SelectorKey)
    ensures
        (a@ == b@) == (a == b),
{
}

impl ClassKey {
    #[verifier::type_invariant]
    spec fn is_handle(self) -> bool {
        handle_of(self.raw) == self.raw
    }

    /// Reads a handle out of 64 bits that came from [`ClassKey::as_raw`]. Other
    /// bits give some handle too, which need not be a live one.
    pub fn from_raw(raw: u64) -> (key: ClassKey)
        ensures
            key@ == handle_of(raw),
    {
        ClassKey::from_handle(normalize_handle(raw))
    }

    /// The handle whose bits are `raw`, for bits that the arena has issued.
    pub(crate) fn from_handle(raw: u64) -> (key: ClassKey)
        requires
            handle_of(raw) == raw,
        ensures
            key@ == raw,
    {
        ClassKey { raw }
    }

    /// The handle as 64 bits, to hand across a foreign boundary.
    pub fn as_raw(&self) -> (raw: u64)
        ensures
            raw == self@,
            handle_of(raw) == raw,
    {
        proof {
            use_type_invariant(self);
        }
        self.raw
    }
}

impl SelectorKey {
    #[verifier::type_invariant]
    spec fn is_handle(self) -> bool {
        handle_of(self.raw) == self.raw
    }

    /// Reads a handle out of 64 bits that came from [`SelectorKey::as_raw`].
    pub fn from_raw(raw: u64) -> (key: SelectorKey)
        ensures
            key@ == handle_of(raw),
    {
        SelectorKey::from_handle(normalize_handle(raw))
    }

    /// The handle whose bits are `raw`, for bits that the arena has issued.
    pub(crate) fn from_handle(raw: u64) -> (key: SelectorKey)
        requires
            handle_of(raw) == raw,
        ensures
            key@ == raw,
    {
        SelectorKey { raw }
    }

    /// The handle as 64 bits, to hand across a foreign boundary.
    pub fn as_raw(&self) -> (raw: u64)
        ensures
            raw == self@,
            handle_of(raw) == raw,
    {
        proof {
            use_type_invariant(self);
        }
        self.raw
    }
}

} // verus!
