//! The two arenas of the runtime: class records and selector records, each a
//! slot map addressed by stable handles.
use crate::class::objc_class;
use crate::key::handle_of;
use crate::selector::objc_selector;
use slotmap::{DefaultKey, Key, KeyData, SlotMap};
use vstd::prelude::*;

verus! {

/// Most records that one arena holds: a slot map's index is 32 bits wide, and
/// two of its values are kept back.
pub const ARENA_CAPACITY: usize = 0xffff_fffe;

/// The arena of class records: a `slotmap::SlotMap`.
#[verifier::external_body]
pub struct ClassArena {
    slots: SlotMap<DefaultKey, objc_class>,
}

/// The arena of selector records: a `slotmap::SlotMap`.
#[verifier::external_body]
pub struct SelectorArena {
    slots: SlotMap<DefaultKey, objc_selector>,
}

/// The class records that the arena holds, each under the bits of its handle.
pub uninterp spec fn class_arena_view(arena: ClassArena) -> Map<u64, objc_class>;

/// The selector records that the arena holds, each under the bits of its handle.
pub uninterp spec fn selector_arena_view(arena: SelectorArena) -> Map<u64, objc_selector>;

/// Calls `SlotMap::new`.
///
/// Trusted: the new arena holds nothing.
#[verifier::external_body]
pub(crate) fn class_arena_new() -> (arena: ClassArena)
    ensures
        forall|raw: u64| !class_arena_view(arena).contains_key(raw),
{
    ClassArena { slots: SlotMap::new() }
}

/// Calls `SlotMap::len`.
///
/// Trusted: the result is the number of records that the arena holds.
#[verifier::external_body]
pub(crate) fn class_arena_len(arena: &ClassArena) -> (n: usize)
    ensures
        n == class_arena_view(*arena).len(),
{
    arena.slots.len()
}

/// Calls `SlotMap::insert` and gives the new key's bits, by `KeyData::as_ffi`.
///
/// Trusted: the record stands under a handle that held nothing before, every
/// other record stays, and the handle's bits are in the arena's own form.
/// `insert` panics when the slot map is full, which `requires` leaves out.
#[verifier::external_body]
pub(crate) fn class_arena_insert(arena: &mut ClassArena, record: objc_class) -> (raw: u64)
    requires
        class_arena_view(*old(arena)).len() < ARENA_CAPACITY,
    ensures
        handle_of(raw) == raw,
        !class_arena_view(*old(arena)).contains_key(raw),
        class_arena_view(*final(arena)) == class_arena_view(*old(arena)).insert(raw, record),
{
    arena.slots.insert(record).data().as_ffi()
}

/// Calls `SlotMap::get` with the key that `KeyData::from_ffi` reads out of `raw`.
///
/// Trusted: the result is the record under that key's handle, if there is one.
#[verifier::external_body]
pub(crate) fn class_arena_get(arena: &ClassArena, raw: u64) -> (slot: Option<&objc_class>)
    ensures
        slot == (if class_arena_view(*arena).contains_key(handle_of(raw)) {
            Some(&class_arena_view(*arena)[handle_of(raw)])
        } else {
            None
        }),
{
    arena.slots.get(KeyData::from_ffi(raw).into())
}

/// Indexes the slot map mutably with the key that `KeyData::from_ffi` reads
/// out of `raw`.
///
/// Trusted: the borrow starts as the record under that key's handle, and what
/// it holds when it ends is what stands there from then on; every other record
/// stays. Indexing panics where the key holds nothing, which `requires` leaves out.
#[verifier::external_body]
pub(crate) fn class_arena_index_mut(arena: &mut ClassArena, raw: u64) -> (slot: &mut objc_class)
    requires
        class_arena_view(*old(arena)).contains_key(handle_of(raw)),
    ensures
        *slot == class_arena_view(*old(arena))[handle_of(raw)],
        class_arena_view(*final(arena)) == class_arena_view(*old(arena)).insert(
            handle_of(raw),
            *final(slot),
        ),
{
    &mut arena.slots[KeyData::from_ffi(raw).into()]
}

/// Calls `SlotMap::new`.
///
/// Trusted: the new arena holds nothing.
#[verifier::external_body]
pub(crate) fn selector_arena_new() -> (arena: SelectorArena)
    ensures
        forall|raw: u64| !selector_arena_view(arena).contains_key(raw),
{
    SelectorArena { slots: SlotMap::new() }
}

/// Calls `SlotMap::len`.
///
/// Trusted: the result is the number of records that the arena holds.
#[verifier::external_body]
pub(crate) fn selector_arena_len(arena: &SelectorArena) -> (n: usize)
    ensures
        n == selector_arena_view(*arena).len(),
{
    arena.slots.len()
}

/// Calls `SlotMap::insert` and gives the new key's bits, by `KeyData::as_ffi`.
///
/// Trusted: the record stands under a handle that held nothing before, every
/// other record stays, and the handle's bits are in the arena's own form.
/// `insert` panics when the slot map is full, which `requires` leaves out.
#[verifier::external_body]
pub(crate) fn selector_arena_insert(arena: &mut SelectorArena, record: objc_selector) -> (raw: u64)
    requires
        selector_arena_view(*old(arena)).len() < ARENA_CAPACITY,
    ensures
        handle_of(raw) == raw,
        !selector_arena_view(*old(arena)).contains_key(raw),
        selector_arena_view(*final(arena)) == selector_arena_view(*old(arena)).insert(raw, record),
{
    arena.slots.insert(record).data().as_ffi()
}

/// Calls `SlotMap::get` with the key that `KeyData::from_ffi` reads out of `raw`.
///
/// Trusted: the result is the record under that key's handle, if there is one.
#[verifier::external_body]
pub(crate) fn selector_arena_get(arena: &SelectorArena, raw: u64) -> (slot: Option<&objc_selector>)
    ensures
        slot == (if selector_arena_view(*arena).contains_key(handle_of(raw)) {
            Some(&selector_arena_view(*arena)[handle_of(raw)])
        } else {
            None
        }),
{
    arena.slots.get(KeyData::from_ffi(raw).into())
}

/// Indexes the slot map mutably with the key that `KeyData::from_ffi` reads
/// out of `raw`.
///
/// Trusted: the borrow starts as the record under that key's handle, and what
/// it holds when it ends is what stands there from then on; every other record
/// stays. Indexing panics where the key holds nothing, which `requires` leaves out.
#[verifier::external_body]
pub(crate) fn selector_arena_index_mut(arena: &mut SelectorArena, raw: u64) -> (slot:
    &mut objc_selector)
    requires
        selector_arena_view(*old(arena)).contains_key(handle_of(raw)),
    ensures
        *slot == selector_arena_view(*old(arena))[handle_of(raw)],
        selector_arena_view(*final(arena)) == selector_arena_view(*old(arena)).insert(
            handle_of(raw),
            *final(slot),
        ),
{
    &mut arena.slots[KeyData::from_ffi(raw).into()]
}

} // verus!
