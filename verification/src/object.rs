//! Objects: a header that names the class, and aligned, zero-initialised
//! instance storage that ivars are read from and written to by offset.
use crate::class::{header, header_layout, HEADER_SIZE};
use crate::ivar::objc_ivar;
use crate::key::ClassKey;
use crate::layout::Layout;
use crate::message::ReprV2;
use aligned_box::AlignedBox;
use vstd::bytes::{
    lemma_auto_spec_u64_to_from_le_bytes, spec_u64_from_le_bytes, spec_u64_to_le_bytes,
    u64_from_le_bytes, u64_to_le_bytes,
};
use vstd::prelude::*;
use vstd::slice::slice_subrange;

verus! {

#[verifier::external_type_specification]
#[verifier::external_body]
#[verifier::reject_recursive_types(T)]
pub struct ExAlignedBox<T: ?Sized>(AlignedBox<T>);

/// The bytes that an aligned region holds, first to last.
pub uninterp spec fn region_bytes(region: AlignedBox<[u8]>) -> Seq<u8>;

/// The alignment in bytes that an aligned region was allocated with: its
/// memory starts at a multiple of it.
pub uninterp spec fn region_alignment(region: AlignedBox<[u8]>) -> usize;

/// Calls `aligned_box::AlignedBox::<[u8]>::slice_from_value` with the value 0,
/// and turns its error into `None`.
///
/// Trusted: a region that is handed out holds `len` bytes, all zero, and was
/// allocated with the alignment asked for (an alignment of 0 is raised to that
/// of a byte). Whether one is handed out is up to the allocator, so nothing
/// is said of `None`.
#[verifier::external_body]
fn region_zeroed(alignment: usize, len: usize) -> (region: Option<AlignedBox<[u8]>>)
    ensures
        region matches Some(r) ==> region_bytes(r) == Seq::new(len as nat, |i: int| 0u8),
        region matches Some(r) ==> alignment == 0 || region_alignment(r) == alignment,
{
    AlignedBox::<[u8]>::slice_from_value(alignment, len, 0u8).ok()
}

/// Borrows the region as a slice, through `AlignedBox`'s `Deref`.
///
/// Trusted: the slice is the region's bytes.
#[verifier::external_body]
fn region_slice(region: &AlignedBox<[u8]>) -> (bytes: &[u8])
    ensures
        bytes@ == region_bytes(*region),
{
    region
}

/// Borrows the region as a mutable slice, through `AlignedBox`'s `DerefMut`.
///
/// Trusted: the slice starts as the region's bytes, and what the slice holds
/// when the borrow ends is what the region holds from then on. The region
/// stays where it was allocated, so its alignment stays.
#[verifier::external_body]
fn region_slice_mut(region: &mut AlignedBox<[u8]>) -> (bytes: &mut [u8])
    ensures
        bytes@ == region_bytes(*old(region)),
        region_bytes(*final(region)) == final(bytes)@,
        region_alignment(*final(region)) == region_alignment(*old(region)),
{
    region
}

/// `len` zero bytes.
pub open spec fn zeros(len: nat) -> Seq<u8> {
    Seq::new(len, |i: int| 0u8)
}

/// `bytes` with `value` written over it from index `at` on.
pub open spec fn overwrite(bytes: Seq<u8>, at: int, value: Seq<u8>) -> Seq<u8> {
    Seq::new(
        bytes.len(),
        |i: int|
            if at <= i < at + value.len() {
                value[i - at]
            } else {
                bytes[i]
            },
    )
}

/// The header as it stands in memory: the bits of the class handle, low byte
/// first.
pub open spec fn header_image(class: ClassKey) -> Seq<u8> {
    spec_u64_to_le_bytes(class@)
}

/// The bytes of a new instance of `size` bytes: the header of `class`, and
/// zero from there on.
pub open spec fn new_image(class: ClassKey, size: nat) -> Seq<u8> {
    overwrite(zeros(size), 0, header_image(class))
}

/// Writes `value` into `region` from index `at` on.
fn write_bytes(region: &mut AlignedBox<[u8]>, at: usize, value: &[u8])
    requires
        at + value@.len() <= region_bytes(*old(region)).len(),
    ensures
        region_bytes(*final(region)) == overwrite(region_bytes(*old(region)), at as int, value@),
        region_alignment(*final(region)) == region_alignment(*old(region)),
{
    let ghost before = region_bytes(*region);
    let len: usize = region_slice(region).len();
    let bytes = region_slice_mut(region);
    let mut i: usize = 0;
    while i < value.len()
        invariant
            i <= value@.len(),
            at + value@.len() <= before.len() == len,
            bytes@ == overwrite(before, at as int, value@.subrange(0, i as int)),
        decreases value@.len() - i,
    {
        bytes[at + i] = value[i];
        i += 1;
        assert(bytes@ =~= overwrite(before, at as int, value@.subrange(0, i as int)));
    }
    assert(value@.subrange(0, i as int) =~= value@);
}

/// Instance storage: the whole region of an instance, header bytes included,
/// and the offset in it at which the ivar block starts.
pub struct ObjectDataV2 {
    pub ivars: AlignedBox<[u8]>,
    pub data_offset: usize,
}

/// An object. Its header names the class that it is an instance of.
pub struct objc_object_v2(pub ReprV2<ObjectDataV2>);

impl objc_object_v2 {
    /// The handle of the object's class.
    pub open spec fn class(&self) -> ClassKey {
        self.0.is_a.0
    }

    /// The bytes of the instance, header bytes included.
    pub open spec fn bytes(&self) -> Seq<u8> {
        region_bytes(self.0.data.ivars)
    }

    /// The alignment in bytes that the instance's memory was allocated with.
    pub open spec fn alignment(&self) -> usize {
        region_alignment(self.0.data.ivars)
    }

    /// The offset of the ivar block in the instance.
    pub open spec fn data_offset(&self) -> int {
        self.0.data.data_offset as int
    }

    /// The instance starts with the header of its class, and the ivar block
    /// starts behind the header and inside the instance.
    pub open spec fn wf(&self) -> bool {
        &&& HEADER_SIZE <= self.data_offset() <= self.bytes().len()
        &&& self.bytes().subrange(0, HEADER_SIZE as int) == header_image(self.class())
    }

    /// Where `ivar` starts in the instance.
    pub open spec fn ivar_start(&self, ivar: objc_ivar) -> int {
        self.data_offset() + ivar.offset
    }

    /// Whether the instance has room for `ivar` at its offset.
    pub open spec fn holds(&self, ivar: objc_ivar) -> bool {
        self.ivar_start(ivar) + ivar.size <= self.bytes().len()
    }

    /// The bytes that the instance holds for `ivar`.
    pub open spec fn ivar_bytes(&self, ivar: objc_ivar) -> Seq<u8> {
        self.bytes().subrange(self.ivar_start(ivar), self.ivar_start(ivar) + ivar.size)
    }

    /// Whether `self` is `before` with `value` written to `ivar`: the bytes of
    /// the ivar are `value`, and every other byte, the header, the offset of
    /// the ivar block and the alignment of the memory are as they were.
    pub open spec fn is_with_value(
        &self,
        before: objc_object_v2,
        ivar: objc_ivar,
        value: Seq<u8>,
    ) -> bool {
        &&& self.bytes() == overwrite(before.bytes(), before.ivar_start(ivar), value)
        &&& self.class() == before.class()
        &&& self.data_offset() == before.data_offset()
        &&& self.alignment() == before.alignment()
    }

    /// An object of class `class_key` over the region `region`, with the ivar
    /// block at `data_offset`: the header is written to the front of the
    /// region, and the rest of the region stays as it is, at the alignment
    /// that it was allocated with. Nothing, where there is no region or the
    /// region has no room for the header in front of `data_offset`.
    pub fn with_region(
        class_key: ClassKey,
        data_offset: usize,
        region: Option<AlignedBox<[u8]>>,
    ) -> (r: Option<objc_object_v2>)
        ensures
            r is Some == (region matches Some(bytes) && HEADER_SIZE <= data_offset
                <= region_bytes(bytes).len()),
            r matches Some(object) ==> {
                &&& object.class() == class_key
                &&& object.data_offset() == data_offset
                &&& object.bytes() == overwrite(
                    region_bytes(region->0),
                    0,
                    header_image(class_key),
                )
                &&& object.alignment() == region_alignment(region->0)
                &&& object.wf()
            },
    {
        let mut ivars = match region {
            Some(ivars) => ivars,
            None => {
                return None;
            },
        };
        if data_offset < HEADER_SIZE || data_offset > region_slice(&ivars).len() {
            return None;
        }
        let image = u64_to_le_bytes(class_key.as_raw());
        let ghost before = region_bytes(ivars);
        write_bytes(&mut ivars, 0, image.as_slice());
        proof {
            lemma_write_then_read(before, 0, image@);
        }
        Some(objc_object_v2(ReprV2::new(class_key, ObjectDataV2 { ivars, data_offset })))
    }

    /// Allocates an instance of class `class_key` whose body, the part behind
    /// the header, has the layout `dt_layout`.
    ///
    /// The instance is the header's layout extended by `dt_layout`: memory of
    /// that size is asked for at that alignment. `None` where the layout does
    /// not fit, or where the allocator hands out no memory. An instance that
    /// is handed out has that size and that alignment, starts with the header
    /// of `class_key` and is zero from there on.
    pub fn new(class_key: ClassKey, dt_layout: Layout) -> (r: Option<objc_object_v2>)
        requires
            dt_layout.wf(),
        ensures
            header_layout().extend_spec(dt_layout) is None ==> r is None,
            r matches Some(object) ==> {
                &&& header_layout().extend_spec(dt_layout) matches Some((whole, data_offset))
                &&& object.class() == class_key
                &&& object.data_offset() == data_offset
                &&& object.bytes() == new_image(class_key, whole.size as nat)
                &&& object.alignment() == whole.align
                &&& object.wf()
            },
    {
        let (whole, data_offset) = match header().extend(&dt_layout) {
            Some(pair) => pair,
            None => {
                return None;
            },
        };
        let region = region_zeroed(whole.align, whole.size);
        objc_object_v2::with_region(class_key, data_offset, region)
    }

    /// The bits of the class handle as the header in the instance holds them.
    pub fn header_handle(&self) -> (raw: u64)
        requires
            self.wf(),
        ensures
            raw == self.class()@,
    {
        let bytes = region_slice(&self.0.data.ivars);
        let head = slice_subrange(bytes, 0, HEADER_SIZE);
        proof {
            lemma_auto_spec_u64_to_from_le_bytes();
        }
        u64_from_le_bytes(head)
    }

    /// The handle of the object's class.
    pub fn is_a(&self) -> (r: ClassKey)
        ensures
            r == self.class(),
    {
        self.0.is_a()
    }

    /// How many bytes the instance takes, header included.
    pub fn instance_size(&self) -> (r: usize)
        ensures
            r == self.bytes().len(),
    {
        region_slice(&self.0.data.ivars).len()
    }

    /// Whether the instance has room for `ivar` at its offset.
    pub fn has_room_for(&self, ivar: &objc_ivar) -> (r: bool)
        requires
            self.wf(),
        ensures
            r == self.holds(*ivar),
    {
        let len = self.instance_size();
        let rest = len - self.0.data.data_offset;
        ivar.offset <= rest && ivar.size <= rest - ivar.offset
    }

    /// Reads the bytes of `ivar`: `ivar.size` bytes from `ivar.offset` on in
    /// the ivar block.
    pub fn get_ivar(&self, ivar: &objc_ivar) -> (r: Vec<u8>)
        requires
            self.wf(),
            self.holds(*ivar),
        ensures
            r@ == self.ivar_bytes(*ivar),
    {
        let bytes = region_slice(&self.0.data.ivars);
        let len: usize = bytes.len();
        let start: usize = self.0.data.data_offset + ivar.offset;
        let mut out: Vec<u8> = Vec::new();
        let mut i: usize = 0;
        while i < ivar.size
            invariant
                i <= ivar.size,
                start + ivar.size <= bytes@.len() == len,
                out@ == bytes@.subrange(start as int, start + i),
            decreases ivar.size - i,
        {
            out.push(bytes[start + i]);
            i += 1;
            assert(out@ =~= bytes@.subrange(start as int, start + i));
        }
        out
    }

    /// Writes `value` over the bytes of `ivar`. Every other byte of the
    /// instance stays as it is, and so do the header and the ivar block's offset.
    pub fn set_ivar(&mut self, ivar: &objc_ivar, value: &[u8])
        requires
            old(self).wf(),
            old(self).holds(*ivar),
            value@.len() == ivar.size,
        ensures
            final(self).is_with_value(*old(self), *ivar, value@),
            final(self).wf(),
            final(self).ivar_bytes(*ivar) == value@,
    {
        let len: usize = self.instance_size();
        let start: usize = self.0.data.data_offset + ivar.offset;
        let ghost before = self.bytes();
        write_bytes(&mut self.0.data.ivars, start, value);
        proof {
            lemma_write_then_read(before, start as int, value@);
            lemma_write_keeps_other_range(before, start as int, value@, 0, HEADER_SIZE as int);
        }
    }
}

/// Reading an ivar back after writing it gives what was written.
pub proof fn lemma_write_then_read(bytes: Seq<u8>, at: int, value: Seq<u8>)
    requires
        0 <= at,
        at + value.len() <= bytes.len(),
    ensures
        overwrite(bytes, at, value).subrange(at, at + value.len()) == value,
{
    assert(overwrite(bytes, at, value).subrange(at, at + value.len()) =~= value);
}

/// Writing one range leaves every range that does not meet it as it was.
pub proof fn lemma_write_keeps_other_range(
    bytes: Seq<u8>,
    at: int,
    value: Seq<u8>,
    from: int,
    to: int,
)
    requires
        0 <= from <= to <= bytes.len(),
        to <= at || at + value.len() <= from,
    ensures
        overwrite(bytes, at, value).subrange(from, to) == bytes.subrange(from, to),
{
    assert(overwrite(bytes, at, value).subrange(from, to) =~= bytes.subrange(from, to));
}

} // verus!
