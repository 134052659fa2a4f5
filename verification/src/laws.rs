//! What holds of the runtime as a whole, proved from the contracts of its
//! operations.
use crate::class::{
    chain_layout, chain_offset, lemma_first_exists, lemma_resolve_after_push, objc_class,
    responds_to,
};
use crate::context::Context;
use crate::ivar::objc_ivar;
use crate::key::{lemma_class_key_eq, ClassKey, SelectorKey};
use crate::layout::{lemma_pow2_divides, lemma_pow2_positive};
use crate::message::Receiver;
use crate::method::objc_method;
use crate::object::{
    lemma_write_keeps_other_range, lemma_write_then_read, new_image, objc_object_v2, zeros,
};
use vstd::arithmetic::div_mod::{lemma_fundamental_div_mod, lemma_mod_multiples_basic};
use vstd::arithmetic::power2::is_pow2;
use vstd::prelude::*;

verus! {

/// Interning is idempotent: a name that is interned twice gets the same
/// handle both times, and the second time changes nothing.
pub proof fn lemma_intern_is_idempotent(
    first: Context,
    second: Context,
    third: Context,
    name: Seq<char>,
    key1: SelectorKey,
    key2: SelectorKey,
)
    requires
        second.is_interned(first, name, key1),
        third.is_interned(second, name, key2),
    ensures
        key1 == key2,
        third.same_state(second),
{
}

/// Interning tells names apart: two different names, interned one after the
/// other, get different handles.
pub proof fn lemma_intern_keeps_names_apart(
    first: Context,
    second: Context,
    third: Context,
    name1: Seq<char>,
    name2: Seq<char>,
    key1: SelectorKey,
    key2: SelectorKey,
)
    requires
        second.wf(),
        name1 != name2,
        second.is_interned(first, name1, key1),
        third.is_interned(second, name2, key2),
    ensures
        key1 != key2,
{
    assert(second.selector_names().contains_key(name1));
    assert(second.has_selector(key1));
    if second.selector_names().contains_key(name2) {
        assert(second.selector(key2).selector_info.name@ == name2);
        assert(second.selector(key1).selector_info.name@ == name1);
    }
}

/// In every registry no two interned names share a handle.
pub proof fn lemma_selector_names_one_to_one(context: Context, name1: Seq<char>, name2: Seq<char>)
    requires
        context.wf(),
        context.selector_names().contains_key(name1),
        context.selector_names().contains_key(name2),
        name1 != name2,
    ensures
        context.selector_names()[name1] != context.selector_names()[name2],
{
    let key1 = context.selector_names()[name1];
    let key2 = context.selector_names()[name2];
    assert(context.selector(key1).selector_info.name@ == name1);
    assert(context.selector(key2).selector_info.name@ == name2);
}

/// The metaclass chain of a root class closes on itself: the metaclass of a
/// root class is its own metaclass, and its superclass is the root class.
pub proof fn lemma_root_metaclass_closes(context: Context, root: ClassKey)
    requires
        context.wf(),
        context.has_class(root),
        context.class(root).superclass() is None,
    ensures
        context.metaclass_of_spec(root) matches Some(meta) && {
            &&& context.metaclass_of_spec(meta) == Some(meta)
            &&& context.superclass_of_spec(meta) == Some(root)
        },
{
    assert(context.class_ok(root@));
    let meta = context.class(root).metaclass();
    lemma_class_key_eq(context.class(meta).metaclass(), meta);
    let up = context.class(meta).superclass()->0;
    lemma_class_key_eq(up, root);
}

/// Metaclasses mirror the class hierarchy: for a class that is no metaclass
/// and has the superclass `parent`, the superclass of its metaclass is the
/// metaclass of `parent`, and so is the metaclass of its metaclass.
pub proof fn lemma_metaclass_mirrors_superclass(context: Context, derived: ClassKey, parent: ClassKey)
    requires
        context.wf(),
        context.has_class(derived),
        !context.class(derived).0.data.info.is_meta(),
        context.class(derived).superclass() == Some(parent),
    ensures
        context.has_class(parent),
        context.metaclass_of_spec(derived) matches Some(meta) && {
            &&& context.superclass_of_spec(meta) == context.metaclass_of_spec(parent)
            &&& context.metaclass_of_spec(meta) == context.metaclass_of_spec(parent)
        },
{
    assert(context.class_ok(derived@));
    let meta = context.class(derived).metaclass();
    let parent_meta = context.class(parent).metaclass();
    let up = context.class(meta).superclass()->0;
    lemma_class_key_eq(up, parent_meta);
    lemma_class_key_eq(context.class(meta).metaclass(), parent_meta);
}

/// Dispatch looks at the receiver's own class only. After a method for
/// `selector` has been added to the class `owner`, a message with that selector
/// to a receiver of class `owner` resolves: to the new method's entry point
/// where the class had none for the selector, else to the one it resolved to
/// before. For a receiver of any other class, a subclass of `owner` included,
/// every message resolves as it did before.
pub proof fn lemma_dispatch_is_scoped(
    before: Context,
    after: Context,
    owner: ClassKey,
    other: ClassKey,
    method: objc_method,
    selector: SelectorKey,
)
    requires
        after.is_with_method(before, owner, method),
        before.has_selector(method.selector),
        other != owner,
    ensures
        after.lookup_spec(Receiver(owner), method.selector) == (if responds_to(
            before.class(owner).methods(),
            method.selector,
        ) {
            before.lookup_spec(Receiver(owner), method.selector)
        } else {
            Some(method.imp)
        }),
        after.lookup_spec(Receiver(owner), method.selector) is Some,
        after.lookup_spec(Receiver(other), selector) == before.lookup_spec(
            Receiver(other),
            selector,
        ),
{
    lemma_resolve_after_push(before.class(owner).methods(), method, method.selector);
    lemma_class_key_eq(other, owner);
    if responds_to(before.class(owner).methods(), method.selector) {
        let i = choose|i: int|
            0 <= i < before.class(owner).methods().len() && (
            #[trigger] before.class(owner).methods()[i]).selector == method.selector;
        lemma_first_exists(before.class(owner).methods(), method.selector, i);
    }
    assert(after.classes().dom() =~= before.classes().dom());
}

/// A class without a method of its own for a selector does not answer to it,
/// whatever its superclass has: no superclass is searched.
pub proof fn lemma_no_inherited_dispatch(context: Context, class: ClassKey, selector: SelectorKey)
    requires
        context.has_class(class),
        !responds_to(context.class(class).methods(), selector),
    ensures
        context.lookup_spec(Receiver(class), selector) is None,
{
}

/// Round trip: after `value` has been written to an ivar, reading that ivar
/// gives `value`.
pub proof fn lemma_ivar_round_trip(
    before: objc_object_v2,
    after: objc_object_v2,
    ivar: objc_ivar,
    value: Seq<u8>,
)
    requires
        before.wf(),
        before.holds(ivar),
        value.len() == ivar.size,
        after.is_with_value(before, ivar, value),
    ensures
        after.ivar_bytes(ivar) == value,
{
    lemma_write_then_read(before.bytes(), before.ivar_start(ivar), value);
}

/// A new instance reads zero for every ivar that it has room for.
pub proof fn lemma_new_instance_reads_zero(object: objc_object_v2, size: nat, ivar: objc_ivar)
    requires
        object.wf(),
        object.bytes() == new_image(object.class(), size),
        object.holds(ivar),
    ensures
        object.ivar_bytes(ivar) == zeros(ivar.size as nat),
{
    assert(object.ivar_bytes(ivar) =~= zeros(ivar.size as nat));
}

/// Instances are isolated: each object has storage of its own. Of two new
/// instances, after `value` has been written to an ivar of the one, the one
/// reads `value` for the ivar and the other still reads zero.
pub proof fn lemma_instances_are_isolated(
    one_before: objc_object_v2,
    one_after: objc_object_v2,
    other: objc_object_v2,
    size: nat,
    ivar: objc_ivar,
    value: Seq<u8>,
)
    requires
        one_before.wf(),
        other.wf(),
        one_before.bytes() == new_image(one_before.class(), size),
        other.bytes() == new_image(other.class(), size),
        one_before.holds(ivar),
        other.holds(ivar),
        value.len() == ivar.size,
        one_after.is_with_value(one_before, ivar, value),
    ensures
        one_after.ivar_bytes(ivar) == value,
        other.ivar_bytes(ivar) == zeros(ivar.size as nat),
{
    lemma_ivar_round_trip(one_before, one_after, ivar, value);
    lemma_new_instance_reads_zero(other, size, ivar);
}

/// Two different ivars of a well-formed class take ranges of bytes that do
/// not meet.
pub proof fn lemma_ivars_are_disjoint(class: objc_class, i: int, j: int)
    requires
        class.wf(),
        0 <= i < class.ivars().len(),
        0 <= j < class.ivars().len(),
        i != j,
    ensures
        class.ivars()[i].end() <= class.ivars()[j].offset || class.ivars()[j].end()
            <= class.ivars()[i].offset,
{
    if i < j {
        assert(class.ivars()[i].end() <= class.ivars()[j].offset);
    } else {
        assert(class.ivars()[j].end() <= class.ivars()[i].offset);
    }
}

/// Writing one ivar of a class leaves every other ivar of the class as it was.
pub proof fn lemma_write_keeps_other_ivars(
    class: objc_class,
    before: objc_object_v2,
    after: objc_object_v2,
    i: int,
    j: int,
    value: Seq<u8>,
)
    requires
        class.wf(),
        0 <= i < class.ivars().len(),
        0 <= j < class.ivars().len(),
        i != j,
        before.wf(),
        before.holds(class.ivars()[i]),
        before.holds(class.ivars()[j]),
        value.len() == class.ivars()[i].size,
        after.is_with_value(before, class.ivars()[i], value),
    ensures
        after.ivar_bytes(class.ivars()[j]) == before.ivar_bytes(class.ivars()[j]),
{
    lemma_ivars_are_disjoint(class, i, j);
    let other = class.ivars()[j];
    lemma_write_keeps_other_range(
        before.bytes(),
        before.ivar_start(class.ivars()[i]),
        value,
        before.ivar_start(other),
        before.ivar_start(other) + other.size,
    );
}

/// Writing an ivar of a class leaves the bytes behind the ivar block, the
/// extra bytes, as they were, and the bytes in front of it, the header's, too.
pub proof fn lemma_write_keeps_extra_bytes(
    class: objc_class,
    before: objc_object_v2,
    after: objc_object_v2,
    i: int,
    value: Seq<u8>,
)
    requires
        class.wf(),
        0 <= i < class.ivars().len(),
        before.wf(),
        before.data_offset() + class.cumulative_layout().size <= before.bytes().len(),
        value.len() == class.ivars()[i].size,
        after.is_with_value(before, class.ivars()[i], value),
    ensures
        after.bytes().subrange(
            before.data_offset() + class.cumulative_layout().size,
            before.bytes().len() as int,
        ) == before.bytes().subrange(
            before.data_offset() + class.cumulative_layout().size,
            before.bytes().len() as int,
        ),
        after.bytes().subrange(0, before.data_offset()) == before.bytes().subrange(
            0,
            before.data_offset(),
        ),
{
    let ivar = class.ivars()[i];
    assert(ivar.end() <= class.cumulative_layout().size);
    lemma_write_keeps_other_range(
        before.bytes(),
        before.ivar_start(ivar),
        value,
        before.data_offset() + class.cumulative_layout().size,
        before.bytes().len() as int,
    );
    lemma_write_keeps_other_range(
        before.bytes(),
        before.ivar_start(ivar),
        value,
        0,
        before.data_offset(),
    );
}

/// Whether `a` and `b` declare the same sizes and alignments in the same order.
pub open spec fn same_declarations(a: Seq<objc_ivar>, b: Seq<objc_ivar>) -> bool {
    &&& a.len() == b.len()
    &&& forall|i: int|
        0 <= i < a.len() ==> (#[trigger] a[i]).size == b[i].size && a[i].alignment
            == b[i].alignment
}

/// The layout of a sequence of ivars depends on nothing but their sizes and
/// alignments, in order.
pub proof fn lemma_chain_depends_on_declarations(a: Seq<objc_ivar>, b: Seq<objc_ivar>)
    requires
        same_declarations(a, b),
    ensures
        chain_layout(a) == chain_layout(b),
    decreases a.len(),
{
    if a.len() > 0 {
        assert(same_declarations(a.drop_last(), b.drop_last())) by {
            assert forall|i: int| 0 <= i < a.drop_last().len() implies (
            #[trigger] a.drop_last()[i]).size == b.drop_last()[i].size && a.drop_last()[i].alignment
                == b.drop_last()[i].alignment by {
                assert(a[i].size == b[i].size);
            }
        }
        lemma_chain_depends_on_declarations(a.drop_last(), b.drop_last());
        assert(a.last().size == b.last().size && a.last().alignment == b.last().alignment) by {
            assert(a[a.len() - 1].size == b[a.len() - 1].size);
        }
    }
}

/// Instance-variable layout is decided by the declarations alone: two
/// well-formed classes that declare the same sizes and alignments in the same
/// order have the same cumulative layout and give every ivar the same offset.
pub proof fn lemma_layout_follows_declarations(a: objc_class, b: objc_class, i: int)
    requires
        a.wf(),
        b.wf(),
        same_declarations(a.ivars(), b.ivars()),
        0 <= i < a.ivars().len(),
    ensures
        a.cumulative_layout() == b.cumulative_layout(),
        a.ivars()[i].offset == b.ivars()[i].offset,
{
    lemma_chain_depends_on_declarations(a.ivars(), b.ivars());
    assert(same_declarations(a.ivars().take(i), b.ivars().take(i))) by {
        assert forall|j: int| 0 <= j < a.ivars().take(i).len() implies (
        #[trigger] a.ivars().take(i)[j]).size == b.ivars().take(i)[j].size && a.ivars().take(
            i,
        )[j].alignment == b.ivars().take(i)[j].alignment by {
            assert(a.ivars()[j].size == b.ivars()[j].size);
        }
    }
    lemma_chain_depends_on_declarations(a.ivars().take(i), b.ivars().take(i));
    assert(a.ivars()[i].alignment == b.ivars()[i].alignment);
    assert(a.ivars()[i].offset == chain_offset(a.ivars(), i));
    assert(b.ivars()[i].offset == chain_offset(b.ivars(), i));
}

/// In an instance every ivar starts at a multiple of its alignment, counted
/// from the start of the instance, and the alignment of the instance is a
/// multiple of the ivar's. So in an instance that is placed at its alignment
/// every ivar is placed at its own.
pub proof fn lemma_ivar_start_is_aligned(class: objc_class, i: int)
    requires
        class.wf(),
        class.instance_parts_spec() is Some,
        0 <= i < class.ivars().len(),
    ensures
        ({
            let (whole, data_offset) = class.instance_parts_spec()->0;
            let ivar = class.ivars()[i];
            &&& (data_offset + ivar.offset) % (ivar.alignment as int) == 0
            &&& whole.align as int % ivar.alignment as int == 0
        }),
{
    let (whole, data_offset) = class.instance_parts_spec()->0;
    let ivar = class.ivars()[i];
    let body = class.body_layout_spec()->0;
    let a = ivar.alignment as int;
    lemma_pow2_positive(a);
    lemma_pow2_positive(class.cumulative_layout().align as int);
    assert(is_pow2(1)) by {
        reveal(is_pow2);
    }
    assert(is_pow2(4)) by {
        reveal_with_fuel(is_pow2, 3);
    }
    assert(body.align == class.cumulative_layout().align);
    crate::layout::lemma_round_up_is_padded(8, body.align as int);
    // the ivar's alignment divides the body's, which divides the data offset
    lemma_pow2_divides(a, body.align as int);
    lemma_fundamental_div_mod(body.align as int, a);
    lemma_fundamental_div_mod(data_offset as int, body.align as int);
    lemma_fundamental_div_mod(ivar.offset as int, a);
    let p = body.align as int / a;
    let q = data_offset as int / body.align as int;
    let r = ivar.offset as int / a;
    assert(data_offset + ivar.offset == (p * q + r) * a) by (nonlinear_arith)
        requires
            body.align == a * p,
            data_offset == body.align * q,
            ivar.offset == a * r,
    ;
    lemma_mod_multiples_basic(p * q + r, a);
    assert(is_pow2(whole.align as int));
    lemma_pow2_divides(a, whole.align as int);
}

} // verus!
