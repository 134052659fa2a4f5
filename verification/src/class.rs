//! Class records: instance-variable layout and the method list.
use crate::flags::Flags;
use crate::ivar::objc_ivar;
use crate::key::{ClassKey, SelectorKey};
use crate::layout::{layout_fits, lemma_pow2_mod_max, lemma_pow2_positive, round_up, Layout};
use crate::message::Repr;
use crate::method::{objc_imp, objc_method};
use crate::object::{new_image, objc_object_v2};
use crate::property::Property;
use vstd::arithmetic::power2::is_pow2;
use vstd::prelude::*;

verus! {

/// Size in bytes of the header in front of instance storage: one class
/// handle, which is two 32-bit words.
pub const HEADER_SIZE: usize = 8;

/// Alignment in bytes of the header in front of instance storage: that of a
/// 32-bit word.
pub const HEADER_ALIGN: usize = 4;

/// What a class record holds besides its header.
pub struct ClassData {
    pub superclass: Option<ClassKey>,
    pub name: String,
    pub index: ClassKey,
    pub ivars: Vec<objc_ivar>,
    pub methods: Vec<objc_method>,
    pub properties: Vec<Property>,
    pub info: Flags,
    pub ivar_layout: Option<Layout>,
    pub extra_bytes: usize,
}

/// A class record. Its header names the class's metaclass.
pub struct objc_class(pub Repr<ClassData>);

/// The layout of the header in front of instance storage.
pub open spec fn header_layout() -> Layout {
    Layout { size: HEADER_SIZE, align: HEADER_ALIGN }
}

/// Whether some ivar of `ivars` has the name `name`.
pub open spec fn has_ivar_named(ivars: Seq<objc_ivar>, name: Seq<char>) -> bool {
    exists|i: int| 0 <= i < ivars.len() && (#[trigger] ivars[i]).name@ == name
}

/// Whether entry `i` is the first ivar of `ivars` that is named `name`.
pub open spec fn is_first_ivar(ivars: Seq<objc_ivar>, name: Seq<char>, i: int) -> bool {
    &&& 0 <= i < ivars.len()
    &&& ivars[i].name@ == name
    &&& forall|j: int| 0 <= j < i ==> (#[trigger] ivars[j]).name@ != name
}

/// The ivar of `ivars` that is named `name`: the first one in the order of
/// declaration, which is the only one where no name stands twice.
pub open spec fn ivar_named(ivars: Seq<objc_ivar>, name: Seq<char>) -> Option<objc_ivar> {
    if has_ivar_named(ivars, name) {
        Some(ivars[choose|i: int| is_first_ivar(ivars, name, i)])
    } else {
        None
    }
}

/// The first ivar of a name is the ivar of that name.
pub proof fn lemma_first_ivar_is_named(ivars: Seq<objc_ivar>, name: Seq<char>, i: int)
    requires
        is_first_ivar(ivars, name, i),
    ensures
        ivar_named(ivars, name) == Some(ivars[i]),
{
    assert(has_ivar_named(ivars, name));
    let j = choose|j: int| is_first_ivar(ivars, name, j);
    if i < j {
        assert(ivars[i].name@ != name);
    } else if j < i {
        assert(ivars[j].name@ != name);
    }
}

/// The layout of `ivars` laid out one after the other from nothing, in the
/// order of the sequence: each ivar is padded up to its alignment, and the
/// alignment of the whole is the largest one.
pub open spec fn chain_layout(ivars: Seq<objc_ivar>) -> Layout
    decreases ivars.len(),
{
    if ivars.len() == 0 {
        Layout::empty()
    } else {
        let front = chain_layout(ivars.drop_last());
        let last = ivars.last();
        Layout {
            size: (round_up(front.size as int, last.alignment as int) + last.size) as usize,
            align: if front.align >= last.alignment {
                front.align
            } else {
                last.alignment
            },
        }
    }
}

/// The offset that ivar `i` of `ivars` gets when the ivars are laid out one
/// after the other: the size of those in front of it, padded up to its alignment.
pub open spec fn chain_offset(ivars: Seq<objc_ivar>, i: int) -> int {
    round_up(chain_layout(ivars.take(i)).size as int, ivars[i].alignment as int)
}

/// Whether some method of `methods` answers to `selector`.
pub open spec fn responds_to(methods: Seq<objc_method>, selector: SelectorKey) -> bool {
    exists|i: int| 0 <= i < methods.len() && (#[trigger] methods[i]).selector == selector
}

/// Whether entry `i` is the first method of `methods` that answers to `selector`.
pub open spec fn is_first_match(methods: Seq<objc_method>, selector: SelectorKey, i: int) -> bool {
    &&& 0 <= i < methods.len()
    &&& methods[i].selector == selector
    &&& forall|j: int| 0 <= j < i ==> (#[trigger] methods[j]).selector != selector
}

/// The method of `methods` that answers to `selector`: the first one in list
/// order.
pub open spec fn method_for(methods: Seq<objc_method>, selector: SelectorKey) -> Option<
    objc_method,
> {
    if responds_to(methods, selector) {
        Some(methods[choose|i: int| is_first_match(methods, selector, i)])
    } else {
        None
    }
}

/// The entry point that a message with `selector` resolves to in `methods`: that
/// of the first method, in list order, that answers to it.
pub open spec fn resolve_method(methods: Seq<objc_method>, selector: SelectorKey) -> Option<
    objc_imp,
> {
    match method_for(methods, selector) {
        Some(method) => Some(method.imp),
        None => None,
    }
}

/// At most one entry is the first match.
pub proof fn lemma_first_match_unique(
    methods: Seq<objc_method>,
    selector: SelectorKey,
    i: int,
    j: int,
)
    requires
        is_first_match(methods, selector, i),
        is_first_match(methods, selector, j),
    ensures
        i == j,
{
    if i < j {
        assert(methods[i].selector != selector);
    } else if j < i {
        assert(methods[j].selector != selector);
    }
}

/// The first match decides what a message resolves to.
pub proof fn lemma_first_match_resolves(methods: Seq<objc_method>, selector: SelectorKey, i: int)
    requires
        is_first_match(methods, selector, i),
    ensures
        method_for(methods, selector) == Some(methods[i]),
        resolve_method(methods, selector) == Some(methods[i].imp),
{
    assert(responds_to(methods, selector));
    let j = choose|j: int| is_first_match(methods, selector, j);
    lemma_first_match_unique(methods, selector, i, j);
}

/// A method appended to a list is found only where no earlier one answers to
/// its selector; every other selector resolves as before.
pub proof fn lemma_resolve_after_push(
    methods: Seq<objc_method>,
    method: objc_method,
    selector: SelectorKey,
)
    ensures
        resolve_method(methods.push(method), selector) == (if responds_to(methods, selector) {
            resolve_method(methods, selector)
        } else if method.selector == selector {
            Some(method.imp)
        } else {
            None
        }),
{
    let longer = methods.push(method);
    if responds_to(methods, selector) {
        let i = choose|i: int| 0 <= i < methods.len() && (#[trigger] methods[i]).selector
            == selector;
        lemma_first_exists(methods, selector, i);
        let f = choose|f: int| is_first_match(methods, selector, f);
        assert(is_first_match(longer, selector, f)) by {
            assert(longer[f] == methods[f]);
            assert forall|j: int| 0 <= j < f implies (#[trigger] longer[j]).selector
                != selector by {
                assert(longer[j] == methods[j]);
                assert(methods[j].selector != selector);
            }
        }
        lemma_first_match_resolves(longer, selector, f);
        lemma_first_match_resolves(methods, selector, f);
    } else if method.selector == selector {
        let last = methods.len() as int;
        assert(is_first_match(longer, selector, last)) by {
            assert(longer[last] == method);
            assert forall|j: int| 0 <= j < last implies (#[trigger] longer[j]).selector
                != selector by {
                assert(longer[j] == methods[j]);
                assert(methods[j].selector != selector);
            }
        }
        lemma_first_match_resolves(longer, selector, last);
    } else {
        if responds_to(longer, selector) {
            let i = choose|i: int| 0 <= i < longer.len() && (#[trigger] longer[i]).selector
                == selector;
            if i < methods.len() {
                assert(longer[i] == methods[i]);
                assert(methods[i].selector == selector);
            }
        }
    }
}

/// Where some method answers to a selector, a first one does.
pub proof fn lemma_first_exists(methods: Seq<objc_method>, selector: SelectorKey, i: int)
    requires
        0 <= i < methods.len(),
        methods[i].selector == selector,
    ensures
        exists|f: int| is_first_match(methods, selector, f),
    decreases i,
{
    if forall|j: int| 0 <= j < i ==> (#[trigger] methods[j]).selector != selector {
        assert(is_first_match(methods, selector, i));
    } else {
        let j = choose|j: int| 0 <= j < i && (#[trigger] methods[j]).selector == selector;
        lemma_first_exists(methods, selector, j);
    }
}

impl objc_class {
    /// A class record with header `class_key` and data `class_data`.
    pub fn new(class_key: ClassKey, class_data: ClassData) -> (r: objc_class)
        ensures
            r.0.is_a.0 == class_key,
            r.0.data == class_data,
    {
        objc_class(Repr::new(class_key, class_data))
    }

    /// The handle of the class's metaclass.
    pub open spec fn metaclass(&self) -> ClassKey {
        self.0.is_a.0
    }

    /// The handle of the class's superclass, if it has one.
    pub open spec fn superclass(&self) -> Option<ClassKey> {
        self.0.data.superclass
    }

    /// The class's instance variables, in the order of their declaration.
    pub open spec fn ivars(&self) -> Seq<objc_ivar> {
        self.0.data.ivars@
    }

    /// The class's methods, in the order in which they were added.
    pub open spec fn methods(&self) -> Seq<objc_method> {
        self.0.data.methods@
    }

    /// The layout of the ivars added so far: nothing, at byte alignment, before
    /// the first one.
    pub open spec fn cumulative_layout(&self) -> Layout {
        match self.0.data.ivar_layout {
            Some(layout) => layout,
            None => Layout::empty(),
        }
    }

    /// The cumulative layout and the offsets are those of the ivars laid out
    /// one after the other in the order of declaration. So the ivars lie one
    /// after the other inside the cumulative layout, each at a multiple of its
    /// alignment. No two ivars share a name.
    pub open spec fn wf(&self) -> bool {
        let ivars = self.ivars();
        let whole = self.cumulative_layout();
        &&& whole.wf()
        &&& whole == chain_layout(ivars)
        &&& (self.0.data.ivar_layout is None ==> ivars.len() == 0)
        &&& forall|i: int|
            0 <= i < ivars.len() ==> {
                &&& is_pow2((#[trigger] ivars[i]).alignment as int)
                &&& ivars[i].offset == chain_offset(ivars, i)
                &&& ivars[i].offset as int % ivars[i].alignment as int == 0
                &&& ivars[i].end() <= whole.size
                &&& ivars[i].alignment <= whole.align
            }
        &&& forall|i: int, j: int|
            0 <= i < j < ivars.len() ==> (#[trigger] ivars[i]).end() <= (#[trigger] ivars[j]).offset
        &&& forall|i: int, j: int|
            0 <= i < j < ivars.len() ==> (#[trigger] ivars[i]).name@ != (#[trigger] ivars[j]).name@
    }

    /// Whether `ivar` can be laid out after the ivars added so far: its own size
    /// fits at its alignment, and so does the cumulative layout extended by it.
    pub open spec fn can_place(&self, ivar: objc_ivar) -> bool {
        &&& layout_fits(ivar.size as int, ivar.alignment as int)
        &&& self.cumulative_layout().extend_spec(
            Layout { size: ivar.size, align: ivar.alignment },
        ) is Some
    }

    /// Whether `self` is `before` with `ivar` added at `offset` and with the
    /// cumulative layout `whole`: the new ivar stands last, and nothing else of
    /// the record has changed.
    pub open spec fn is_with_ivar(
        &self,
        before: objc_class,
        ivar: objc_ivar,
        offset: usize,
        whole: Layout,
    ) -> bool {
        &&& self.ivars() == before.ivars().push(
            objc_ivar {
                name: ivar.name,
                size: ivar.size,
                alignment: ivar.alignment,
                offset,
                types: ivar.types,
            },
        )
        &&& self.0.data.ivar_layout == Some(whole)
        &&& self.0.is_a == before.0.is_a
        &&& self.0.data.superclass == before.0.data.superclass
        &&& self.0.data.name == before.0.data.name
        &&& self.0.data.index == before.0.data.index
        &&& self.0.data.methods == before.0.data.methods
        &&& self.0.data.properties == before.0.data.properties
        &&& self.0.data.info == before.0.data.info
        &&& self.0.data.extra_bytes == before.0.data.extra_bytes
    }

    /// The layout of what follows the header in an instance: the ivar block and
    /// then the extra bytes, at byte alignment. `None` where that does not fit.
    pub open spec fn body_layout_spec(&self) -> Option<Layout> {
        match self.cumulative_layout().extend_spec(
            Layout { size: self.0.data.extra_bytes, align: 1 },
        ) {
            Some((body, _)) => Some(body),
            None => None,
        }
    }

    /// The layout of an instance, header first, and the offset of the ivar
    /// block in it. `None` where the instance does not fit.
    pub open spec fn instance_parts_spec(&self) -> Option<(Layout, usize)> {
        match self.body_layout_spec() {
            Some(body) => header_layout().extend_spec(body),
            None => None,
        }
    }

    /// The layout of an instance: the header, the ivar block and the extra
    /// bytes, in that order.
    pub open spec fn instance_layout_spec(&self) -> Option<Layout> {
        match self.instance_parts_spec() {
            Some((whole, _)) => Some(whole),
            None => None,
        }
    }

    /// Whether the record is a metaclass.
    pub fn is_metaclass(&self) -> (r: bool)
        ensures
            r == self.0.data.info.is_meta(),
    {
        self.0.data.info.contains(Flags::META())
    }

    /// The handle of the class's metaclass.
    pub fn is_a(&self) -> (r: ClassKey)
        ensures
            r == self.metaclass(),
    {
        self.0.is_a()
    }

    /// The class's own handle.
    pub fn index(&self) -> (r: ClassKey)
        ensures
            r == self.0.data.index,
    {
        self.0.data.index
    }

    pub fn name(&self) -> (r: &String)
        ensures
            r == self.0.data.name,
    {
        &self.0.data.name
    }

    /// The handle of the class's superclass, if it has one.
    pub fn superclass_key(&self) -> (r: Option<ClassKey>)
        ensures
            r == self.superclass(),
    {
        self.0.data.superclass
    }

    /// The class's ivars, in the order of their declaration.
    pub fn ivar_list(&self) -> (r: &Vec<objc_ivar>)
        ensures
            r@ == self.ivars(),
    {
        &self.0.data.ivars
    }

    /// The class's declared properties.
    pub fn property_list(&self) -> (r: &Vec<Property>)
        ensures
            r@ == self.0.data.properties@,
    {
        &self.0.data.properties
    }

    /// Where the ivar named `name` stands in the ivar list, if there is one.
    pub fn ivar_position(&self, name: &String) -> (r: Option<usize>)
        ensures
            match r {
                Some(i) => is_first_ivar(self.ivars(), name@, i as int),
                None => !has_ivar_named(self.ivars(), name@),
            },
    {
        let mut i: usize = 0;
        while i < self.0.data.ivars.len()
            invariant
                i <= self.ivars().len(),
                forall|j: int| 0 <= j < i ==> (#[trigger] self.ivars()[j]).name@ != name@,
            decreases self.ivars().len() - i,
        {
            if self.0.data.ivars[i].name == *name {
                return Some(i);
            }
            i += 1;
        }
        None
    }

    /// The ivar named `name`: the first one in declaration order, which in a
    /// well-formed class is the only one.
    pub fn instance_variable(&self, name: &String) -> (r: Option<&objc_ivar>)
        ensures
            match r {
                Some(ivar) => ivar_named(self.ivars(), name@) == Some(*ivar),
                None => ivar_named(self.ivars(), name@) is None,
            },
    {
        match self.ivar_position(name) {
            Some(i) => {
                proof {
                    lemma_first_ivar_is_named(self.ivars(), name@, i as int);
                }
                Some(&self.0.data.ivars[i])
            },
            None => None,
        }
    }

    /// Adds `ivar` after the ivars already there. Whether the class has been
    /// registered plays no part: ivars may be added before and after.
    ///
    /// Fails, and leaves the class as it was, where an ivar of that name is
    /// already there or the ivar cannot be laid out. Otherwise the ivar's offset
    /// is the least multiple of its alignment at or above the cumulative size;
    /// the cumulative size becomes that offset plus the ivar's size, and the
    /// cumulative alignment the larger of the old one and the ivar's.
    pub fn add_ivar(&mut self, ivar: objc_ivar) -> (r: bool)
        requires
            old(self).wf(),
        ensures
            final(self).wf(),
            r == (!has_ivar_named(old(self).ivars(), ivar.name@) && old(self).can_place(ivar)),
            !r ==> *final(self) == *old(self),
            r ==> {
                let (whole, offset) = old(self).cumulative_layout().extend_spec(
                    Layout { size: ivar.size, align: ivar.alignment },
                )->0;
                &&& final(self).is_with_ivar(*old(self), ivar, offset, whole)
                &&& offset == round_up(
                    old(self).cumulative_layout().size as int,
                    ivar.alignment as int,
                )
                &&& whole.size == offset + ivar.size
                &&& whole.align == (if old(self).cumulative_layout().align >= ivar.alignment {
                    old(self).cumulative_layout().align
                } else {
                    ivar.alignment
                })
            },
    {
        if self.ivar_position(&ivar.name).is_some() {
            return false;
        }
        let new_layout = match Layout::from_size_align(ivar.size, ivar.alignment) {
            Some(layout) => layout,
            None => {
                return false;
            },
        };
        let current = match self.0.data.ivar_layout {
            Some(layout) => layout,
            None => Layout::new_empty(),
        };
        let (whole, offset) = match current.extend(&new_layout) {
            Some(pair) => pair,
            None => {
                return false;
            },
        };
        let ghost before = *self;
        let placed = objc_ivar {
            name: ivar.name,
            size: ivar.size,
            alignment: ivar.alignment,
            offset,
            types: ivar.types,
        };
        self.0.data.ivar_layout = Some(whole);
        self.0.data.ivars.push(placed);
        proof {
            let after = *self;
            let n = before.ivars().len() as int;
            assert(after.ivars() == before.ivars().push(placed));
            assert(after.is_with_ivar(before, ivar, offset, whole));
            lemma_pow2_positive(ivar.alignment as int);
            assert(after.ivars().drop_last() == before.ivars());
            assert(whole == chain_layout(after.ivars()));
            assert forall|i: int| 0 <= i < after.ivars().len() implies {
                &&& is_pow2((#[trigger] after.ivars()[i]).alignment as int)
                &&& after.ivars()[i].offset == chain_offset(after.ivars(), i)
                &&& after.ivars()[i].offset as int % after.ivars()[i].alignment as int == 0
                &&& after.ivars()[i].end() <= whole.size
                &&& after.ivars()[i].alignment <= whole.align
            } by {
                if i < n {
                    assert(after.ivars()[i] == before.ivars()[i]);
                    assert(before.ivars()[i].end() <= current.size);
                    assert(after.ivars().take(i) == before.ivars().take(i));
                } else {
                    assert(after.ivars().take(i) == before.ivars());
                }
            }
            assert forall|i: int, j: int| 0 <= i < j < after.ivars().len() implies (
            #[trigger] after.ivars()[i]).end() <= (#[trigger] after.ivars()[j]).offset by {
                assert(after.ivars()[i] == before.ivars()[i]);
                if j < n {
                    assert(after.ivars()[j] == before.ivars()[j]);
                } else {
                    assert(before.ivars()[i].end() <= current.size);
                }
            }
            assert forall|i: int, j: int| 0 <= i < j < after.ivars().len() implies (
            #[trigger] after.ivars()[i]).name@ != (#[trigger] after.ivars()[j]).name@ by {
                assert(after.ivars()[i] == before.ivars()[i]);
                if j < n {
                    assert(after.ivars()[j] == before.ivars()[j]);
                }
            }
        }
        true
    }

    /// Appends `method` to the method list. A method for a selector that the
    /// list already answers to is appended all the same; it stays behind the
    /// earlier one, which is the one that messages resolve to.
    pub fn add_method(&mut self, method: objc_method)
        ensures
            final(self).methods() == old(self).methods().push(method),
            final(self).0.is_a == old(self).0.is_a,
            final(self).0.data.superclass == old(self).0.data.superclass,
            final(self).0.data.name == old(self).0.data.name,
            final(self).0.data.index == old(self).0.data.index,
            final(self).0.data.ivars == old(self).0.data.ivars,
            final(self).0.data.properties == old(self).0.data.properties,
            final(self).0.data.info == old(self).0.data.info,
            final(self).0.data.ivar_layout == old(self).0.data.ivar_layout,
            final(self).0.data.extra_bytes == old(self).0.data.extra_bytes,
            final(self).wf() == old(self).wf(),
    {
        let ghost before = *self;
        self.0.data.methods.push(method);
        proof {
            assert(self.ivars() == before.ivars());
            assert(self.cumulative_layout() == before.cumulative_layout());
        }
    }

    /// The first method, in list order, that answers to `selector`.
    pub fn find_method(&self, selector: SelectorKey) -> (r: Option<&objc_method>)
        ensures
            match r {
                Some(method) => method_for(self.methods(), selector) == Some(*method),
                None => method_for(self.methods(), selector) is None,
            },
    {
        let mut i: usize = 0;
        while i < self.0.data.methods.len()
            invariant
                i <= self.methods().len(),
                forall|j: int| 0 <= j < i ==> (#[trigger] self.methods()[j]).selector != selector,
            decreases self.methods().len() - i,
        {
            if self.0.data.methods[i].selector == selector {
                proof {
                    assert(is_first_match(self.methods(), selector, i as int));
                    lemma_first_match_resolves(self.methods(), selector, i as int);
                }
                return Some(&self.0.data.methods[i]);
            }
            i += 1;
        }
        None
    }

    /// Whether instances of the class answer to `selector` through a method of
    /// the class itself.
    pub fn responds_to_selector(&self, selector: SelectorKey) -> (r: bool)
        ensures
            r == responds_to(self.methods(), selector),
    {
        self.find_method(selector).is_some()
    }

    /// The entry point that a message with `selector` resolves to in this
    /// class's own method list.
    pub fn lookup_imp(&self, selector: SelectorKey) -> (r: Option<objc_imp>)
        ensures
            r == resolve_method(self.methods(), selector),
    {
        match self.find_method(selector) {
            Some(method) => Some(method.imp),
            None => None,
        }
    }

    /// The layout of what follows the header in an instance.
    pub fn body_layout(&self) -> (r: Option<Layout>)
        requires
            self.wf(),
        ensures
            r == self.body_layout_spec(),
            r matches Some(body) ==> body.wf() && body.size == self.cumulative_layout().size
                + self.0.data.extra_bytes && body.align == self.cumulative_layout().align,
    {
        let current = match self.0.data.ivar_layout {
            Some(layout) => layout,
            None => Layout::new_empty(),
        };
        proof {
            lemma_pow2_positive(current.align as int);
            lemma_pow2_mod_max(current.align as int);
            assert(is_pow2(1)) by {
                reveal(is_pow2);
            }
            lemma_pow2_mod_max(1);
        }
        let extra = match Layout::from_size_align(self.0.data.extra_bytes, 1) {
            Some(layout) => layout,
            None => {
                return None;
            },
        };
        match current.extend(&extra) {
            Some((body, _)) => Some(body),
            None => None,
        }
    }

    /// The layout of an instance and the offset of the ivar block in it.
    pub fn instance_parts(&self) -> (r: Option<(Layout, usize)>)
        requires
            self.wf(),
        ensures
            r == self.instance_parts_spec(),
            r matches Some((whole, data_offset)) ==> {
                &&& whole.wf()
                &&& whole.size >= HEADER_SIZE
                &&& whole.align >= HEADER_ALIGN
                &&& HEADER_SIZE <= data_offset
                &&& whole.size == data_offset + self.cumulative_layout().size
                    + self.0.data.extra_bytes
            },
    {
        let body = match self.body_layout() {
            Some(body) => body,
            None => {
                return None;
            },
        };
        let header = header();
        header.extend(&body)
    }

    /// The class's ivars as a list to hand out: nothing for a class without
    /// ivars, else every ivar, in the order of declaration.
    pub fn copy_ivar_list(&self) -> (r: Option<Vec<&objc_ivar>>)
        ensures
            r is None == (self.ivars().len() == 0),
            r matches Some(list) ==> {
                &&& list@.len() == self.ivars().len()
                &&& forall|i: int| 0 <= i < list@.len() ==> *(#[trigger] list@[i]) == self.ivars()[i]
            },
    {
        if self.0.data.ivars.len() == 0 {
            return None;
        }
        let mut list: Vec<&objc_ivar> = Vec::new();
        let mut i: usize = 0;
        while i < self.0.data.ivars.len()
            invariant
                i <= self.ivars().len(),
                list@.len() == i,
                forall|j: int| 0 <= j < i ==> *(#[trigger] list@[j]) == self.ivars()[j],
            decreases self.ivars().len() - i,
        {
            list.push(&self.0.data.ivars[i]);
            i += 1;
        }
        Some(list)
    }

    /// The class's properties as a list to hand out: nothing for a class
    /// without properties, else every property, in the order of declaration.
    pub fn copy_property_list(&self) -> (r: Option<Vec<&Property>>)
        ensures
            r is None == (self.0.data.properties@.len() == 0),
            r matches Some(list) ==> {
                &&& list@.len() == self.0.data.properties@.len()
                &&& forall|i: int|
                    0 <= i < list@.len() ==> *(#[trigger] list@[i]) == self.0.data.properties@[i]
            },
    {
        if self.0.data.properties.len() == 0 {
            return None;
        }
        let mut list: Vec<&Property> = Vec::new();
        let mut i: usize = 0;
        while i < self.0.data.properties.len()
            invariant
                i <= self.0.data.properties@.len(),
                list@.len() == i,
                forall|j: int|
                    0 <= j < i ==> *(#[trigger] list@[j]) == self.0.data.properties@[j],
            decreases self.0.data.properties@.len() - i,
        {
            list.push(&self.0.data.properties[i]);
            i += 1;
        }
        Some(list)
    }

    /// Where the first property named `name` stands in the property list, if
    /// there is one.
    pub fn property_position(&self, name: &String) -> (r: Option<usize>)
        ensures
            match r {
                Some(i) => {
                    &&& i < self.0.data.properties@.len()
                    &&& self.0.data.properties@[i as int].name@ == name@
                    &&& forall|j: int|
                        0 <= j < i ==> (#[trigger] self.0.data.properties@[j]).name@ != name@
                },
                None => forall|i: int|
                    0 <= i < self.0.data.properties@.len() ==> (
                    #[trigger] self.0.data.properties@[i]).name@ != name@,
            },
    {
        let mut i: usize = 0;
        while i < self.0.data.properties.len()
            invariant
                i <= self.0.data.properties@.len(),
                forall|j: int|
                    0 <= j < i ==> (#[trigger] self.0.data.properties@[j]).name@ != name@,
            decreases self.0.data.properties@.len() - i,
        {
            if self.0.data.properties[i].name == *name {
                return Some(i);
            }
            i += 1;
        }
        None
    }

    /// The first property, in the order of declaration, that is named `name`.
    pub fn find_property(&self, name: &String) -> (r: Option<&Property>)
        ensures
            match r {
                Some(property) => exists|i: int|
                    {
                        &&& 0 <= i < self.0.data.properties@.len()
                        &&& *property == #[trigger] self.0.data.properties@[i]
                        &&& property.name@ == name@
                        &&& forall|j: int|
                            0 <= j < i ==> (#[trigger] self.0.data.properties@[j]).name@ != name@
                    },
                None => forall|i: int|
                    0 <= i < self.0.data.properties@.len() ==> (
                    #[trigger] self.0.data.properties@[i]).name@ != name@,
            },
    {
        match self.property_position(name) {
            Some(i) => Some(&self.0.data.properties[i]),
            None => None,
        }
    }

    /// Allocates an instance of this class.
    ///
    /// Memory of the size of the instance layout is asked for at the alignment
    /// of the instance layout. Nothing is returned where an instance would not
    /// fit in memory or the allocator hands out no memory. An instance that is
    /// returned names this class in its header, has the size and the alignment
    /// of the instance layout, is zero behind the header, and has room for
    /// every ivar of the class.
    pub fn create_object_v2(&self) -> (r: Option<objc_object_v2>)
        requires
            self.wf(),
        ensures
            self.instance_layout_spec() is None ==> r is None,
            r matches Some(object) ==> {
                &&& self.instance_parts_spec() matches Some((whole, data_offset))
                &&& object.class() == self.0.data.index
                &&& object.wf()
                &&& object.data_offset() == data_offset
                &&& object.bytes() == new_image(object.class(), whole.size as nat)
                &&& object.alignment() == whole.align
                &&& forall|i: int|
                    0 <= i < self.ivars().len() ==> object.holds(#[trigger] self.ivars()[i])
            },
    {
        let body = match self.body_layout() {
            Some(body) => body,
            None => {
                return None;
            },
        };
        let created = objc_object_v2::new(self.0.data.index, body);
        proof {
            if created is Some {
                let object = created->0;
                assert forall|i: int| 0 <= i < self.ivars().len() implies object.holds(
                    #[trigger] self.ivars()[i],
                ) by {
                    assert(self.ivars()[i].end() <= self.cumulative_layout().size);
                }
            }
        }
        created
    }

    /// The layout of an instance: the header, then the ivar block, then the
    /// extra bytes. `None` where an instance would not fit in memory.
    pub fn instance_layout(&self) -> (r: Option<Layout>)
        requires
            self.wf(),
        ensures
            r == self.instance_layout_spec(),
    {
        match self.instance_parts() {
            Some((whole, _)) => Some(whole),
            None => None,
        }
    }
}

/// The layout of the header in front of instance storage.
pub fn header() -> (r: Layout)
    ensures
        r == header_layout(),
        r.wf(),
{
    proof {
        assert(is_pow2(4)) by {
            reveal_with_fuel(is_pow2, 3);
        }
        lemma_pow2_mod_max(4);
    }
    Layout { size: HEADER_SIZE, align: HEADER_ALIGN }
}

} // verus!
