//! The registry: the class arena with its name index, and the selector table.
use crate::arena::{
    class_arena_get, class_arena_index_mut, class_arena_insert, class_arena_len, class_arena_new,
    class_arena_view, selector_arena_get, selector_arena_index_mut, selector_arena_insert,
    selector_arena_len, selector_arena_new, selector_arena_view, ClassArena, SelectorArena,
    ARENA_CAPACITY,
};
use crate::class::{
    has_ivar_named, ivar_named, method_for, objc_class, resolve_method, responds_to, ClassData,
};
use crate::flags::Flags;
use crate::ivar::objc_ivar;
use crate::key::{bits_of, lemma_class_key_eq, lemma_selector_key_eq, ClassKey, SelectorKey};
use crate::layout::Layout;
use crate::message::Receiver;
use crate::method::{objc_imp, objc_method, IMP};
use crate::names::NameTable;
use crate::object::{new_image, objc_object_v2};
use crate::selector::{objc_selector, SelectorInfo};
use vstd::arithmetic::power2::is_pow2;
use vstd::prelude::*;

verus! {

/// The registry of classes and selectors.
pub struct Context {
    classes: ClassArena,
    selectors: SelectorArena,
    registered_classes: NameTable<ClassKey>,
    selectors_by_name: NameTable<SelectorKey>,
}

impl Context {
    /// The class records, each under the bits of its handle.
    pub closed spec fn classes(&self) -> Map<u64, objc_class> {
        class_arena_view(self.classes)
    }

    /// The selector records, each under the bits of its handle.
    pub closed spec fn selectors(&self) -> Map<u64, objc_selector> {
        selector_arena_view(self.selectors)
    }

    /// The names under which classes have been registered, each with the
    /// handle that it was last registered for.
    pub closed spec fn registered(&self) -> Map<Seq<char>, ClassKey> {
        self.registered_classes@
    }

    /// The names that have been interned, each with its selector's handle.
    pub closed spec fn selector_names(&self) -> Map<Seq<char>, SelectorKey> {
        self.selectors_by_name@
    }

    /// In neither index does a name stand twice.
    pub closed spec fn indexes_wf(&self) -> bool {
        self.registered_classes.wf() && self.selectors_by_name.wf()
    }

    /// Whether `key` is the handle of a class record.
    pub open spec fn has_class(&self, key: ClassKey) -> bool {
        self.classes().contains_key(key@)
    }

    /// The class record that `key` is the handle of.
    pub open spec fn class(&self, key: ClassKey) -> objc_class {
        self.classes()[key@]
    }

    /// Whether `key` is the handle of a selector record.
    pub open spec fn has_selector(&self, key: SelectorKey) -> bool {
        self.selectors().contains_key(key@)
    }

    /// The selector record that `key` is the handle of.
    pub open spec fn selector(&self, key: SelectorKey) -> objc_selector {
        self.selectors()[key@]
    }

    /// What holds of the class record under the handle bits `k`: it is well
    /// formed and knows its own handle; its metaclass is a live record with the
    /// metaclass flag; its superclass, if it has one, is live; a metaclass has a
    /// superclass; and the metaclass of a class that is no metaclass itself is
    /// linked by the rule for root and derived classes.
    pub open spec fn class_ok(&self, k: u64) -> bool {
        let c = self.classes()[k];
        let m = self.classes()[c.metaclass()@];
        &&& c.wf()
        &&& c.0.data.index@ == k
        &&& self.classes().contains_key(c.metaclass()@)
        &&& m.0.data.info.is_meta()
        &&& (c.superclass() matches Some(s) ==> self.classes().contains_key(s@))
        &&& (c.0.data.info.is_meta() ==> c.superclass() is Some)
        &&& (!c.0.data.info.is_meta() ==> match c.superclass() {
            None => m.metaclass()@ == c.metaclass()@ && bits_of(m.superclass()) == Some(k),
            Some(s) => m.metaclass()@ == self.classes()[s@].metaclass()@ && bits_of(m.superclass())
                == Some(self.classes()[s@].metaclass()@),
        })
    }

    /// What holds of the selector record under the handle bits `k`: it knows
    /// its own handle, and its name is interned under that handle.
    pub open spec fn selector_ok(&self, k: u64) -> bool {
        let s = self.selectors()[k];
        &&& s.index@ == k
        &&& self.selector_names().contains_key(s.selector_info.name@)
        &&& self.selector_names()[s.selector_info.name@]@ == k
    }

    /// The registry's invariant. Every constructor establishes it and every
    /// operation keeps it.
    pub open spec fn wf(&self) -> bool {
        &&& self.indexes_wf()
        &&& self.classes().dom().finite()
        &&& self.selectors().dom().finite()
        &&& forall|k: u64| self.classes().contains_key(k) ==> #[trigger] self.class_ok(k)
        &&& forall|k: u64| self.selectors().contains_key(k) ==> #[trigger] self.selector_ok(k)
        &&& forall|name: Seq<char>| #[trigger]
            self.registered().contains_key(name) ==> {
                &&& self.has_class(self.registered()[name])
                &&& self.class(self.registered()[name]).0.data.name@ == name
            }
        &&& forall|name: Seq<char>| #[trigger]
            self.selector_names().contains_key(name) ==> {
                &&& self.has_selector(self.selector_names()[name])
                &&& self.selector(self.selector_names()[name]).selector_info.name@ == name
            }
    }

    /// The handle of the metaclass of the class `key`, if `key` is live.
    pub open spec fn metaclass_of_spec(&self, key: ClassKey) -> Option<ClassKey> {
        if self.has_class(key) {
            Some(self.class(key).metaclass())
        } else {
            None
        }
    }

    /// The handle of the superclass of the class `key`, if `key` is live and
    /// the class has one.
    pub open spec fn superclass_of_spec(&self, key: ClassKey) -> Option<ClassKey> {
        if self.has_class(key) {
            self.class(key).superclass()
        } else {
            None
        }
    }

    /// What a message with `selector` to `receiver` resolves to: the first
    /// method for `selector` in the method list of the receiver's own class.
    /// Superclasses are not searched. Nothing, where the receiver's class or
    /// the selector is not live.
    pub open spec fn lookup_spec(&self, receiver: Receiver, selector: SelectorKey) -> Option<
        objc_imp,
    > {
        if self.has_class(receiver.0) && self.has_selector(selector) {
            resolve_method(self.class(receiver.0).methods(), selector)
        } else {
            None
        }
    }

    /// The ivar named `name` of the class `key`; none where `key` is not live.
    pub open spec fn ivar_of(&self, key: ClassKey, name: Seq<char>) -> Option<objc_ivar> {
        if self.has_class(key) {
            ivar_named(self.class(key).ivars(), name)
        } else {
            None
        }
    }

    /// The first method for `selector` in the method list of the class `key`;
    /// none where `key` is not live.
    pub open spec fn method_of(&self, key: ClassKey, selector: SelectorKey) -> Option<objc_method> {
        if self.has_class(key) {
            method_for(self.class(key).methods(), selector)
        } else {
            None
        }
    }

    /// An empty registry.
    pub fn new() -> (context: Context)
        ensures
            context.wf(),
            context.classes() == Map::<u64, objc_class>::empty(),
            context.selectors() == Map::<u64, objc_selector>::empty(),
            context.registered() == Map::<Seq<char>, ClassKey>::empty(),
            context.selector_names() == Map::<Seq<char>, SelectorKey>::empty(),
    {
        let context = Context {
            classes: class_arena_new(),
            selectors: selector_arena_new(),
            registered_classes: NameTable::new(),
            selectors_by_name: NameTable::new(),
        };
        assert(context.classes() =~= Map::<u64, objc_class>::empty());
        assert(context.selectors() =~= Map::<u64, objc_selector>::empty());
        context
    }

    /// How many class records the registry holds, metaclasses included.
    pub fn class_count(&self) -> (n: usize)
        ensures
            n == self.classes().len(),
    {
        class_arena_len(&self.classes)
    }

    /// How many selectors have been interned.
    pub fn selector_count(&self) -> (n: usize)
        ensures
            n == self.selectors().len(),
    {
        selector_arena_len(&self.selectors)
    }

    /// The class record under `key`, if `key` is live.
    pub fn class_record(&self, key: ClassKey) -> (r: Option<&objc_class>)
        ensures
            r == (if self.has_class(key) {
                Some(&self.class(key))
            } else {
                None
            }),
    {
        class_arena_get(&self.classes, key.as_raw())
    }

    /// The selector record under `key`, if `key` is live.
    pub fn selector_record(&self, key: SelectorKey) -> (r: Option<&objc_selector>)
        ensures
            r == (if self.has_selector(key) {
                Some(&self.selector(key))
            } else {
                None
            }),
    {
        selector_arena_get(&self.selectors, key.as_raw())
    }

    /// The handle of the metaclass of the class `key`; nothing where `key` is
    /// not live.
    pub fn metaclass_of(&self, key: ClassKey) -> (r: Option<ClassKey>)
        ensures
            r == self.metaclass_of_spec(key),
    {
        match self.class_record(key) {
            Some(class) => Some(class.is_a()),
            None => None,
        }
    }

    /// The handle of the superclass of the class `key`; nothing where `key` is
    /// not live or the class is a root class.
    pub fn superclass_of(&self, key: ClassKey) -> (r: Option<ClassKey>)
        ensures
            r == self.superclass_of_spec(key),
    {
        match self.class_record(key) {
            Some(class) => class.superclass_key(),
            None => None,
        }
    }

    /// The handle that `name` was last registered for. Classes that were
    /// allocated but not registered are not found.
    pub fn lookup_by_name(&self, name: &String) -> (r: Option<ClassKey>)
        requires
            self.wf(),
        ensures
            r == (if self.registered().contains_key(name@) {
                Some(self.registered()[name@])
            } else {
                None
            }),
    {
        self.registered_classes.get(name)
    }

    /// Whether the class `key` has been registered and its name still stands
    /// for it.
    pub fn is_registered(&self, key: ClassKey) -> (r: bool)
        requires
            self.wf(),
        ensures
            r == (self.has_class(key) && self.registered().contains_key(
                self.class(key).0.data.name@,
            ) && self.registered()[self.class(key).0.data.name@] == key),
    {
        match self.class_record(key) {
            Some(class) => match self.registered_classes.get(class.name()) {
                Some(found) => found == key,
                None => false,
            },
            None => false,
        }
    }

    /// The ivars of the class `key` as a list to hand out: nothing where `key`
    /// is not live or the class has no ivars, else every ivar, in the order of
    /// declaration.
    pub fn copy_ivar_list(&self, key: ClassKey) -> (r: Option<Vec<&objc_ivar>>)
        ensures
            r is None == (!self.has_class(key) || self.class(key).ivars().len() == 0),
            r matches Some(list) ==> {
                &&& list@.len() == self.class(key).ivars().len()
                &&& forall|i: int|
                    0 <= i < list@.len() ==> *(#[trigger] list@[i]) == self.class(key).ivars()[i]
            },
    {
        match self.class_record(key) {
            Some(class) => class.copy_ivar_list(),
            None => None,
        }
    }

    /// The handle of the metaclass of the class registered under `name`.
    pub fn metaclass_by_name(&self, name: &String) -> (r: Option<ClassKey>)
        requires
            self.wf(),
        ensures
            r == (if self.registered().contains_key(name@) {
                Some(self.class(self.registered()[name@]).metaclass())
            } else {
                None
            }),
    {
        match self.registered_classes.get(name) {
            Some(key) => self.metaclass_of(key),
            None => None,
        }
    }

    /// Whether `record` is a class record as allocation makes it: named `name`,
    /// knowing the handle bits `index`, with `extra_bytes` extra bytes and with
    /// no ivars, methods or properties yet.
    pub open spec fn is_new_record(
        record: objc_class,
        name: Seq<char>,
        index: u64,
        extra_bytes: usize,
    ) -> bool {
        &&& record.0.data.name@ == name
        &&& record.0.data.index@ == index
        &&& record.0.data.extra_bytes == extra_bytes
        &&& record.0.data.info.is_user_created()
        &&& record.0.data.ivar_layout is None
        &&& record.ivars().len() == 0
        &&& record.methods().len() == 0
        &&& record.0.data.properties@.len() == 0
    }

    /// Whether `other` holds the same class records, registered names and
    /// selectors as `self`.
    pub open spec fn same_state(&self, other: Context) -> bool {
        &&& self.classes() == other.classes()
        &&& self.registered() == other.registered()
        &&& self.selectors() == other.selectors()
        &&& self.selector_names() == other.selector_names()
    }

    /// Whether `self` is `before` with a class pair added: the class `class`,
    /// named `name`, with superclass `superclass` and `extra_bytes` extra bytes,
    /// and its metaclass.
    ///
    /// Both records are new and every older record is as it was. For a root class
    /// the metaclass is its own metaclass and has the class as its superclass;
    /// for a derived class the metaclass of the superclass is both the metaclass
    /// and the superclass of the new metaclass. The name index and the selector
    /// table are as they were.
    pub open spec fn is_with_pair(
        &self,
        before: Context,
        class: ClassKey,
        superclass: Option<ClassKey>,
        name: Seq<char>,
        extra_bytes: usize,
    ) -> bool {
        let meta = self.class(class).metaclass();
        &&& !before.has_class(class)
        &&& !before.has_class(meta)
        &&& class != meta
        &&& self.classes().dom() == before.classes().dom().insert(class@).insert(meta@)
        &&& forall|k: u64| #[trigger]
            before.classes().contains_key(k) ==> self.classes()[k] == before.classes()[k]
        &&& Context::is_new_record(self.class(class), name, class@, extra_bytes)
        &&& self.class(class).0.data.info == Flags::user_class()
        &&& !self.class(class).0.data.info.is_meta()
        &&& self.class(class).superclass() == superclass
        &&& Context::is_new_record(self.class(meta), name, meta@, 0)
        &&& self.class(meta).0.data.info == Flags::user_metaclass()
        &&& self.class(meta).0.data.info.is_meta()
        &&& match superclass {
            None => {
                &&& self.class(meta).metaclass() == meta
                &&& self.class(meta).superclass() == Some(class)
            },
            Some(s) => {
                &&& self.class(meta).metaclass() == before.class(s).metaclass()
                &&& self.class(meta).superclass() == Some(before.class(s).metaclass())
            },
        }
        &&& self.registered() == before.registered()
        &&& self.selectors() == before.selectors()
        &&& self.selector_names() == before.selector_names()
    }

    /// Adding a class pair with a live superclass, or none, keeps the
    /// registry's invariant.
    proof fn lemma_pair_keeps_wf(
        &self,
        before: Context,
        class: ClassKey,
        superclass: Option<ClassKey>,
        name: Seq<char>,
        extra_bytes: usize,
    )
        requires
            before.wf(),
            self.indexes_wf(),
            superclass matches Some(s) ==> before.has_class(s),
            self.is_with_pair(before, class, superclass, name, extra_bytes),
        ensures
            self.wf(),
    {
        let meta = self.class(class).metaclass();
        lemma_class_key_eq(class, meta);
        assert(is_pow2(1)) by {
            reveal(is_pow2);
        }
        crate::layout::lemma_pow2_mod_max(1);
        assert(self.class(class).wf());
        assert(self.class(meta).wf());
        assert forall|k: u64| self.classes().contains_key(k) implies #[trigger] self.class_ok(
            k,
        ) by {
            if k == class@ {
                if let Some(s) = superclass {
                    assert(before.classes().contains_key(s@));
                    assert(before.class_ok(s@));
                }
            } else if k == meta@ {
                if let Some(s) = superclass {
                    assert(before.classes().contains_key(s@));
                    assert(before.class_ok(s@));
                    let up = before.classes()[s@].metaclass();
                    assert(before.classes().contains_key(up@));
                }
            } else {
                assert(before.classes().dom().insert(class@).insert(meta@).contains(k));
                assert(before.classes().contains_key(k));
                assert(before.class_ok(k));
                let c = before.classes()[k];
                assert(self.classes()[k] == c);
                assert(before.classes().contains_key(c.metaclass()@));
                if let Some(s) = c.superclass() {
                    assert(before.classes().contains_key(s@));
                }
            }
        }
        assert forall|n: Seq<char>| #[trigger] self.registered().contains_key(n) implies {
            &&& self.has_class(self.registered()[n])
            &&& self.class(self.registered()[n]).0.data.name@ == n
        } by {
            assert(before.registered().contains_key(n));
            assert(before.has_class(before.registered()[n]));
        }
        assert forall|k: u64| self.selectors().contains_key(k) implies #[trigger] self.selector_ok(
            k,
        ) by {
            assert(before.selector_ok(k));
        }
        assert forall|n: Seq<char>| #[trigger] self.selector_names().contains_key(n) implies {
            &&& self.has_selector(self.selector_names()[n])
            &&& self.selector(self.selector_names()[n]).selector_info.name@ == n
        } by {
            assert(before.selector_names().contains_key(n));
        }
    }

    /// Allocates a class named `name` together with its metaclass, and gives
    /// the class's handle. The name is not published: see
    /// [`Context::register_class_pair`].
    ///
    /// Nothing is allocated, and the registry stays as it was, where `name` is
    /// the name of a registered class or `superclass` is not live. Otherwise
    /// the registry is as [`Context::is_with_pair`] says; the arena must then
    /// have room for two more records.
    pub fn allocate_class_pair(
        &mut self,
        superclass: Option<ClassKey>,
        name: String,
        extra_bytes: usize,
    ) -> (r: Option<ClassKey>)
        requires
            old(self).wf(),
            old(self).registered().contains_key(name@) || (superclass matches Some(s)
                && !old(self).has_class(s)) || old(self).classes().len() + 2 <= ARENA_CAPACITY,
        ensures
            final(self).wf(),
            r is None == (old(self).registered().contains_key(name@) || (superclass matches Some(s)
                && !old(self).has_class(s))),
            r is None ==> final(self).same_state(*old(self)),
            r matches Some(class) ==> final(self).is_with_pair(
                *old(self),
                class,
                superclass,
                name@,
                extra_bytes,
            ),
    {
        if self.registered_classes.contains(&name) {
            return None;
        }
        let super_meta: Option<ClassKey> = match superclass {
            None => None,
            Some(s) => match self.class_record(s) {
                Some(record) => Some(record.is_a()),
                None => {
                    return None;
                },
            },
        };
        let ghost before = *self;
        let ghost class_name = name@;
        // The two records are linked once both handles are known.
        let blank = ClassKey::from_raw(0);
        let class_data = ClassData {
            superclass,
            name: name.clone(),
            index: blank,
            ivars: Vec::new(),
            methods: Vec::new(),
            properties: Vec::new(),
            info: Flags::USER_CREATED(),
            ivar_layout: None,
            extra_bytes,
        };
        let class_raw = class_arena_insert(&mut self.classes, objc_class::new(blank, class_data));
        let class_key = ClassKey::from_handle(class_raw);
        let meta_super = match super_meta {
            Some(up) => up,
            None => class_key,
        };
        let meta_data = ClassData {
            superclass: Some(meta_super),
            name,
            index: blank,
            ivars: Vec::new(),
            methods: Vec::new(),
            properties: Vec::new(),
            info: Flags::USER_CREATED().union(Flags::META()),
            ivar_layout: None,
            extra_bytes: 0,
        };
        let meta_raw = class_arena_insert(&mut self.classes, objc_class::new(blank, meta_data));
        let meta_key = ClassKey::from_handle(meta_raw);
        let meta_is_a = match super_meta {
            Some(up) => up,
            None => meta_key,
        };
        let slot = class_arena_index_mut(&mut self.classes, meta_raw);
        slot.0.set__is_a(meta_is_a);
        slot.0.data.index = meta_key;
        let slot = class_arena_index_mut(&mut self.classes, class_raw);
        slot.0.set__is_a(meta_key);
        slot.0.data.index = class_key;
        proof {
            lemma_class_key_eq(class_key, meta_key);
            assert(2usize | 1usize == 3usize) by (bit_vector);
            assert(self.classes().dom() =~= before.classes().dom().insert(class_raw).insert(
                meta_raw,
            ));
            assert(self.is_with_pair(before, class_key, superclass, class_name, extra_bytes));
            self.lemma_pair_keeps_wf(before, class_key, superclass, class_name, extra_bytes);
        }
        Some(class_key)
    }

    /// Whether `a` and `b` agree in what links a class record to others and
    /// names it: metaclass, superclass, name, own handle and flags.
    pub open spec fn same_links(a: objc_class, b: objc_class) -> bool {
        &&& a.0.is_a == b.0.is_a
        &&& a.0.data.superclass == b.0.data.superclass
        &&& a.0.data.name == b.0.data.name
        &&& a.0.data.index == b.0.data.index
        &&& a.0.data.info == b.0.data.info
    }

    /// Whether `self` is `before` but for the class record under `key`, which
    /// has kept its links.
    pub open spec fn is_with_record(&self, before: Context, key: ClassKey) -> bool {
        &&& before.has_class(key)
        &&& self.classes() == before.classes().insert(key@, self.class(key))
        &&& Context::same_links(self.class(key), before.class(key))
        &&& self.registered() == before.registered()
        &&& self.selectors() == before.selectors()
        &&& self.selector_names() == before.selector_names()
    }

    /// Replacing one class record by a well-formed one with the same links
    /// keeps the registry's invariant.
    proof fn lemma_record_keeps_wf(&self, before: Context, key: ClassKey)
        requires
            before.wf(),
            self.indexes_wf(),
            self.is_with_record(before, key),
            self.class(key).wf(),
        ensures
            self.wf(),
    {
        assert(self.classes().dom() =~= before.classes().dom());
        assert forall|k: u64| self.classes().contains_key(k) implies #[trigger] self.class_ok(
            k,
        ) by {
            assert(before.classes().contains_key(k));
            assert(before.class_ok(k));
            let c = before.classes()[k];
            assert(before.classes().contains_key(c.metaclass()@));
            if let Some(s) = c.superclass() {
                assert(before.classes().contains_key(s@));
            }
        }
        assert forall|n: Seq<char>| #[trigger] self.registered().contains_key(n) implies {
            &&& self.has_class(self.registered()[n])
            &&& self.class(self.registered()[n]).0.data.name@ == n
        } by {
            assert(before.registered().contains_key(n));
            assert(before.has_class(before.registered()[n]));
        }
        assert forall|k: u64| self.selectors().contains_key(k) implies #[trigger] self.selector_ok(
            k,
        ) by {
            assert(before.selector_ok(k));
        }
        assert forall|n: Seq<char>| #[trigger] self.selector_names().contains_key(n) implies {
            &&& self.has_selector(self.selector_names()[n])
            &&& self.selector(self.selector_names()[n]).selector_info.name@ == n
        } by {
            assert(before.selector_names().contains_key(n));
        }
    }

    /// Publishes the name of the class `key`, so that [`Context::lookup_by_name`]
    /// finds `key` under it. Nothing happens where `key` is not live. A name
    /// that is registered again, for the same class or for another one, stands
    /// for the class that it was registered for last.
    pub fn register_class_pair(&mut self, key: ClassKey)
        requires
            old(self).wf(),
        ensures
            final(self).wf(),
            final(self).registered() == (if old(self).has_class(key) {
                old(self).registered().insert(old(self).class(key).0.data.name@, key)
            } else {
                old(self).registered()
            }),
            final(self).classes() == old(self).classes(),
            final(self).selectors() == old(self).selectors(),
            final(self).selector_names() == old(self).selector_names(),
    {
        let ghost before = *self;
        let name = match self.class_record(key) {
            Some(record) => record.name().clone(),
            None => {
                return ;
            },
        };
        self.registered_classes.insert(name, key);
        proof {
            assert forall|k: u64| self.classes().contains_key(k) implies #[trigger] self.class_ok(
                k,
            ) by {
                assert(before.class_ok(k));
            }
            assert forall|k: u64| self.selectors().contains_key(k) implies #[trigger]
                self.selector_ok(k) by {
                assert(before.selector_ok(k));
            }
            assert forall|n: Seq<char>| #[trigger] self.registered().contains_key(n) implies {
                &&& self.has_class(self.registered()[n])
                &&& self.class(self.registered()[n]).0.data.name@ == n
            } by {
                if n != before.class(key).0.data.name@ {
                    assert(before.registered().contains_key(n));
                }
            }
        }
    }

    /// Adds `ivar` to the class `key`.
    ///
    /// Fails, and leaves the registry as it was, where `key` is not live, the
    /// class has an ivar of that name, or the ivar cannot be laid out. Otherwise
    /// the class is as [`objc_class::add_ivar`] makes it and everything else
    /// is as it was.
    pub fn add_ivar(&mut self, key: ClassKey, ivar: objc_ivar) -> (r: bool)
        requires
            old(self).wf(),
        ensures
            final(self).wf(),
            r == (old(self).has_class(key) && !has_ivar_named(
                old(self).class(key).ivars(),
                ivar.name@,
            ) && old(self).class(key).can_place(ivar)),
            !r ==> final(self).same_state(*old(self)),
            r ==> {
                let (whole, offset) = old(self).class(key).cumulative_layout().extend_spec(
                    Layout { size: ivar.size, align: ivar.alignment },
                )->0;
                &&& final(self).is_with_record(*old(self), key)
                &&& final(self).class(key).is_with_ivar(old(self).class(key), ivar, offset, whole)
            },
    {
        let ghost before = *self;
        if self.class_record(key).is_none() {
            return false;
        }
        proof {
            assert(before.class_ok(key@));
        }
        let slot = class_arena_index_mut(&mut self.classes, key.as_raw());
        let added = slot.add_ivar(ivar);
        proof {
            self.lemma_record_keeps_wf(before, key);
            if !added {
                assert(self.classes() =~= before.classes());
            }
        }
        added
    }

    /// Whether `self` is `before` with `method` added to the class `key`: the
    /// method stands last in the class's method list, and nothing else of the
    /// class or of the registry has changed.
    pub open spec fn is_with_method(&self, before: Context, key: ClassKey, method: objc_method) -> bool {
        &&& self.is_with_record(before, key)
        &&& self.class(key).methods() == before.class(key).methods().push(method)
        &&& self.class(key).ivars() == before.class(key).ivars()
        &&& self.class(key).0.data.ivar_layout == before.class(key).0.data.ivar_layout
        &&& self.class(key).0.data.extra_bytes == before.class(key).0.data.extra_bytes
    }

    /// Adds a method for `selector` with the entry point `imp` to the class
    /// `key`, behind the methods that the class has.
    ///
    /// Fails, and leaves the registry as it was, where `key` or `selector` is
    /// not live or `imp` is none. A class may get several methods for one
    /// selector; messages resolve to the one that was added first.
    pub fn add_method(&mut self, key: ClassKey, selector: SelectorKey, imp: IMP, types: String) -> (r:
        bool)
        requires
            old(self).wf(),
        ensures
            final(self).wf(),
            r == (old(self).has_class(key) && old(self).has_selector(selector) && imp is Some),
            !r ==> final(self).same_state(*old(self)),
            r ==> final(self).is_with_method(
                *old(self),
                key,
                objc_method { imp: imp->0, selector, types },
            ),
    {
        let ghost before = *self;
        let entry = match imp {
            Some(entry) => entry,
            None => {
                return false;
            },
        };
        if self.class_record(key).is_none() {
            return false;
        }
        let method = match self.selector_record(selector) {
            Some(record) => objc_method::new(entry, record, types),
            None => {
                return false;
            },
        };
        proof {
            assert(before.class_ok(key@));
            assert(before.selector_ok(selector@));
            lemma_selector_key_eq(method.selector, selector);
        }
        let slot = class_arena_index_mut(&mut self.classes, key.as_raw());
        slot.add_method(method);
        proof {
            self.lemma_record_keeps_wf(before, key);
        }
        true
    }

    /// Whether `self` is `before` after `name` has been interned, with the
    /// result `key`.
    ///
    /// Where `name` was interned before, `key` is the handle that it had and
    /// nothing has changed. Otherwise `key` is a handle that was not live
    /// before; its record holds `name` and no type encoding, and `name` stands
    /// under `key`. Every other selector and name is as it was, and so are the
    /// classes.
    pub open spec fn is_interned(&self, before: Context, name: Seq<char>, key: SelectorKey) -> bool {
        &&& self.selector_names().contains_key(name)
        &&& self.selector_names()[name] == key
        &&& self.classes() == before.classes()
        &&& self.registered() == before.registered()
        &&& if before.selector_names().contains_key(name) {
            &&& key == before.selector_names()[name]
            &&& self.selectors() == before.selectors()
            &&& self.selector_names() == before.selector_names()
        } else {
            &&& !before.has_selector(key)
            &&& self.selectors() == before.selectors().insert(key@, self.selector(key))
            &&& self.selector(key).index == key
            &&& self.selector(key).selector_info.name@ == name
            &&& self.selector(key).selector_info.types is None
            &&& self.selector_names() == before.selector_names().insert(name, key)
        }
    }

    /// Interns `name`: gives the handle of the selector named `name`, making
    /// the selector where there is none yet. Names are compared exactly, case
    /// included. For a name that is new the table must have room for one more
    /// selector.
    pub fn allocate_selector(&mut self, name: String) -> (key: SelectorKey)
        requires
            old(self).wf(),
            old(self).selector_names().contains_key(name@) || old(self).selectors().len()
                < ARENA_CAPACITY,
        ensures
            final(self).wf(),
            final(self).is_interned(*old(self), name@, key),
    {
        let ghost before = *self;
        match self.selectors_by_name.get(&name) {
            Some(key) => {
                return key;
            },
            None => {},
        }
        let blank = SelectorKey::from_raw(0);
        let record = objc_selector { index: blank, selector_info: SelectorInfo::new(name.clone()) };
        let raw = selector_arena_insert(&mut self.selectors, record);
        let key = SelectorKey::from_handle(raw);
        let slot = selector_arena_index_mut(&mut self.selectors, raw);
        slot.index = key;
        let ghost interned = name@;
        self.selectors_by_name.insert(name, key);
        proof {
            assert(self.selectors() =~= before.selectors().insert(key@, self.selector(key)));
            assert(self.selectors().dom() =~= before.selectors().dom().insert(key@));
            assert forall|k: u64| self.classes().contains_key(k) implies #[trigger] self.class_ok(
                k,
            ) by {
                assert(before.class_ok(k));
            }
            assert forall|n: Seq<char>| #[trigger] self.registered().contains_key(n) implies {
                &&& self.has_class(self.registered()[n])
                &&& self.class(self.registered()[n]).0.data.name@ == n
            } by {
                assert(before.registered().contains_key(n));
            }
            assert forall|k: u64| self.selectors().contains_key(k) implies #[trigger]
                self.selector_ok(k) by {
                if k != key@ {
                    assert(before.selector_ok(k));
                }
            }
            assert forall|n: Seq<char>| #[trigger] self.selector_names().contains_key(n) implies {
                &&& self.has_selector(self.selector_names()[n])
                &&& self.selector(self.selector_names()[n]).selector_info.name@ == n
            } by {
                if n != interned {
                    assert(before.selector_names().contains_key(n));
                    assert(before.has_selector(before.selector_names()[n]));
                }
            }
        }
        key
    }

    /// Resolves a message: the entry point of the first method for `selector`
    /// in the method list of the class that `receiver` names. Methods of
    /// superclasses are not searched. Nothing, where the receiver's class or the
    /// selector is not live or the class has no method for the selector.
    pub fn lookup(&self, receiver: Receiver, selector: SelectorKey) -> (r: IMP)
        ensures
            r == self.lookup_spec(receiver, selector),
    {
        if self.selector_record(selector).is_none() {
            return None;
        }
        match self.class_record(receiver.class_key()) {
            Some(class) => class.lookup_imp(selector),
            None => None,
        }
    }

    /// The first method for `selector` in the method list of the class `key`.
    pub fn instance_method(&self, key: ClassKey, selector: SelectorKey) -> (r: Option<&objc_method>)
        ensures
            match r {
                Some(method) => self.method_of(key, selector) == Some(*method),
                None => self.method_of(key, selector) is None,
            },
    {
        match self.class_record(key) {
            Some(class) => class.find_method(selector),
            None => None,
        }
    }

    /// The first method for `selector` in the method list of the metaclass of
    /// the class `key`.
    pub fn class_method(&self, key: ClassKey, selector: SelectorKey) -> (r: Option<&objc_method>)
        requires
            self.wf(),
        ensures
            !self.has_class(key) ==> r is None,
            self.has_class(key) ==> match r {
                Some(method) => self.method_of(self.class(key).metaclass(), selector) == Some(
                    *method,
                ),
                None => self.method_of(self.class(key).metaclass(), selector) is None,
            },
    {
        match self.metaclass_of(key) {
            Some(meta) => {
                proof {
                    assert(self.class_ok(key@));
                }
                self.instance_method(meta, selector)
            },
            None => None,
        }
    }

    /// Whether the class `key` has a method of its own for `selector`.
    pub fn responds_to_selector(&self, key: ClassKey, selector: SelectorKey) -> (r: bool)
        ensures
            r == (self.has_class(key) && responds_to(self.class(key).methods(), selector)),
    {
        match self.class_record(key) {
            Some(class) => class.responds_to_selector(selector),
            None => false,
        }
    }

    /// The ivar named `name` of the class `key`.
    pub fn instance_variable(&self, key: ClassKey, name: &String) -> (r: Option<&objc_ivar>)
        ensures
            match r {
                Some(ivar) => self.ivar_of(key, name@) == Some(*ivar),
                None => self.ivar_of(key, name@) is None,
            },
    {
        match self.class_record(key) {
            Some(class) => class.instance_variable(name),
            None => None,
        }
    }

    /// The ivar named `name` of the metaclass of the class `key`.
    pub fn class_variable(&self, key: ClassKey, name: &String) -> (r: Option<&objc_ivar>)
        requires
            self.wf(),
        ensures
            !self.has_class(key) ==> r is None,
            self.has_class(key) ==> match r {
                Some(ivar) => self.ivar_of(self.class(key).metaclass(), name@) == Some(*ivar),
                None => self.ivar_of(self.class(key).metaclass(), name@) is None,
            },
    {
        match self.metaclass_of(key) {
            Some(meta) => {
                proof {
                    assert(self.class_ok(key@));
                }
                self.instance_variable(meta, name)
            },
            None => None,
        }
    }

    /// The layout of an instance of the class `key`: the header, the ivar
    /// block and the extra bytes, in that order. Nothing, where `key` is not
    /// live or an instance would not fit in memory.
    pub fn instance_layout(&self, key: ClassKey) -> (r: Option<Layout>)
        requires
            self.wf(),
        ensures
            r == (if self.has_class(key) {
                self.class(key).instance_layout_spec()
            } else {
                None
            }),
    {
        match self.class_record(key) {
            Some(class) => {
                proof {
                    assert(self.class_ok(key@));
                }
                class.instance_layout()
            },
            None => None,
        }
    }

    /// Allocates an instance of the class `key`.
    ///
    /// Memory of the size of the class's instance layout is asked for at the
    /// alignment of that layout. Nothing is returned where `key` is not live,
    /// where an instance would not fit in memory, or where the allocator hands
    /// out no memory. An instance that is returned names `key` in its header,
    /// has the size and the alignment of the instance layout, is zero behind
    /// the header, and has room for every ivar of the class.
    pub fn create_instance(&self, key: ClassKey) -> (r: Option<objc_object_v2>)
        requires
            self.wf(),
        ensures
            !self.has_class(key) ==> r is None,
            self.has_class(key) && self.class(key).instance_layout_spec() is None ==> r is None,
            r matches Some(object) ==> {
                &&& self.has_class(key)
                &&& self.class(key).instance_parts_spec() matches Some((whole, data_offset))
                &&& object.class() == key
                &&& object.wf()
                &&& object.data_offset() == data_offset
                &&& object.bytes() == new_image(object.class(), whole.size as nat)
                &&& object.alignment() == whole.align
                &&& forall|i: int|
                    0 <= i < self.class(key).ivars().len() ==> object.holds(
                        #[trigger] self.class(key).ivars()[i],
                    )
            },
    {
        let class = match self.class_record(key) {
            Some(class) => class,
            None => {
                return None;
            },
        };
        proof {
            assert(self.class_ok(key@));
            lemma_class_key_eq(class.0.data.index, key);
        }
        class.create_object_v2()
    }

    /// Reads the ivar named `name` of `object`: finds the ivar in the object's
    /// class and gives it with the bytes that the object holds for it. Nothing,
    /// where the class is not live, has no such ivar, or the object has no
    /// room for it.
    pub fn get_instance_variable(&self, object: &objc_object_v2, name: &String) -> (r: Option<
        (&objc_ivar, Vec<u8>),
    >)
        requires
            object.wf(),
        ensures
            match r {
                Some((ivar, bytes)) => {
                    &&& self.ivar_of(object.class(), name@) == Some(*ivar)
                    &&& object.holds(*ivar)
                    &&& bytes@ == object.ivar_bytes(*ivar)
                },
                None => match self.ivar_of(object.class(), name@) {
                    Some(ivar) => !object.holds(ivar),
                    None => true,
                },
            },
    {
        let ivar = match self.instance_variable(object.is_a(), name) {
            Some(ivar) => ivar,
            None => {
                return None;
            },
        };
        if !object.has_room_for(ivar) {
            return None;
        }
        let bytes = object.get_ivar(ivar);
        Some((ivar, bytes))
    }

    /// Writes `value` to the ivar named `name` of `object`. Fails, and leaves
    /// the object as it was, where the object's class is not live or has no
    /// such ivar, where the object has no room for the ivar, or where `value`
    /// has not the ivar's size.
    pub fn set_instance_variable(
        &self,
        object: &mut objc_object_v2,
        name: &String,
        value: &[u8],
    ) -> (r: Option<&objc_ivar>)
        requires
            old(object).wf(),
        ensures
            final(object).wf(),
            final(object).class() == old(object).class(),
            final(object).data_offset() == old(object).data_offset(),
            final(object).alignment() == old(object).alignment(),
            match r {
                Some(ivar) => {
                    &&& self.ivar_of(old(object).class(), name@) == Some(*ivar)
                    &&& old(object).holds(*ivar)
                    &&& value@.len() == ivar.size
                    &&& final(object).is_with_value(*old(object), *ivar, value@)
                },
                None => {
                    &&& final(object).bytes() == old(object).bytes()
                    &&& match self.ivar_of(old(object).class(), name@) {
                        Some(ivar) => !old(object).holds(ivar) || value@.len() != ivar.size,
                        None => true,
                    }
                },
            },
    {
        let ivar = match self.instance_variable(object.is_a(), name) {
            Some(ivar) => ivar,
            None => {
                return None;
            },
        };
        if !object.has_room_for(ivar) || value.len() != ivar.size {
            return None;
        }
        object.set_ivar(ivar, value);
        Some(ivar)
    }
}

} // verus!
