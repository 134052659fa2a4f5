use objc_runtime::context::Context;
use objc_runtime::key::{ClassKey, SelectorKey};
use objc_runtime::message::{Receiver, Repr, ReprV2};
use objc_runtime::method::{objc_imp, objc_method};

fn imp(addr: usize) -> Option<objc_imp> {
    Some(objc_imp { addr })
}

#[test]
fn method_is_found_in_the_receivers_own_class_only() {
    let mut ctx = Context::new();
    let base = ctx.allocate_class_pair(None, "Base".to_string(), 0).unwrap();
    let derived = ctx.allocate_class_pair(Some(base), "Derived".to_string(), 0).unwrap();
    let selector = ctx.allocate_selector("speak".to_string());
    assert!(ctx.add_method(base, selector, imp(0x1000), "v@:".to_string()));
    assert_eq!(ctx.lookup(Receiver::new(base), selector), imp(0x1000));
    // no superclass is searched
    assert_eq!(ctx.lookup(Receiver::new(derived), selector), None);
    assert!(ctx.responds_to_selector(base, selector));
    assert!(!ctx.responds_to_selector(derived, selector));
    // nor the metaclass
    let meta = ctx.metaclass_of(base).unwrap();
    assert_eq!(ctx.lookup(Receiver::new(meta), selector), None);
}

#[test]
fn instance_receives_through_its_class() {
    let mut ctx = Context::new();
    let class = ctx.allocate_class_pair(None, "Base".to_string(), 0).unwrap();
    let selector = ctx.allocate_selector("speak".to_string());
    assert!(ctx.add_method(class, selector, imp(0x2000), "".to_string()));
    let object = ctx.create_instance(class).unwrap();
    assert_eq!(ctx.lookup(object.0.is_a, selector), imp(0x2000));
}

#[test]
fn first_method_for_a_selector_wins() {
    let mut ctx = Context::new();
    let class = ctx.allocate_class_pair(None, "Base".to_string(), 0).unwrap();
    let speak = ctx.allocate_selector("speak".to_string());
    let walk = ctx.allocate_selector("walk".to_string());
    assert!(ctx.add_method(class, speak, imp(1), "".to_string()));
    assert!(ctx.add_method(class, walk, imp(2), "".to_string()));
    assert!(ctx.add_method(class, speak, imp(3), "".to_string()));
    assert_eq!(ctx.lookup(Receiver::new(class), speak), imp(1));
    assert_eq!(ctx.lookup(Receiver::new(class), walk), imp(2));
    let methods = &ctx.class_record(class).unwrap().0.data.methods;
    assert_eq!(methods.len(), 3);
    assert_eq!(methods[2].imp, objc_imp { addr: 3 });
    assert_eq!(methods[2].selector, speak);
}

#[test]
fn lookup_fails_on_dead_handles() {
    let mut ctx = Context::new();
    let class = ctx.allocate_class_pair(None, "Base".to_string(), 0).unwrap();
    let selector = ctx.allocate_selector("speak".to_string());
    let other = ctx.allocate_selector("other".to_string());
    assert!(ctx.add_method(class, selector, imp(1), "".to_string()));
    let dead_class = ClassKey::from_raw(0xdead_0000);
    let dead_selector = SelectorKey::from_raw(0xdead_0000);
    assert_eq!(ctx.lookup(Receiver::new(dead_class), selector), None);
    assert_eq!(ctx.lookup(Receiver::new(class), dead_selector), None);
    assert_eq!(ctx.lookup(Receiver::new(class), other), None);
}

#[test]
fn add_method_fails_without_class_selector_or_entry_point() {
    let mut ctx = Context::new();
    let class = ctx.allocate_class_pair(None, "Base".to_string(), 0).unwrap();
    let selector = ctx.allocate_selector("speak".to_string());
    let dead_class = ClassKey::from_raw(0xdead_0000);
    let dead_selector = SelectorKey::from_raw(0xdead_0000);
    assert!(!ctx.add_method(dead_class, selector, imp(1), "".to_string()));
    assert!(!ctx.add_method(class, dead_selector, imp(1), "".to_string()));
    assert!(!ctx.add_method(class, selector, None, "".to_string()));
    assert_eq!(ctx.class_record(class).unwrap().0.data.methods.len(), 0);
    assert_eq!(ctx.lookup(Receiver::new(class), selector), None);
}

#[test]
fn class_methods_live_in_the_metaclass() {
    let mut ctx = Context::new();
    let class = ctx.allocate_class_pair(None, "Base".to_string(), 0).unwrap();
    let meta = ctx.metaclass_of(class).unwrap();
    let alloc = ctx.allocate_selector("alloc".to_string());
    let init = ctx.allocate_selector("init".to_string());
    assert!(ctx.add_method(meta, alloc, imp(10), "@@:".to_string()));
    assert!(ctx.add_method(class, init, imp(20), "@@:".to_string()));
    let found = ctx.class_method(class, alloc).unwrap();
    assert_eq!(found.imp, objc_imp { addr: 10 });
    assert_eq!(found.types.as_str(), "@@:");
    assert!(ctx.class_method(class, init).is_none());
    assert_eq!(ctx.instance_method(class, init).unwrap().imp, objc_imp { addr: 20 });
    assert!(ctx.instance_method(class, alloc).is_none());
    assert!(ctx.instance_method(ClassKey::from_raw(0xdead_0000), init).is_none());
    assert!(ctx.class_method(ClassKey::from_raw(0xdead_0000), alloc).is_none());
}

#[test]
fn method_record_takes_the_selectors_handle() {
    let mut ctx = Context::new();
    let key = ctx.allocate_selector("speak".to_string());
    let selector = ctx.selector_record(key).unwrap();
    let method = objc_method::new(objc_imp { addr: 5 }, selector, "v".to_string());
    assert_eq!(method.selector, key);
    assert_eq!(method.imp.addr, 5);
    assert_eq!(method.types.as_str(), "v");
}

#[test]
fn headers_point_where_they_are_set() {
    let one = ClassKey::from_raw(0xdead_0000);
    let two = ClassKey::from_raw(0xbeef_0000);
    assert_ne!(one, two);
    let receiver = Receiver::new(one);
    assert_eq!(receiver.class_key(), one);
    let mut record = Repr::new(one, 17u8);
    assert_eq!(record.is_a(), one);
    record.set__is_a(two);
    assert_eq!(record.is_a(), two);
    assert_eq!(record.data, 17);
    let mut storage = ReprV2::new(two, 3u32);
    assert_eq!(storage.is_a(), two);
    storage.set__is_a(one);
    assert_eq!(storage.is_a(), one);
    assert_eq!(storage.data, 3);
}
