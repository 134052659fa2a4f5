use objc_runtime::context::Context;
use objc_runtime::key::SelectorKey;
use objc_runtime::selector::{objc_selector, SelectorInfo};

#[test]
fn interning_is_idempotent() {
    let mut ctx = Context::new();
    let first = ctx.allocate_selector("init".to_string());
    let second = ctx.allocate_selector("init".to_string());
    assert_eq!(first, second);
    assert_eq!(ctx.selector_count(), 1);
}

#[test]
fn different_names_get_different_selectors() {
    let mut ctx = Context::new();
    let init = ctx.allocate_selector("init".to_string());
    let dealloc = ctx.allocate_selector("dealloc".to_string());
    let upper = ctx.allocate_selector("Init".to_string());
    let colon = ctx.allocate_selector("init:".to_string());
    let empty = ctx.allocate_selector("".to_string());
    let all = [init, dealloc, upper, colon, empty];
    for (i, a) in all.iter().enumerate() {
        for (j, b) in all.iter().enumerate() {
            assert_eq!(a == b, i == j);
        }
    }
    assert_eq!(ctx.selector_count(), 5);
    assert_eq!(ctx.allocate_selector("dealloc".to_string()), dealloc);
    assert_eq!(ctx.selector_count(), 5);
}

#[test]
fn selector_record_knows_its_name_and_handle() {
    let mut ctx = Context::new();
    let key = ctx.allocate_selector("description".to_string());
    let record = ctx.selector_record(key).unwrap();
    assert_eq!(record.index, key);
    assert_eq!(record.selector_info.name.as_str(), "description");
    assert!(record.selector_info.types.is_none());
    assert!(ctx.selector_record(SelectorKey::from_raw(0xdead_0000)).is_none());
}

#[test]
fn selectors_are_equal_by_handle() {
    let mut ctx = Context::new();
    let one = ctx.allocate_selector("one".to_string());
    let two = ctx.allocate_selector("two".to_string());
    let a = objc_selector { index: one, selector_info: SelectorInfo::new("a".to_string()) };
    let b = objc_selector { index: one, selector_info: SelectorInfo::new("b".to_string()) };
    let c = objc_selector { index: two, selector_info: SelectorInfo::new("a".to_string()) };
    assert!(a == b);
    assert!(a != c);
}

#[test]
fn selector_handles_survive_the_trip_through_raw_bits() {
    let mut ctx = Context::new();
    let key = ctx.allocate_selector("raw".to_string());
    assert_eq!(SelectorKey::from_raw(key.as_raw()), key);
    assert!(ctx.selector_record(SelectorKey::from_raw(key.as_raw())).is_some());
    assert_ne!(SelectorKey::from_raw(6).as_raw(), 6);
}

#[test]
fn interning_leaves_the_classes_alone() {
    let mut ctx = Context::new();
    let class = ctx.allocate_class_pair(None, "Root".to_string(), 0).unwrap();
    ctx.register_class_pair(class);
    ctx.allocate_selector("Root".to_string());
    assert_eq!(ctx.class_count(), 2);
    assert_eq!(ctx.lookup_by_name(&"Root".to_string()), Some(class));
}
