use objc_runtime::context::Context;
use objc_runtime::ivar::objc_ivar;
use objc_runtime::key::ClassKey;
use objc_runtime::layout::Layout;

fn ivar(name: &str, size: usize, alignment: u8) -> objc_ivar {
    objc_ivar::new(name.to_string(), size, alignment, "".to_string())
}

#[test]
fn ivar_alignment_is_a_power_of_two() {
    assert_eq!(ivar("a", 4, 0).alignment(), 1);
    assert_eq!(ivar("a", 4, 3).alignment(), 8);
    assert_eq!(ivar("a", 4, 12).alignment(), 4096);
    assert_eq!(ivar("a", 4, (usize::BITS - 1) as u8).alignment(), 1usize << (usize::BITS - 1));
    let fresh = ivar("count", 4, 2);
    assert_eq!(fresh.name().as_str(), "count");
    assert_eq!(fresh.size(), 4);
    assert_eq!(fresh.alignment(), 4);
    assert_eq!(fresh.offset(), 0);
}

#[test]
fn ivar_offsets_follow_the_layout_chain() {
    let mut ctx = Context::new();
    let class = ctx.allocate_class_pair(None, "Point".to_string(), 0).unwrap();
    assert!(ctx.add_ivar(class, ivar("a", 4, 2)));
    assert!(ctx.add_ivar(class, ivar("b", 8, 3)));
    assert!(ctx.add_ivar(class, ivar("c", 1, 0)));
    let record = ctx.class_record(class).unwrap();
    let offsets: Vec<usize> = record.ivar_list().iter().map(|i| i.offset()).collect();
    assert_eq!(offsets, vec![0, 8, 16]);
    assert_eq!(record.0.data.ivar_layout, Some(Layout { size: 17, align: 8 }));

    // a second ivar of a name that is taken is refused and nothing moves
    assert!(!ctx.add_ivar(class, ivar("b", 2, 1)));
    let record = ctx.class_record(class).unwrap();
    let offsets: Vec<usize> = record.ivar_list().iter().map(|i| i.offset()).collect();
    assert_eq!(offsets, vec![0, 8, 16]);
    assert_eq!(record.ivar_list().len(), 3);
    assert_eq!(record.0.data.ivar_layout, Some(Layout { size: 17, align: 8 }));
}

#[test]
fn first_ivar_starts_at_zero() {
    let mut ctx = Context::new();
    let class = ctx.allocate_class_pair(None, "One".to_string(), 0).unwrap();
    assert_eq!(ctx.class_record(class).unwrap().0.data.ivar_layout, None);
    assert!(ctx.add_ivar(class, ivar("only", 3, 4)));
    let record = ctx.class_record(class).unwrap();
    assert_eq!(record.ivar_list()[0].offset(), 0);
    assert_eq!(record.0.data.ivar_layout, Some(Layout { size: 3, align: 16 }));
}

#[test]
fn ivars_may_be_added_before_and_after_registration() {
    let mut ctx = Context::new();
    let class = ctx.allocate_class_pair(None, "Open".to_string(), 0).unwrap();
    assert!(ctx.add_ivar(class, ivar("early", 2, 1)));
    ctx.register_class_pair(class);
    assert!(ctx.add_ivar(class, ivar("late", 2, 1)));
    let record = ctx.class_record(class).unwrap();
    assert_eq!(record.ivar_list()[1].offset(), 2);
}

#[test]
fn ivar_of_a_dead_class_is_refused() {
    let mut ctx = Context::new();
    assert!(!ctx.add_ivar(ClassKey::from_raw(0xdead_0000), ivar("a", 4, 2)));
    assert_eq!(ctx.class_count(), 0);
}

#[test]
fn ivar_that_cannot_be_laid_out_is_refused() {
    let mut ctx = Context::new();
    let class = ctx.allocate_class_pair(None, "Huge".to_string(), 0).unwrap();
    // does not fit at its own alignment
    assert!(!ctx.add_ivar(class, ivar("a", isize::MAX as usize, 1)));
    assert!(ctx.add_ivar(class, ivar("b", isize::MAX as usize - 7, 3)));
    // fits alone, but not behind what is there
    assert!(!ctx.add_ivar(class, ivar("c", 1, 0)));
    let record = ctx.class_record(class).unwrap();
    assert_eq!(record.ivar_list().len(), 1);
    assert_eq!(
        record.0.data.ivar_layout,
        Some(Layout { size: isize::MAX as usize - 7, align: 8 })
    );
    assert_eq!(ctx.instance_layout(class), None);
    assert!(ctx.create_instance(class).is_none());
}

#[test]
fn same_ivar_name_in_two_classes() {
    let mut ctx = Context::new();
    let one = ctx.allocate_class_pair(None, "One".to_string(), 0).unwrap();
    let two = ctx.allocate_class_pair(None, "Two".to_string(), 0).unwrap();
    assert!(ctx.add_ivar(one, ivar("x", 4, 2)));
    assert!(ctx.add_ivar(two, ivar("x", 4, 2)));
    assert!(!ctx.add_ivar(one, ivar("x", 4, 2)));
}

#[test]
fn ivars_are_found_by_name() {
    let mut ctx = Context::new();
    let class = ctx.allocate_class_pair(None, "Named".to_string(), 0).unwrap();
    assert!(ctx.add_ivar(class, ivar("first", 1, 0)));
    assert!(ctx.add_ivar(class, ivar("second", 4, 2)));
    let found = ctx.instance_variable(class, &"second".to_string()).unwrap();
    assert_eq!(found.offset(), 4);
    assert_eq!(found.size(), 4);
    assert!(ctx.instance_variable(class, &"Second".to_string()).is_none());
    assert!(ctx.instance_variable(class, &"third".to_string()).is_none());
    assert!(ctx.instance_variable(ClassKey::from_raw(0xdead_0000), &"first".to_string()).is_none());
    let record = ctx.class_record(class).unwrap();
    assert_eq!(record.ivar_position(&"first".to_string()), Some(0));
    assert_eq!(record.ivar_position(&"second".to_string()), Some(1));
    assert_eq!(record.ivar_position(&"none".to_string()), None);
}

#[test]
fn class_variables_live_in_the_metaclass() {
    let mut ctx = Context::new();
    let class = ctx.allocate_class_pair(None, "Counted".to_string(), 0).unwrap();
    let meta = ctx.metaclass_of(class).unwrap();
    assert!(ctx.add_ivar(meta, ivar("count", 8, 3)));
    assert!(ctx.class_variable(class, &"count".to_string()).is_some());
    assert!(ctx.instance_variable(class, &"count".to_string()).is_none());
    assert!(ctx.class_variable(class, &"other".to_string()).is_none());
    assert!(ctx.class_variable(ClassKey::from_raw(0xdead_0000), &"count".to_string()).is_none());
}

#[test]
fn instance_layout_is_header_then_ivars_then_extra_bytes() {
    let mut ctx = Context::new();
    let empty = ctx.allocate_class_pair(None, "Empty".to_string(), 0).unwrap();
    assert_eq!(ctx.instance_layout(empty), Some(Layout { size: 8, align: 4 }));

    let extra = ctx.allocate_class_pair(None, "Extra".to_string(), 5).unwrap();
    assert_eq!(ctx.instance_layout(extra), Some(Layout { size: 13, align: 4 }));

    let class = ctx.allocate_class_pair(None, "Full".to_string(), 5).unwrap();
    assert!(ctx.add_ivar(class, ivar("a", 4, 2)));
    assert!(ctx.add_ivar(class, ivar("b", 8, 3)));
    assert!(ctx.add_ivar(class, ivar("c", 1, 0)));
    assert_eq!(ctx.instance_layout(class), Some(Layout { size: 30, align: 8 }));
    let record = ctx.class_record(class).unwrap();
    assert_eq!(record.body_layout(), Some(Layout { size: 22, align: 8 }));
    assert_eq!(record.instance_parts(), Some((Layout { size: 30, align: 8 }, 8)));

    // an ivar block aligned beyond the header starts behind padding
    let wide = ctx.allocate_class_pair(None, "Wide".to_string(), 0).unwrap();
    assert!(ctx.add_ivar(wide, ivar("v", 16, 4)));
    let record = ctx.class_record(wide).unwrap();
    assert_eq!(record.instance_parts(), Some((Layout { size: 32, align: 16 }, 16)));

    assert_eq!(ctx.instance_layout(ClassKey::from_raw(0xdead_0000)), None);
}

#[test]
fn instance_layout_that_does_not_fit() {
    let mut ctx = Context::new();
    let class = ctx.allocate_class_pair(None, "Vast".to_string(), usize::MAX).unwrap();
    assert_eq!(ctx.instance_layout(class), None);
    assert!(ctx.create_instance(class).is_none());
    let edge = ctx.allocate_class_pair(None, "Edge".to_string(), isize::MAX as usize - 10).unwrap();
    assert_eq!(ctx.instance_layout(edge), None);
    let below = ctx.allocate_class_pair(None, "Below".to_string(), isize::MAX as usize - 11).unwrap();
    assert_eq!(
        ctx.instance_layout(below),
        Some(Layout { size: isize::MAX as usize - 3, align: 4 })
    );
}

#[test]
fn ivar_lists_are_handed_out_in_order() {
    let mut ctx = Context::new();
    let class = ctx.allocate_class_pair(None, "Listed".to_string(), 0).unwrap();
    assert!(ctx.copy_ivar_list(class).is_none());
    assert!(ctx.copy_ivar_list(ClassKey::from_raw(0xdead_0000)).is_none());
    assert!(ctx.add_ivar(class, ivar("x", 1, 0)));
    assert!(ctx.add_ivar(class, ivar("y", 1, 0)));
    let list = ctx.copy_ivar_list(class).unwrap();
    let names: Vec<&str> = list.iter().map(|i| i.name().as_str()).collect();
    assert_eq!(names, vec!["x", "y"]);
    let record = ctx.class_record(class).unwrap();
    assert!(record.copy_property_list().is_none());
    assert!(record.find_property(&"x".to_string()).is_none());
    assert_eq!(record.property_position(&"x".to_string()), None);
    assert_eq!(record.property_list().len(), 0);
}
