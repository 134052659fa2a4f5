use objc_runtime::context::Context;
use objc_runtime::ivar::objc_ivar;
use objc_runtime::key::ClassKey;
use objc_runtime::layout::Layout;
use objc_runtime::object::objc_object_v2;

use aligned_box::AlignedBox;

fn ivar(name: &str, size: usize, alignment: u8) -> objc_ivar {
    objc_ivar::new(name.to_string(), size, alignment, "".to_string())
}

fn point_class(ctx: &mut Context, extra_bytes: usize) -> ClassKey {
    let class = ctx.allocate_class_pair(None, "Point".to_string(), extra_bytes).unwrap();
    assert!(ctx.add_ivar(class, ivar("a", 4, 2)));
    assert!(ctx.add_ivar(class, ivar("b", 8, 3)));
    assert!(ctx.add_ivar(class, ivar("c", 1, 0)));
    class
}

#[test]
fn instance_is_zeroed_and_names_its_class() {
    let mut ctx = Context::new();
    let class = point_class(&mut ctx, 5);
    let object = ctx.create_instance(class).unwrap();
    assert_eq!(object.is_a(), class);
    assert_eq!(object.instance_size(), 30);
    assert_eq!(object.0.data.data_offset, 8);
    assert_eq!(object.0.data.ivars[..8], class.as_raw().to_le_bytes());
    assert_eq!(object.header_handle(), class.as_raw());
    assert!(object.0.data.ivars[8..].iter().all(|byte| *byte == 0));
    assert_eq!(object.0.data.ivars.as_ptr() as usize % 8, 0);
    for ivar in ctx.class_record(class).unwrap().ivar_list() {
        assert!(object.has_room_for(ivar));
        assert_eq!(object.get_ivar(ivar), vec![0u8; ivar.size()]);
    }
}

#[test]
fn instance_of_an_empty_class_is_only_a_header() {
    let mut ctx = Context::new();
    let class = ctx.allocate_class_pair(None, "Empty".to_string(), 0).unwrap();
    let object = ctx.create_instance(class).unwrap();
    assert_eq!(object.instance_size(), 8);
    assert_eq!(object.is_a(), class);
    assert_eq!(object.0.data.ivars.to_vec(), class.as_raw().to_le_bytes().to_vec());
}

#[test]
fn instance_of_a_dead_class_is_refused() {
    let ctx = Context::new();
    assert!(ctx.create_instance(ClassKey::from_raw(0xdead_0000)).is_none());
}

#[test]
fn instance_of_a_metaclass_names_the_metaclass() {
    let mut ctx = Context::new();
    let class = ctx.allocate_class_pair(None, "Root".to_string(), 0).unwrap();
    let meta = ctx.metaclass_of(class).unwrap();
    let object = ctx.create_instance(meta).unwrap();
    assert_eq!(object.is_a(), meta);
}

#[test]
fn class_allocates_its_own_instances() {
    let mut ctx = Context::new();
    let class = point_class(&mut ctx, 0);
    let object = ctx.class_record(class).unwrap().create_object_v2().unwrap();
    assert_eq!(object.is_a(), class);
    assert_eq!(object.instance_size(), 25);
}

#[test]
fn object_over_a_body_layout() {
    let key = ClassKey::from_raw(0xdead_0000);
    let body = Layout::from_size_align(24, 16).unwrap();
    let object = objc_object_v2::new(key, body).unwrap();
    assert_eq!(object.is_a(), key);
    assert_eq!(object.0.data.data_offset, 16);
    assert_eq!(object.instance_size(), 40);
    assert_eq!(object.0.data.ivars.as_ptr() as usize % 16, 0);
    let too_large = Layout::from_size_align(isize::MAX as usize - 7, 8).unwrap();
    assert!(objc_object_v2::new(key, too_large).is_none());
    assert!(objc_object_v2::with_region(key, 8, None).is_none());
    assert_eq!(object.header_handle(), key.as_raw());
}

#[test]
fn ivar_round_trip() {
    let mut ctx = Context::new();
    let class = point_class(&mut ctx, 5);
    let mut object = ctx.create_instance(class).unwrap();
    let ivars = ctx.class_record(class).unwrap().ivar_list();
    object.set_ivar(&ivars[0], &[1, 2, 3, 4]);
    object.set_ivar(&ivars[1], &[11, 12, 13, 14, 15, 16, 17, 18]);
    object.set_ivar(&ivars[2], &[0xff]);
    assert_eq!(object.get_ivar(&ivars[0]), vec![1, 2, 3, 4]);
    assert_eq!(object.get_ivar(&ivars[1]), vec![11, 12, 13, 14, 15, 16, 17, 18]);
    assert_eq!(object.get_ivar(&ivars[2]), vec![0xff]);
    // the whole instance: header, a, padding, b, c, extra bytes
    let mut expected: Vec<u8> = class.as_raw().to_le_bytes().to_vec();
    expected.extend_from_slice(&[
        1, 2, 3, 4, 0, 0, 0, 0, 11, 12, 13, 14, 15, 16, 17, 18, 0xff, 0, 0, 0, 0, 0,
    ]);
    assert_eq!(object.0.data.ivars.to_vec(), expected);
    assert_eq!(object.header_handle(), class.as_raw());
    // writing again replaces what was there and nothing else
    object.set_ivar(&ivars[1], &[0; 8]);
    assert_eq!(object.get_ivar(&ivars[0]), vec![1, 2, 3, 4]);
    assert_eq!(object.get_ivar(&ivars[1]), vec![0; 8]);
    assert_eq!(object.get_ivar(&ivars[2]), vec![0xff]);
}

#[test]
fn zero_sized_ivar_round_trip() {
    let mut ctx = Context::new();
    let class = ctx.allocate_class_pair(None, "Nothing".to_string(), 0).unwrap();
    assert!(ctx.add_ivar(class, ivar("void", 0, 0)));
    let mut object = ctx.create_instance(class).unwrap();
    let ivars = ctx.class_record(class).unwrap().ivar_list();
    object.set_ivar(&ivars[0], &[]);
    assert_eq!(object.get_ivar(&ivars[0]), Vec::<u8>::new());
    assert_eq!(object.instance_size(), 8);
}

#[test]
fn instances_are_isolated() {
    let mut ctx = Context::new();
    let class = point_class(&mut ctx, 0);
    let mut one = ctx.create_instance(class).unwrap();
    let two = ctx.create_instance(class).unwrap();
    let ivars = ctx.class_record(class).unwrap().ivar_list();
    one.set_ivar(&ivars[1], &[9; 8]);
    assert_eq!(one.get_ivar(&ivars[1]), vec![9; 8]);
    assert_eq!(two.get_ivar(&ivars[1]), vec![0; 8]);
    assert!(two.0.data.ivars[8..].iter().all(|byte| *byte == 0));
}

#[test]
fn object_made_before_an_ivar_was_added_has_no_room_for_it() {
    let mut ctx = Context::new();
    let class = ctx.allocate_class_pair(None, "Grows".to_string(), 0).unwrap();
    assert!(ctx.add_ivar(class, ivar("old", 4, 2)));
    let mut early = ctx.create_instance(class).unwrap();
    assert!(ctx.add_ivar(class, ivar("new", 4, 2)));
    let late = ctx.create_instance(class).unwrap();
    let ivars = ctx.class_record(class).unwrap().ivar_list();
    assert!(early.has_room_for(&ivars[0]));
    assert!(!early.has_room_for(&ivars[1]));
    assert!(late.has_room_for(&ivars[1]));
    assert!(ctx.get_instance_variable(&early, &"new".to_string()).is_none());
    assert!(ctx.set_instance_variable(&mut early, &"new".to_string(), &[1, 2, 3, 4]).is_none());
    assert_eq!(early.get_ivar(&ivars[0]), vec![0; 4]);
}

#[test]
fn instance_variables_by_name() {
    let mut ctx = Context::new();
    let class = point_class(&mut ctx, 0);
    let mut object = ctx.create_instance(class).unwrap();
    let name = "b".to_string();
    let written = ctx.set_instance_variable(&mut object, &name, &[7; 8]).unwrap();
    assert_eq!(written.offset(), 8);
    let (found, bytes) = ctx.get_instance_variable(&object, &name).unwrap();
    assert_eq!(found.name().as_str(), "b");
    assert_eq!(bytes, vec![7; 8]);
    // a value of the wrong size is refused and nothing is written
    assert!(ctx.set_instance_variable(&mut object, &name, &[1; 4]).is_none());
    assert_eq!(ctx.get_instance_variable(&object, &name).unwrap().1, vec![7; 8]);
    assert!(ctx.get_instance_variable(&object, &"z".to_string()).is_none());
    assert!(ctx.set_instance_variable(&mut object, &"z".to_string(), &[]).is_none());
}

#[test]
fn object_over_a_given_region() {
    let key = ClassKey::from_raw(0xdead_0000);
    let region = AlignedBox::<[u8]>::slice_from_value(8, 12, 7u8).ok();
    let object = objc_object_v2::with_region(key, 8, region).unwrap();
    assert_eq!(object.is_a(), key);
    assert_eq!(object.instance_size(), 12);
    assert_eq!(object.0.data.data_offset, 8);
    let mut expected: Vec<u8> = key.as_raw().to_le_bytes().to_vec();
    expected.extend_from_slice(&[7, 7, 7, 7]);
    assert_eq!(object.0.data.ivars.to_vec(), expected);

    // the ivar block may start at the very end, but not behind it
    let region = AlignedBox::<[u8]>::slice_from_value(8, 12, 0u8).ok();
    assert!(objc_object_v2::with_region(key, 12, region).is_some());
    let region = AlignedBox::<[u8]>::slice_from_value(8, 12, 0u8).ok();
    assert!(objc_object_v2::with_region(key, 13, region).is_none());
    // nor inside the header
    let region = AlignedBox::<[u8]>::slice_from_value(8, 12, 0u8).ok();
    assert!(objc_object_v2::with_region(key, 7, region).is_none());
    // a region that is shorter than the header cannot hold an object
    let region = AlignedBox::<[u8]>::slice_from_value(8, 4, 0u8).ok();
    assert!(objc_object_v2::with_region(key, 8, region).is_none());
}

#[test]
fn instance_is_placed_at_the_alignment_of_its_layout() {
    let mut ctx = Context::new();
    let narrow = ctx.allocate_class_pair(None, "Narrow".to_string(), 3).unwrap();
    let wide = ctx.allocate_class_pair(None, "Wide".to_string(), 0).unwrap();
    assert!(ctx.add_ivar(wide, ivar("lane", 64, 6)));
    assert!(ctx.add_ivar(wide, ivar("tail", 1, 0)));
    assert_eq!(ctx.instance_layout(narrow), Some(Layout { size: 11, align: 4 }));
    assert_eq!(ctx.instance_layout(wide), Some(Layout { size: 129, align: 64 }));
    for _ in 0..8 {
        let object = ctx.create_instance(narrow).unwrap();
        assert_eq!(object.0.data.ivars.as_ptr() as usize % 4, 0);
        assert_eq!(object.instance_size(), 11);
        let object = ctx.create_instance(wide).unwrap();
        assert_eq!(object.0.data.ivars.as_ptr() as usize % 64, 0);
        assert_eq!(object.instance_size(), 129);
        assert_eq!(object.0.data.data_offset, 64);
        // every ivar starts at a multiple of its own alignment
        for ivar in ctx.class_record(wide).unwrap().ivar_list() {
            let start = object.0.data.ivars.as_ptr() as usize + 64 + ivar.offset();
            assert_eq!(start % ivar.alignment(), 0);
        }
    }
}
