use objc_runtime::context::Context;
use objc_runtime::flags::Flags;
use objc_runtime::ivar::objc_ivar;
use objc_runtime::key::ClassKey;
use objc_runtime::message::Receiver;
use objc_runtime::method::objc_imp;

#[test]
fn ffi_test_class_copyIvarList() {
    let mut ctx = Context::new();
    let output = ctx.copy_ivar_list(ClassKey::from_raw(0xdead_0000));
    assert!(output.is_none());

    let cls = ctx.allocate_class_pair(None, "foobar".to_string(), 0).unwrap();
    let output = ctx.copy_ivar_list(cls);
    assert!(output.is_none());

    let out_count = output.map_or(0, |list| list.len());
    assert_eq!(out_count, 0);

    // add an ivar, see if we get a new number
    let ivar = objc_ivar::new("fizzbuzz".to_string(), 0, 0, "".to_string());
    ctx.add_ivar(cls, ivar);

    let new_output = ctx.copy_ivar_list(cls);
    assert!(new_output.is_some());
    assert_eq!(new_output.unwrap().len(), 1);
}

#[test]
fn mod_test_class_copyIvarList() {
    let mut ctx = Context::new();
    let missing = ctx.class_record(ClassKey::from_raw(0xdead_0000));
    assert!(missing.is_none());

    let cls = ctx.allocate_class_pair(None, "foobar".to_string(), 0).unwrap();
    let record = ctx.class_record(cls).unwrap();
    let output = record.copy_ivar_list();
    assert!(output.is_none());
    assert_eq!(record.ivar_list().len(), 0);

    let ivar = objc_ivar::new("fizzbuzz".to_string(), 0, 0, "".to_string());
    ctx.add_ivar(cls, ivar);

    let record = ctx.class_record(cls).unwrap();
    let new_output = record.copy_ivar_list();
    assert!(new_output.is_some());
    assert_eq!(record.ivar_list().len(), 1);
    assert_eq!(new_output.unwrap()[0].name().as_str(), "fizzbuzz");
}

#[test]
fn ffi_test_send_message() {
    let mut ctx = Context::new();
    let cls_name = "foobar2".to_string();
    let cls = ctx.allocate_class_pair(None, cls_name.clone(), 0).unwrap();

    ctx.register_class_pair(cls);

    let metaclass = ctx.metaclass_by_name(&cls_name).unwrap();

    let sel = ctx.allocate_selector("fizzbuzz".to_string());

    let imp = objc_imp { addr: 0x4000 };

    assert!(ctx.add_method(metaclass, sel, Some(imp), "".to_string()));

    // a class receives through its own header, which names the metaclass
    let id = ctx.class_record(cls).unwrap().0.is_a;

    let found = ctx.lookup(id, sel).expect("should be a real function");

    assert_eq!(found, imp);
}

#[test]
fn mod_test_send_message() {
    let mut ctx = Context::new();
    let cls_name = "foobar2".to_string();
    let cls = ctx.allocate_class_pair(None, cls_name.clone(), 0).unwrap();

    ctx.register_class_pair(cls);

    let metaclass = ctx.metaclass_by_name(&cls_name).unwrap();
    assert_eq!(Some(metaclass), ctx.metaclass_of(cls));

    let sel = ctx.allocate_selector("fizzbuzz".to_string());
    assert_eq!(sel, ctx.allocate_selector("fizzbuzz".to_string()));

    let imp = objc_imp { addr: 0x4000 };

    assert!(ctx.add_method(metaclass, sel, Some(imp), "".to_string()));

    let id = Receiver::new(metaclass);

    let found = ctx.lookup(id, sel).expect("should be a real function");

    assert_eq!(found.addr, 0x4000);
}

#[test]
fn ffi_test_get_set_ivar() {
    let mut ctx = Context::new();
    let cls = ctx.allocate_class_pair(None, "foobar3".to_string(), 0).unwrap();

    ctx.register_class_pair(cls);

    let ivar_name = "fizzbuzz".to_string();
    ctx.add_ivar(cls, objc_ivar::new(ivar_name.clone(), 8, 0, "".to_string()));

    let ivar = ctx.instance_variable(cls, &ivar_name).unwrap();

    let mut obj = ctx.create_instance(cls).unwrap();
    let obj2 = ctx.create_instance(cls).unwrap();

    assert_eq!(obj.get_ivar(ivar), vec![0u8; 8]);

    let value = (obj2.0.data.ivars.as_ptr() as u64).to_ne_bytes();
    obj.set_ivar(ivar, &value);

    let new_value = obj.get_ivar(ivar);

    assert_eq!(new_value, value.to_vec());
}

#[test]
fn mod_test_get_set_ivar() {
    let mut ctx = Context::new();
    let cls = ctx.allocate_class_pair(None, "foobar4".to_string(), 0);

    assert!(cls.is_some());
    let cls = cls.unwrap();

    ctx.register_class_pair(cls);

    let ivar_name = "fizzbuzz".to_string();
    ctx.add_ivar(cls, objc_ivar::new(ivar_name.clone(), 8, 3, "".to_string()));

    let ivar = ctx.instance_variable(cls, &ivar_name).unwrap();

    let obj = ctx.create_instance(cls);
    assert!(obj.is_some());
    let mut obj = obj.unwrap();
    let obj2 = ctx.create_instance(cls);
    assert!(obj2.is_some());
    let obj2 = obj2.unwrap();

    assert_eq!(obj.get_ivar(ivar), vec![0u8; 8]);

    let value = (obj2.0.data.ivars.as_ptr() as u64).to_ne_bytes();
    obj.set_ivar(ivar, &value);

    let new_value = obj.get_ivar(ivar);

    assert_eq!(new_value, value.to_vec());
    assert_eq!(obj2.get_ivar(ivar), vec![0u8; 8]);
}

#[test]
fn flags_combine_bit_by_bit() {
    assert_eq!(Flags::empty().bits(), 0);
    assert_eq!(Flags::default().bits(), 0);
    assert_eq!(Flags::META().bits(), 1);
    assert_eq!(Flags::USER_CREATED().bits(), 2);
    let both = Flags::USER_CREATED().union(Flags::META());
    assert_eq!(both.bits(), 3);
    assert!(both.contains(Flags::META()));
    assert!(both.contains(Flags::USER_CREATED()));
    assert!(both.contains(both));
    assert!(!Flags::META().contains(Flags::USER_CREATED()));
    assert!(!Flags::USER_CREATED().contains(both));
    assert!(Flags::META().contains(Flags::empty()));
}
