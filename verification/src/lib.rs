//! An object runtime in the style of Objective-C: classes and metaclasses kept
//! in an arena, instance-variable layout, interned selectors, byte-addressed
//! object storage and method lookup.
#![allow(non_camel_case_types)]
#![allow(non_snake_case)]

pub mod arena;
pub mod class;
pub mod context;
pub mod flags;
pub mod ivar;
pub mod key;
pub mod laws;
pub mod layout;
pub mod message;
pub mod method;
pub mod names;
pub mod object;
pub mod property;
pub mod selector;
