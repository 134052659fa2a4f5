//! Declared properties.
use crate::selector::objc_selector;
use vstd::prelude::*;

verus! {

/// A declared property: a flat record that the runtime stores and finds by name.
pub struct Property {
    pub name: String,
    pub attributes: String,
    pub type_: String,
    pub getter: objc_selector,
    pub setter: objc_selector,
}

} // verus!
