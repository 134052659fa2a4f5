//! Method records.
use crate::key::SelectorKey;
use crate::selector::objc_selector;
use vstd::prelude::*;

verus! {

/// A native entry point, held as its address. The runtime stores it and hands
/// it back; it never calls it.
#[derive(Clone, Copy, Debug, PartialEq, Eq, Structural)]
pub struct objc_imp {
    pub addr: usize,
}

/// An entry point, or none.
pub type IMP = Option<objc_imp>;

/// One entry of a class's method list.
pub struct objc_method {
    pub imp: objc_imp,
    pub selector: SelectorKey,
    pub types: String,
}

impl objc_method {
    pub fn new(imp: objc_imp, selector: &objc_selector, types: String) -> (r: objc_method)
        ensures
            r.imp == imp,
            r.selector == selector.index,
            r.types == types,
    {
        objc_method { imp, selector: selector.index, types }
    }
}

} // verus!
