//! Selector records.
use crate::key::SelectorKey;
use vstd::prelude::*;

verus! {

/// What a selector is interned under.
pub struct SelectorInfo {
    pub name: String,
    pub types: Option<String>,
}

impl SelectorInfo {
    /// A selector name without a type encoding.
    pub fn new(name: String) -> (r: SelectorInfo)
        ensures
            r.name == name,
            r.types is None,
    {
        SelectorInfo { name, types: None }
    }
}

/// An interned selector: its own handle and what it was interned under.
///
/// Two selectors are the same selector when their handles are equal; the name
/// plays no part in that.
pub struct objc_selector {
    pub index: SelectorKey,
    pub selector_info: SelectorInfo,
}

impl PartialEq for objc_selector {
    fn eq(&self, other: &objc_selector) -> (r: bool) {
        self.index == other.index
    }
}

impl Eq for objc_selector {

}

impl vstd::std_specs::cmp::PartialEqSpecImpl for objc_selector {
    open spec fn obeys_eq_spec() -> bool {
        true
    }

    open spec fn eq_spec(&self, other: &objc_selector) -> bool {
        self.index == other.index
    }
}

} // verus!
