//! Key-binding hints: what the footer shows for the active screen or
//! modal.

use vstd::prelude::*;

verus! {

/// One help entry: an action and the keys bound to it.
#[derive(Debug, Clone)]
pub struct Shortcut {
    pub action: &'static str,
    pub keys: Vec<&'static str>,
}

impl Shortcut {
    /// Build an entry from an action name and its keys.
    pub fn new(action: &'static str, keys: Vec<&'static str>) -> (r: Shortcut)
        ensures
            r.action == action,
            r.keys == keys,
    {
        Shortcut { action, keys }
    }
}

} // verus!
