//! The loading indicator shown while background work runs; it swallows
//! every key and never finishes on its own.

use vstd::prelude::*;
use crate::hint::Shortcut;
use crate::key::Key;
use crate::text::string_from_chars;

verus! {

/// The loading window: just its message.
#[derive(Debug, Clone)]
pub struct LoadingFloat {
    pub message: String,
}

impl LoadingFloat {
    /// A loading window with this message.
    pub fn new(msg: &str) -> (r: LoadingFloat)
        ensures
            r.message@ == msg@,
    {
        let chars = crate::text::chars_of(msg);
        LoadingFloat { message: string_from_chars(&chars) }
    }

    /// Keys do nothing while loading.
    pub fn handle_key_event(&mut self, key: Key) -> (r: bool)
        ensures
            *final(self) == *old(self),
            !r,
    {
        let _ = key;
        false
    }

    /// A loading window never finishes by itself.
    pub fn is_finished(&self) -> (r: bool)
        ensures
            !r,
    {
        false
    }

    /// No key bindings to show.
    pub fn get_shortcut_list(&self) -> (&'static str, Vec<Shortcut>) {
        ("", Vec::new())
    }
}

} // verus!
