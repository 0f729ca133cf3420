//! The exit-confirmation window: `y` confirms leaving, `n` or Escape
//! stays.

use vstd::prelude::*;
use crate::hint::Shortcut;
use crate::key::Key;

verus! {

/// The confirmation state: whether the window has been answered, and how.
#[derive(Debug, Clone)]
pub struct ConfirmQuit {
    pub finished: bool,
    pub confirmed: bool,
}

impl ConfirmQuit {
    /// An unanswered confirmation.
    pub fn new() -> (r: ConfirmQuit)
        ensures
            !r.finished,
            !r.confirmed,
    {
        ConfirmQuit { finished: false, confirmed: false }
    }

    /// Did the user confirm leaving?
    pub fn confirmed(&self) -> (r: bool)
        ensures
            r == self.confirmed,
    {
        self.confirmed
    }

    /// Apply one key press: `y` confirms and finishes, `n` or Escape
    /// finishes without confirming, anything else is ignored. The result
    /// reports whether `y` was struck.
    pub fn handle_key_event(&mut self, key: Key) -> (r: bool)
        ensures
            key == Key::Char('y') ==> final(self).finished && final(self).confirmed && r,
            (key == Key::Char('n') || key == Key::Esc) ==> final(self).finished && final(self).confirmed == old(self).confirmed && !r,
            !(key == Key::Char('y') || key == Key::Char('n') || key == Key::Esc) ==> *final(self)
                == *old(self) && !r,
    {
        match key {
            Key::Char(c) => {
                if c == 'y' {
                    self.confirmed = true;
                    self.finished = true;
                    true
                } else if c == 'n' {
                    self.finished = true;
                    false
                } else {
                    false
                }
            },
            Key::Esc => {
                self.finished = true;
                false
            },
            _ => false,
        }
    }

    /// Has the window been answered?
    pub fn is_finished(&self) -> (r: bool)
        ensures
            r == self.finished,
    {
        self.finished
    }

    /// The key bindings the footer shows.
    pub fn get_shortcut_list(&self) -> (&'static str, Vec<Shortcut>) {
        let mut list: Vec<Shortcut> = Vec::new();
        let mut k1: Vec<&'static str> = Vec::new();
        k1.push("y");
        list.push(Shortcut::new("Confirm quit", k1));
        let mut k2: Vec<&'static str> = Vec::new();
        k2.push("n");
        k2.push("Esc");
        list.push(Shortcut::new("Cancel", k2));
        ("Quit Confirmation", list)
    }
}

} // verus!
