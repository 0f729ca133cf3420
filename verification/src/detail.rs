//! The row-detail window: one line per column, closed with `q` or Escape.

use vstd::prelude::*;
use crate::hint::Shortcut;
use crate::key::Key;

verus! {

/// The detail view: its lines and whether it has been closed.
#[derive(Debug, Clone)]
pub struct DataDetail {
    pub lines: Vec<String>,
    pub finished: bool,
}

impl DataDetail {
    /// An open detail view showing these lines.
    pub fn new(lines: Vec<String>) -> (r: DataDetail)
        ensures
            r.lines == lines,
            !r.finished,
    {
        DataDetail { lines, finished: false }
    }

    /// Apply one key press: `q` or Escape closes the view; the result
    /// reports whether it just closed.
    pub fn handle_key_event(&mut self, key: Key) -> (r: bool)
        ensures
            (key == Key::Char('q') || key == Key::Esc) ==> final(self).finished && r,
            !(key == Key::Char('q') || key == Key::Esc) ==> *final(self) == *old(self) && !r,
            final(self).lines == old(self).lines,
    {
        match key {
            Key::Char(c) => {
                if c == 'q' {
                    self.finished = true;
                    true
                } else {
                    false
                }
            },
            Key::Esc => {
                self.finished = true;
                true
            },
            _ => false,
        }
    }

    /// Has the view been closed?
    pub fn is_finished(&self) -> (r: bool)
        ensures
            r == self.finished,
    {
        self.finished
    }

    /// The key bindings the footer shows.
    pub fn get_shortcut_list(&self) -> (&'static str, Vec<Shortcut>) {
        let mut list: Vec<Shortcut> = Vec::new();
        let mut k1: Vec<&'static str> = Vec::new();
        k1.push("q");
        k1.push("Esc");
        list.push(Shortcut::new("Close", k1));
        ("Detail", list)
    }
}

} // verus!
