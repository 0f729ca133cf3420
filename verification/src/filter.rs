//! The search box: an editable character buffer with a cursor, an active
//! flag, and the parser that turns its text into a structured query.

use vstd::prelude::*;
use crate::key::Key;
use crate::query::{parse_query, query_of_text, tokens, SearchQuery};
use crate::text::string_from_chars;

verus! {

/// What a key press in the search box asks the owner to do.
#[derive(Debug, Clone, Copy, PartialEq, Eq, Structural)]
pub enum SearchAction {
    Ignored,
    Exit,
    Update,
}

/// The search input state: the typed characters, the cursor position
/// within them, and whether the box currently has focus.
pub struct Filter {
    in_search: bool,
    input: Vec<char>,
    cursor: usize,
}

impl Filter {
    /// The cursor never points past the end of the buffer.
    pub closed spec fn wf(&self) -> bool {
        self.cursor <= self.input@.len()
    }

    /// The typed text.
    pub closed spec fn term_view(&self) -> Seq<char> {
        self.input@
    }

    /// Is the box being edited?
    pub closed spec fn is_active(&self) -> bool {
        self.in_search
    }

    /// Where the cursor stands.
    pub closed spec fn cursor_at(&self) -> int {
        self.cursor as int
    }

    /// Begin editing.
    pub fn activate(&mut self)
        ensures
            final(self).is_active(),
            final(self).term_view() == old(self).term_view(),
            final(self).cursor_at() == old(self).cursor_at(),
            old(self).wf() ==> final(self).wf(),
    {
        self.in_search = true;
    }

    /// Stop editing; the text stays.
    pub fn deactivate(&mut self)
        ensures
            !final(self).is_active(),
            final(self).term_view() == old(self).term_view(),
            final(self).cursor_at() == old(self).cursor_at(),
            old(self).wf() ==> final(self).wf(),
    {
        self.in_search = false;
    }

    /// Empty the buffer.
    pub fn clear(&mut self)
        ensures
            final(self).term_view() == Seq::<char>::empty(),
            final(self).cursor_at() == 0,
            final(self).is_active() == old(self).is_active(),
            final(self).wf(),
    {
        self.input.clear();
        self.cursor = 0;
    }

    /// The typed text as a string.
    pub fn term(&self) -> (r: String)
        ensures
            r@ == self.term_view(),
    {
        string_from_chars(&self.input)
    }

    /// The typed text as a character buffer.
    pub fn term_chars(&self) -> (r: Vec<char>)
        ensures
            r@ == self.term_view(),
    {
        self.input.clone()
    }

    /// Is the box being edited?
    pub fn active(&self) -> (r: bool)
        ensures
            r == self.is_active(),
    {
        self.in_search
    }

    /// Where the cursor stands, in characters from the left.
    pub fn cursor_pos(&self) -> (r: usize)
        ensures
            r == self.cursor_at(),
    {
        self.cursor
    }

    /// Parse the typed text into a query; text without a token is no
    /// filter.
    pub fn parsed_query(&self) -> (r: Option<SearchQuery>)
        ensures
            r is Some <==> tokens(self.term_view()).len() > 0,
            match r {
                Some(q) => query_of_text(q, self.term_view()),
                None => true,
            },
    {
        parse_query(&self.input)
    }

    /// Apply one key press to the buffer. Enter and Escape leave the box,
    /// control-C clears it and leaves, the editing keys change the buffer
    /// or move the cursor, and any other key is ignored.
    pub fn handle_key(&mut self, key: Key) -> (r: SearchAction)
        requires
            old(self).wf(),
        ensures
            final(self).wf(),
            final(self).is_active() == old(self).is_active(),
            (key == Key::Enter || key == Key::Esc) ==> (r == SearchAction::Exit && *final(self)
                == *old(self)),
            key == Key::Ctrl('c') ==> (r == SearchAction::Exit && final(self).term_view()
                == Seq::<char>::empty() && final(self).cursor_at() == 0),
            key matches Key::Char(c) ==> (r == SearchAction::Update && final(self).term_view()
                == old(self).term_view().insert(old(self).cursor_at(), c)
                && final(self).cursor_at() == old(self).cursor_at() + 1),
            key == Key::Backspace ==> (r == SearchAction::Update && (if old(self).cursor_at() > 0 {
                final(self).term_view() == old(self).term_view().remove(old(self).cursor_at() - 1)
                    && final(self).cursor_at() == old(self).cursor_at() - 1
            } else {
                *final(self) == *old(self)
            })),
            key == Key::Left ==> (r == SearchAction::Update
                && final(self).term_view() == old(self).term_view()
                && final(self).cursor_at() == (if old(self).cursor_at() > 0 {
                old(self).cursor_at() - 1
            } else {
                0int
            })),
            key == Key::Right ==> (r == SearchAction::Update
                && final(self).term_view() == old(self).term_view()
                && final(self).cursor_at() == (if old(self).cursor_at()
                < old(self).term_view().len() {
                old(self).cursor_at() + 1
            } else {
                old(self).cursor_at()
            })),
            (key == Key::Up || key == Key::Down || key == Key::Tab || key == Key::Other || (
            key matches Key::Ctrl(c) && c != 'c')) ==> (r == SearchAction::Ignored && *final(self)
                == *old(self)),
    {
        match key {
            Key::Esc | Key::Enter => SearchAction::Exit,
            Key::Ctrl(c) => {
                if c == 'c' {
                    self.clear();
                    SearchAction::Exit
                } else {
                    SearchAction::Ignored
                }
            },
            Key::Backspace => {
                if self.cursor > 0 {
                    self.cursor = self.cursor - 1;
                    self.input.remove(self.cursor);
                }
                SearchAction::Update
            },
            Key::Left => {
                if self.cursor > 0 {
                    self.cursor = self.cursor - 1;
                }
                SearchAction::Update
            },
            Key::Right => {
                if self.cursor < self.input.len() {
                    self.cursor = self.cursor + 1;
                }
                SearchAction::Update
            },
            Key::Char(ch) => {
                self.input.insert(self.cursor, ch);
                let n: usize = self.input.len();
                assert(self.cursor < n);
                self.cursor = self.cursor + 1;
                SearchAction::Update
            },
            _ => SearchAction::Ignored,
        }
    }
}

impl Default for Filter {
    /// An inactive, empty search box.
    fn default() -> (r: Self)
        ensures
            r.wf(),
            !r.is_active(),
            r.term_view() == Seq::<char>::empty(),
            r.cursor_at() == 0,
    {
        Filter { in_search: false, input: Vec::new(), cursor: 0 }
    }
}

} // verus!
