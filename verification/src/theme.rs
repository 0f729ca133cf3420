//! Color themes. The palette itself belongs to the terminal layer; here
//! live the theme's identity, its tab icon and the cycling between
//! themes.

use vstd::prelude::*;

verus! {

/// The available themes: a high-contrast default and a palette for
/// classic terminals.
#[derive(Debug, Clone, Copy, PartialEq, Eq, Structural)]
pub enum Theme {
    Default,
    Compatible,
}

impl Theme {
    /// The marker drawn before a tab title.
    pub fn tab_icon(&self) -> (r: &'static str)
        ensures
            *self == Theme::Default ==> r@ == " "@,
            *self == Theme::Compatible ==> r@ == ">> "@,
    {
        match self {
            Theme::Default => " ",
            Theme::Compatible => ">> ",
        }
    }

    /// Switch to the next theme, wrapping around.
    pub fn next(&mut self)
        ensures
            *old(self) == Theme::Default ==> *final(self) == Theme::Compatible,
            *old(self) == Theme::Compatible ==> *final(self) == Theme::Default,
    {
        *self = match self {
            Theme::Default => Theme::Compatible,
            Theme::Compatible => Theme::Default,
        };
    }

    /// Switch to the previous theme, wrapping around.
    pub fn prev(&mut self)
        ensures
            *old(self) == Theme::Default ==> *final(self) == Theme::Compatible,
            *old(self) == Theme::Compatible ==> *final(self) == Theme::Default,
    {
        *self = match self {
            Theme::Default => Theme::Compatible,
            Theme::Compatible => Theme::Default,
        };
    }
}

impl Default for Theme {
    /// The high-contrast theme.
    fn default() -> (r: Theme)
        ensures
            r == Theme::Default,
    {
        Theme::Default
    }
}

} // verus!
