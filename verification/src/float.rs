//! Floating windows: a generic modal wrapper that centers its content
//! either as a percentage of the parent area or at an absolute size
//! clamped to it.

use vstd::prelude::*;

verus! {

/// A rectangle of terminal cells.
#[derive(Debug, Clone, Copy, PartialEq, Eq, Structural)]
pub struct ScreenRect {
    pub x: u16,
    pub y: u16,
    pub width: u16,
    pub height: u16,
}

/// How a floating window is sized.
#[derive(Debug, Clone, Copy, PartialEq, Eq, Structural)]
pub enum FloatMode {
    /// a percentage of the parent area in each direction
    Percent(u16, u16),
    /// a fixed size in terminal cells, clamped to the parent
    Absolute(u16, u16),
}

/// A modal window: its content and its sizing mode.
#[derive(Debug, Clone)]
pub struct Float<Content> {
    pub content: Content,
    pub mode: FloatMode,
}

impl<Content> Float<Content> {
    /// A window sized as a percentage of the parent.
    pub fn new(content: Content, width_percent: u16, height_percent: u16) -> (r: Float<Content>)
        ensures
            r.content == content,
            r.mode == FloatMode::Percent(width_percent, height_percent),
    {
        Float { content, mode: FloatMode::Percent(width_percent, height_percent) }
    }

    /// A window of a fixed size, clamped to the parent.
    pub fn new_absolute(content: Content, width: u16, height: u16) -> (r: Float<Content>)
        ensures
            r.content == content,
            r.mode == FloatMode::Absolute(width, height),
    {
        Float { content, mode: FloatMode::Absolute(width, height) }
    }

    /// The centered popup rectangle inside the parent area.
    pub fn floating_window(&self, area: ScreenRect) -> (r: ScreenRect)
        requires
            area.x + area.width <= u16::MAX,
            area.y + area.height <= u16::MAX,
        ensures
            rect_within(r, area),
    {
        floating_rect(self.mode, area)
    }
}

/// `inner` lies entirely inside `outer`.
pub open spec fn rect_within(inner: ScreenRect, outer: ScreenRect) -> bool {
    &&& outer.x <= inner.x
    &&& outer.y <= inner.y
    &&& inner.x + inner.width <= outer.x + outer.width
    &&& inner.y + inner.height <= outer.y + outer.height
}

/// Center a window of the given mode inside `area`.
pub fn floating_rect(mode: FloatMode, area: ScreenRect) -> (r: ScreenRect)
    requires
        area.x + area.width <= u16::MAX,
        area.y + area.height <= u16::MAX,
    ensures
        rect_within(r, area),
        mode matches FloatMode::Absolute(w, h) ==> {
            &&& r.width == (if w < area.width {
                w
            } else {
                area.width
            })
            &&& r.height == (if h < area.height {
                h
            } else {
                area.height
            })
            &&& r.x == area.x + (area.width - r.width) / 2
            &&& r.y == area.y + (area.height - r.height) / 2
        },
        mode matches FloatMode::Percent(wp, hp) ==> {
            let wc: int = if wp > 100 {
                100
            } else {
                wp as int
            };
            let hc: int = if hp > 100 {
                100
            } else {
                hp as int
            };
            &&& r.width == area.width * wc / 100
            &&& r.height == area.height * hc / 100
            &&& r.x == area.x + (area.width - r.width) / 2
            &&& r.y == area.y + (area.height - r.height) / 2
        },
{
    match mode {
        FloatMode::Percent(wp, hp) => {
            let wp_c: u16 = if wp > 100 {
                100
            } else {
                wp
            };
            let hp_c: u16 = if hp > 100 {
                100
            } else {
                hp
            };
            proof {
                assert((area.width as u32) * (wp_c as u32) <= 65535 * 100) by (nonlinear_arith)
                    requires
                        area.width <= 65535,
                        wp_c <= 100,
                ;
                assert((area.height as u32) * (hp_c as u32) <= 65535 * 100) by (nonlinear_arith)
                    requires
                        area.height <= 65535,
                        hp_c <= 100,
                ;
            }
            let w: u16 = ((area.width as u32) * (wp_c as u32) / 100) as u16;
            let h: u16 = ((area.height as u32) * (hp_c as u32) / 100) as u16;
            proof {
                assert((area.width as u32) * (wp_c as u32) / 100 <= area.width as u32) by (
                nonlinear_arith)
                    requires
                        wp_c <= 100,
                ;
                assert((area.height as u32) * (hp_c as u32) / 100 <= area.height as u32) by (
                nonlinear_arith)
                    requires
                        hp_c <= 100,
                ;
            }
            let x: u16 = area.x + (area.width - w) / 2;
            let y: u16 = area.y + (area.height - h) / 2;
            ScreenRect { x, y, width: w, height: h }
        },
        FloatMode::Absolute(w0, h0) => {
            let w: u16 = if w0 < area.width {
                w0
            } else {
                area.width
            };
            let h: u16 = if h0 < area.height {
                h0
            } else {
                area.height
            };
            let x: u16 = area.x + (area.width - w) / 2;
            let y: u16 = area.y + (area.height - h) / 2;
            ScreenRect { x, y, width: w, height: h }
        },
    }
}

} // verus!
