//! The progress gauge fed by the clustering process: a line-oriented
//! protocol of `PROGRESS: <pct>`, `STATUS: <text>`, `DONE` and
//! `ERROR: <text>` lines; anything else is ignored unless it looks like a
//! crash report.

use vstd::prelude::*;
use crate::text::{
    chars_eq, chars_of, contains_seq, contains_sub, copy_tail, is_uint_str, parse_usize,
    string_from_chars, uint_val,
};

verus! {

/// What the progress display shows.
#[derive(Debug, Clone)]
pub struct GaugeState {
    /// percent complete, 0 to 100
    pub progress: u8,
    pub status: String,
    pub done: bool,
    /// a transient message from the process, shown in the log box
    pub message: Option<String>,
    /// whether the message is an error, for coloring
    pub message_error: bool,
}

/// `s` starts with `p`.
pub open spec fn starts_with(s: Seq<char>, p: Seq<char>) -> bool {
    s.len() >= p.len() && s.subrange(0, p.len() as int) == p
}

/// The line after a prefix.
pub open spec fn tail_after(s: Seq<char>, n: int) -> Seq<char> {
    s.subrange(n, s.len() as int)
}

/// A recognised protocol line: one the gauge reacts to.
pub open spec fn is_protocol_line(s: Seq<char>) -> bool {
    ||| starts_with(s, "PROGRESS: "@)
    ||| starts_with(s, "STATUS: "@)
    ||| s == "DONE"@
    ||| starts_with(s, "ERROR: "@)
    ||| contains_seq(s, "Traceback"@)
    ||| contains_seq(s, "Exception"@)
}

impl GaugeState {
    /// The gauge before any message arrived.
    pub fn new() -> (r: GaugeState)
        ensures
            r.progress == 0,
            r.status@ == "Initializing..."@,
            !r.done,
            r.message is None,
            !r.message_error,
    {
        GaugeState {
            progress: 0,
            status: String::from_str("Initializing..."),
            done: false,
            message: None,
            message_error: false,
        }
    }

    /// Apply one line from the process. A `PROGRESS` line with a percent
    /// that fits sets the gauge; a `STATUS` line replaces the status
    /// text; `DONE` marks completion; an `ERROR` line, or any line
    /// carrying a crash marker, becomes the error message. Every other
    /// line changes nothing, so stray output cannot corrupt the display.
    pub fn update(&mut self, msg: &str)
        ensures
            ({
                let m = msg@;
                if starts_with(m, "PROGRESS: "@) {
                    let rest = tail_after(m, "PROGRESS: "@.len() as int);
                    &&& (is_uint_str(rest) && uint_val(rest) <= u8::MAX ==> *final(self) == (
                    GaugeState { progress: final(self).progress, ..*old(self) }) && final(self).progress == uint_val(rest))
                    &&& (!(is_uint_str(rest) && uint_val(rest) <= u8::MAX) ==> *final(self) == *old(self))
                } else if starts_with(m, "STATUS: "@) {
                    &&& *final(self) == (GaugeState { status: final(self).status, ..*old(self) })
                    &&& final(self).status@ == tail_after(m, "STATUS: "@.len() as int)
                } else if m == "DONE"@ {
                    *final(self) == (GaugeState { done: true, ..*old(self) })
                } else if starts_with(m, "ERROR: "@) {
                    &&& final(self).message matches Some(t) && t@ == tail_after(
                        m,
                        "ERROR: "@.len() as int,
                    )
                    &&& final(self).message_error
                    &&& final(self).progress == old(self).progress
                    &&& final(self).status == old(self).status
                    &&& final(self).done == old(self).done
                } else if contains_seq(m, "Traceback"@) || contains_seq(m, "Exception"@) {
                    &&& final(self).message matches Some(t) && t@ == m
                    &&& final(self).message_error
                    &&& final(self).progress == old(self).progress
                    &&& final(self).status == old(self).status
                    &&& final(self).done == old(self).done
                } else {
                    *final(self) == *old(self)
                }
            }),
    {
        let m = chars_of(msg);
        let p_progress = chars_of("PROGRESS: ");
        let p_status = chars_of("STATUS: ");
        let p_done = chars_of("DONE");
        let p_error = chars_of("ERROR: ");
        if has_prefix(&m, &p_progress) {
            let rest = copy_tail(&m, p_progress.len());
            match parse_usize(&rest) {
                Some(v) => {
                    if v <= 255 {
                        self.progress = v as u8;
                    }
                },
                None => {},
            }
            return ;
        }
        if has_prefix(&m, &p_status) {
            let rest = copy_tail(&m, p_status.len());
            self.status = string_from_chars(&rest);
            return ;
        }
        if chars_eq(&m, &p_done) {
            self.done = true;
            return ;
        }
        if has_prefix(&m, &p_error) {
            let rest = copy_tail(&m, p_error.len());
            self.message = Some(string_from_chars(&rest));
            self.message_error = true;
            return ;
        }
        let t_traceback = chars_of("Traceback");
        let t_exception = chars_of("Exception");
        if contains_sub(&m, &t_traceback) || contains_sub(&m, &t_exception) {
            self.message = Some(string_from_chars(&m));
            self.message_error = true;
            return ;
        }
    }

    /// Is this a line the gauge would react to? The process reader uses
    /// this to drop unrelated output before it reaches the display.
    pub fn recognizes(msg: &str) -> (r: bool)
        ensures
            r == is_protocol_line(msg@),
    {
        let m = chars_of(msg);
        let p_progress = chars_of("PROGRESS: ");
        let p_status = chars_of("STATUS: ");
        let p_done = chars_of("DONE");
        let p_error = chars_of("ERROR: ");
        let t_traceback = chars_of("Traceback");
        let t_exception = chars_of("Exception");
        has_prefix(&m, &p_progress) || has_prefix(&m, &p_status) || chars_eq(&m, &p_done)
            || has_prefix(&m, &p_error) || contains_sub(&m, &t_traceback) || contains_sub(
            &m,
            &t_exception,
        )
    }
}

/// Does `s` start with `p`?
fn has_prefix(s: &Vec<char>, p: &Vec<char>) -> (r: bool)
    ensures
        r == starts_with(s@, p@),
{
    if p.len() > s.len() {
        return false;
    }
    crate::text::matches_at(s, p, 0)
}

} // verus!
