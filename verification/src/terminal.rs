//! The terminal geometry, as last reported by the UI.
//!
//! The engine never queries the terminal itself: the UI reads the real
//! size and hands the numbers in, here and on every resize event.

use vstd::prelude::*;

verus! {

/// The terminal's size in character cells.
#[derive(Clone, Copy, PartialEq, Eq, Structural, Debug)]
pub struct TerminalSize {
    pub cols: u16,
    pub rows: u16,
}

impl TerminalSize {
    /// A size record from reported dimensions.
    pub fn new(cols: u16, rows: u16) -> (r: TerminalSize)
        ensures
            r.cols == cols,
            r.rows == rows,
    {
        TerminalSize { cols, rows }
    }

    /// Records a resize.
    pub fn update(&mut self, new_cols: u16, new_rows: u16)
        ensures
            final(self).cols == new_cols,
            final(self).rows == new_rows,
    {
        self.cols = new_cols;
        self.rows = new_rows;
    }
}

} // verus!
