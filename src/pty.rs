use vstd::prelude::*;

verus! {

/// The size of a terminal window in character cells.
#[derive(Debug, Clone, Copy, PartialEq, Eq, Structural)]
pub struct PtySize {
    pub rows: u16,
    pub cols: u16,
}

impl PtySize {
    pub fn new(rows: u16, cols: u16) -> (r: PtySize)
        ensures
            r.rows == rows,
            r.cols == cols,
    {
        PtySize { rows, cols }
    }
}

impl Default for PtySize {
    /// 24 rows of 80 columns.
    fn default() -> (r: PtySize)
        ensures
            r.rows == 24,
            r.cols == 80,
    {
        PtySize { rows: 24, cols: 80 }
    }
}

} // verus!
