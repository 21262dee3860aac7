//! Selection of character sets to render.
//!
//! A request names which built-in tables to include and any additional
//! charset files.  Reading the tables and files is outside work; the
//! library only carries the selection.

use vstd::prelude::*;

verus! {

/// Which character tables a run should render.
pub struct CharsetRequest {
    /// Include the printable ASCII table.
    pub ascii: bool,
    /// Include level 1 of the common standard Chinese characters table.
    pub schinese1: bool,
    /// Include level 2 of the common standard Chinese characters table.
    pub schinese2: bool,
    /// Include level 3 of the common standard Chinese characters table.
    pub schinese3: bool,
    /// Paths of additional charset files to read.
    pub additional: Vec<String>,
}

impl CharsetRequest {
    /// The default request: ASCII only, no extra files.
    pub fn new() -> (r: Self)
        ensures
            r.ascii,
            !r.schinese1,
            !r.schinese2,
            !r.schinese3,
            r.additional@.len() == 0,
    {
        Self {
            ascii: true,
            schinese1: false,
            schinese2: false,
            schinese3: false,
            additional: Vec::new(),
        }
    }
}

} // verus!
