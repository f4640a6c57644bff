//! Source-location metadata carried on graph-IR nodes, for attaching debug
//! information to the emitted module. The engine itself only transports
//! these records; attaching them to the output is the driver's concern.

use vstd::prelude::*;

verus! {

/// The source file a module was compiled from.
pub struct ModuleInfo {
    pub file: String,
}

/// A source location: file, line, and column.
pub struct LocationInfo {
    pub file: String,
    pub line: u32,
    pub col: u32,
}

impl ModuleInfo {
    /// Packs a source file name.
    pub fn new(file: String) -> (r: ModuleInfo)
        ensures
            r.file@ == file@,
    {
        ModuleInfo { file }
    }
}

impl LocationInfo {
    /// Packs a source location.
    pub fn new(file: String, line: u32, col: u32) -> (r: LocationInfo)
        ensures
            r.file@ == file@,
            r.line == line,
            r.col == col,
    {
        LocationInfo { file, line, col }
    }
}

} // verus!
