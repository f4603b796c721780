//! What a macro expands to.
use vstd::prelude::*;

verus! {

/// The expansion of a macro: the generated code, the lower case name of the
/// machine (which names the files that keep a copy of the code and of the
/// graph), and, for the moves of a machine, their graph in the dot language.
#[derive(Debug)]
pub struct Expansion {
    pub file_stem: String,
    pub code: String,
    pub graph: Option<String>,
}

} // verus!
