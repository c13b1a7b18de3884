//! A labelled diagnostic note.

use vstd::prelude::*;

verus! {

/// A diagnostic message together with the source file it concerns.
pub struct Debug<'a> {
    pub file: &'a str,
    pub msg: &'a str,
}

impl<'a> Debug<'a> {
    /// Pairs a message with the file it concerns.
    pub fn new(file: &'a str, msg: &'a str) -> (r: Self)
        ensures
            r.file@ == file@,
            r.msg@ == msg@,
    {
        Debug { file, msg }
    }
}

} // verus!
