//! The identity of the device that the process runs on.

use vstd::prelude::*;
use crate::text::{trim, trimmed};

verus! {

/// The system's name as the name file gives it: the file's text without the
/// blanks at both ends.
pub fn get_system_name(name_file_text: &str) -> (name: String)
    ensures
        name@ == trimmed(name_file_text@),
{
    trim(name_file_text)
}

} // verus!
