//! What belongs to an earlier generation and is cleared before the next.

use crate::text::same_text;
use vstd::prelude::*;

verus! {

/// Whether a file with this extension was generated: archives and
/// configuration files are, nothing else is.
pub fn is_generated_extension(extension: &str) -> (r: bool)
    ensures
        r == (extension@ == "zip"@ || extension@ == "tf"@),
{
    same_text(extension, "zip") || same_text(extension, "tf")
}

} // verus!
