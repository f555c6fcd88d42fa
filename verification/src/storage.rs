//! Where a sheet is kept.

use vstd::prelude::*;

verus! {

/// The path of the file in which a sheet is kept by default, relative to the
/// working directory.
pub fn get_default_file_path() -> (path: &'static str)
    ensures
        path@ == "myself.sht"@,
{
    "myself.sht"
}

} // verus!
