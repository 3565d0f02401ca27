//! Where the document is persisted, relative to the application's
//! working directory.  The surrounding application joins these onto the
//! current directory and does the file I/O.

use vstd::prelude::*;

verus! {

/// The directory that holds the persisted document.
pub fn get_file_path() -> (r: &'static str)
    ensures
        r@ == "dist"@,
{
    "dist"
}

/// The persisted document file inside that directory.
pub fn get_file_read() -> (r: &'static str)
    ensures
        r@ == "dist/api.json"@,
{
    "dist/api.json"
}

} // verus!
