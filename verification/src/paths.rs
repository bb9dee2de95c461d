//! Names in the user's home directory that the tool looks for.

use crate::text::{has_prefix, starts_with};
use vstd::prelude::*;

verus! {

/// Whether a folder of the cloud storage directory is a Google Drive mount:
/// its name begins with `GoogleDrive-`.
pub fn is_google_drive_folder(name: &str) -> (found: bool)
    ensures
        found == has_prefix(name@, "GoogleDrive-"@),
{
    starts_with(name, "GoogleDrive-")
}

} // verus!
