//! The schedule of the periodic backup: the job description that the task
//! manager is given, and what its answers mean.

use crate::text::{contains, has_substring};
use vstd::prelude::*;

verus! {

/// The job description: a property list that runs `<binary> backup` every
/// six hours and at load, and writes its output to two files in the log
/// directory.
pub open spec fn plist_text(binary_path: Seq<char>, log_dir: Seq<char>) -> Seq<char> {
    "<?xml version=\"1.0\" encoding=\"UTF-8\"?>\n<!DOCTYPE plist PUBLIC \"-//Apple//DTD PLIST 1.0//EN\" \"http://www.apple.com/DTDs/PropertyList-1.0.dtd\">\n<plist version=\"1.0\">\n<dict>\n    <key>Label</key>\n    <string>com.user.whatsapp-backup</string>\n    <key>ProgramArguments</key>\n    <array>\n        <string>"@
        + binary_path
        + "</string>\n        <string>backup</string>\n    </array>\n    <key>StartInterval</key>\n    <integer>21600</integer>\n    <key>StandardOutPath</key>\n    <string>"@
        + log_dir + "/stdout.log</string>\n    <key>StandardErrorPath</key>\n    <string>"@ + log_dir
        + "/stderr.log</string>\n    <key>RunAtLoad</key>\n    <true/>\n</dict>\n</plist>"@
}

/// Writes the job description for the binary at `binary_path`, with the logs
/// in `log_dir`.
pub fn launchd_plist(binary_path: &str, log_dir: &str) -> (text: String)
    ensures
        text@ == plist_text(binary_path@, log_dir@),
{
    let mut text = String::from_str(
        "<?xml version=\"1.0\" encoding=\"UTF-8\"?>\n<!DOCTYPE plist PUBLIC \"-//Apple//DTD PLIST 1.0//EN\" \"http://www.apple.com/DTDs/PropertyList-1.0.dtd\">\n<plist version=\"1.0\">\n<dict>\n    <key>Label</key>\n    <string>com.user.whatsapp-backup</string>\n    <key>ProgramArguments</key>\n    <array>\n        <string>",
    );
    text.append(binary_path);
    text.append(
        "</string>\n        <string>backup</string>\n    </array>\n    <key>StartInterval</key>\n    <integer>21600</integer>\n    <key>StandardOutPath</key>\n    <string>",
    );
    text.append(log_dir);
    text.append("/stdout.log</string>\n    <key>StandardErrorPath</key>\n    <string>");
    text.append(log_dir);
    text.append("/stderr.log</string>\n    <key>RunAtLoad</key>\n    <true/>\n</dict>\n</plist>");
    text
}

/// Whether the task manager refused to load the job because it is loaded
/// already: the job is then unloaded and loaded again.
pub fn is_already_loaded(stderr: &str) -> (found: bool)
    ensures
        found == has_substring(stderr@, "already loaded"@),
{
    contains(stderr, "already loaded")
}

/// Whether the job is among those that the task manager lists as loaded.
pub fn is_service_listed(listing: &str) -> (found: bool)
    ensures
        found == has_substring(listing@, "com.user.whatsapp-backup"@),
{
    contains(listing, "com.user.whatsapp-backup")
}

} // verus!
