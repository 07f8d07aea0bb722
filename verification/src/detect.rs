//! Finding the directory of the log files without being told.

use vstd::prelude::*;

verus! {

/// Why no directory was found.
#[derive(Clone, Copy, Debug, PartialEq, Eq, Structural)]
pub enum DetectError {
    /// Nothing on this platform tells where the log files are.
    NotConfigured,
}

/// What the user is told to do where no directory was found.
pub open spec fn not_configured_message() -> Seq<char> {
    "Set logs_path in where-am-i.toml to the location of your VRChat log files"@
}

impl DetectError {
    /// What the user is told to do.
    pub fn message(&self) -> (text: String)
        ensures
            text@ == not_configured_message(),
    {
        String::from_str(
            "Set logs_path in where-am-i.toml to the location of your VRChat log files",
        )
    }
}

/// The directory of the log files, where the platform tells it. Without
/// help from the platform there is none to find: the user has to name it.
pub fn autodetect_path() -> (path: Result<String, DetectError>)
    ensures
        path == Err::<String, DetectError>(DetectError::NotConfigured),
{
    Err(DetectError::NotConfigured)
}

} // verus!
