//! Where the control-surface script is installed, and how an installation
//! is reported.

use vstd::prelude::*;

verus! {

/// The host systems that the audio application runs on.
#[derive(Clone, Copy, Debug, PartialEq, Eq, Structural)]
pub enum Platform {
    MacOs,
    Windows,
    Other,
}

/// Name of the installed script's directory.
pub const SCRIPT_DIR: &'static str = "AbletonOSC";

/// The remote-scripts directory under the home directory, if the platform
/// has one.
pub fn remote_scripts_subdir(platform: Platform) -> (r: Option<&'static str>)
    ensures
        r == match platform {
            Platform::MacOs => Some("Music/Ableton/User Library/Remote Scripts"),
            Platform::Windows => Some("Documents/Ableton/User Library/Remote Scripts"),
            Platform::Other => None::<&'static str>,
        },
{
    match platform {
        Platform::MacOs => Some("Music/Ableton/User Library/Remote Scripts"),
        Platform::Windows => Some("Documents/Ableton/User Library/Remote Scripts"),
        Platform::Other => None,
    }
}

/// Outcome of an installation, as shown to the user.
#[derive(Clone, Debug, PartialEq, Eq)]
pub struct InstallResult {
    pub success: bool,
    pub message: String,
    pub path: Option<String>,
}

/// The report of an installation that placed the script at `path`.
pub fn install_success(path: String) -> (r: InstallResult)
    ensures
        r.success,
        r.path == Some(path),
        r.message@ == INSTALL_MESSAGE@,
{
    InstallResult { success: true, message: INSTALL_MESSAGE.to_string(), path: Some(path) }
}

/// What a successful installation tells the user to do next.
pub const INSTALL_MESSAGE: &'static str = "AbletonOSC installed successfully! Ableton is restarting.\nPlease:\n1. Go to Preferences > Link/Tempo/MIDI\n2. Select 'AbletonOSC' from Control Surface dropdown";

} // verus!
