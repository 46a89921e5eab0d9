//! Tool configuration: whether the video downloader and transcoder come from
//! the system's PATH or from a managed directory under the user's home, and
//! where the settings file and the managed tools live.

use vstd::prelude::*;
use vstd::string::StringExecFns;

verus! {

/// Where the external tools come from.
#[derive(Debug, Clone, Copy, PartialEq, Eq, Structural)]
pub enum ToolSource {
    /// Binaries found on the system's PATH.
    System,
    /// Binaries downloaded into the managed tools directory.
    Managed,
}

impl Default for ToolSource {
    fn default() -> (r: ToolSource)
        ensures
            r == ToolSource::System,
    {
        ToolSource::System
    }
}

/// The persisted configuration.
#[derive(Debug, Clone, Copy, PartialEq, Eq, Structural)]
pub struct Config {
    pub tool_source: ToolSource,
}

impl Default for Config {
    fn default() -> (r: Config)
        ensures
            r == (Config { tool_source: ToolSource::System }),
    {
        Config { tool_source: ToolSource::System }
    }
}

/// Why a path could not be produced.
#[derive(Debug, Clone, Copy, PartialEq, Eq, Structural)]
pub enum ConfigError {
    /// The environment names no home directory.
    NoHomeDir,
    /// The tool is not on the system's PATH.
    ToolNotFound,
}

/// Relies on `dirs::home_dir`: the user's home directory, a value that
/// depends on the environment, so nothing is promised of it.
#[verifier::external_body]
fn home_dir_string() -> (r: Option<String>) {
    dirs::home_dir().and_then(|p| p.into_os_string().into_string().ok())
}

/// Relies on `which::which`: where the environment's PATH holds the named
/// binary, a value that depends on the environment, so nothing is promised
/// of it.
#[verifier::external_body]
fn which_string(name: &str) -> (r: Option<String>) {
    match which::which(name) {
        Ok(p) => p.into_os_string().into_string().ok(),
        Err(_) => None,
    }
}

impl Config {
    /// The directory holding the configuration: `.gifclip` under the home
    /// directory.
    pub fn config_dir() -> (r: Result<String, ConfigError>)
        ensures
            r matches Ok(p) ==> exists|h: Seq<char>| p@ == h + "/.gifclip"@,
            r matches Err(e) ==> e == ConfigError::NoHomeDir,
    {
        match home_dir_string() {
            Some(h) => {
                let ghost hv = h@;
                let mut p = h;
                p.append("/.gifclip");
                proof {
                    assert(p@ == hv + "/.gifclip"@);
                }
                Ok(p)
            },
            None => Err(ConfigError::NoHomeDir),
        }
    }

    /// The settings file: `settings.toml` in the configuration directory.
    pub fn config_path() -> (r: Result<String, ConfigError>)
        ensures
            r matches Ok(p) ==> exists|h: Seq<char>| p@ == h + "/.gifclip/settings.toml"@,
            r matches Err(e) ==> e == ConfigError::NoHomeDir,
    {
        match home_dir_string() {
            Some(h) => {
                let ghost hv = h@;
                let mut p = h;
                p.append("/.gifclip/settings.toml");
                proof {
                    assert(p@ == hv + "/.gifclip/settings.toml"@);
                }
                Ok(p)
            },
            None => Err(ConfigError::NoHomeDir),
        }
    }

    /// The managed tools directory: `tools` in the configuration directory.
    pub fn tools_dir() -> (r: Result<String, ConfigError>)
        ensures
            r matches Ok(p) ==> exists|h: Seq<char>| p@ == h + "/.gifclip/tools"@,
            r matches Err(e) ==> e == ConfigError::NoHomeDir,
    {
        match home_dir_string() {
            Some(h) => {
                let ghost hv = h@;
                let mut p = h;
                p.append("/.gifclip/tools");
                proof {
                    assert(p@ == hv + "/.gifclip/tools"@);
                }
                Ok(p)
            },
            None => Err(ConfigError::NoHomeDir),
        }
    }

    /// Where the video downloader binary is: looked up on PATH for system
    /// tools, a fixed name in the managed tools directory otherwise.
    pub fn yt_dlp_path(&self) -> (r: Result<String, ConfigError>)
        ensures
            self.tool_source == ToolSource::Managed ==> (r matches Ok(p) ==> exists|h: Seq<char>|
                p@ == h + "/.gifclip/tools/yt-dlp"@) && (r matches Err(e) ==> e
                == ConfigError::NoHomeDir),
            self.tool_source == ToolSource::System ==> (r matches Err(e) ==> e
                == ConfigError::ToolNotFound),
    {
        match self.tool_source {
            ToolSource::System => match which_string("yt-dlp") {
                Some(p) => Ok(p),
                None => Err(ConfigError::ToolNotFound),
            },
            ToolSource::Managed => match home_dir_string() {
                Some(h) => {
                    let ghost hv = h@;
                    let mut p = h;
                    p.append("/.gifclip/tools/yt-dlp");
                    proof {
                        assert(p@ == hv + "/.gifclip/tools/yt-dlp"@);
                    }
                    Ok(p)
                },
                None => Err(ConfigError::NoHomeDir),
            },
        }
    }

    /// Where the transcoder binary is.
    pub fn ffmpeg_path(&self) -> (r: Result<String, ConfigError>)
        ensures
            self.tool_source == ToolSource::Managed ==> (r matches Ok(p) ==> exists|h: Seq<char>|
                p@ == h + "/.gifclip/tools/ffmpeg"@) && (r matches Err(e) ==> e
                == ConfigError::NoHomeDir),
            self.tool_source == ToolSource::System ==> (r matches Err(e) ==> e
                == ConfigError::ToolNotFound),
    {
        match self.tool_source {
            ToolSource::System => match which_string("ffmpeg") {
                Some(p) => Ok(p),
                None => Err(ConfigError::ToolNotFound),
            },
            ToolSource::Managed => match home_dir_string() {
                Some(h) => {
                    let ghost hv = h@;
                    let mut p = h;
                    p.append("/.gifclip/tools/ffmpeg");
                    proof {
                        assert(p@ == hv + "/.gifclip/tools/ffmpeg"@);
                    }
                    Ok(p)
                },
                None => Err(ConfigError::NoHomeDir),
            },
        }
    }

    /// Where the stream prober binary is.
    pub fn ffprobe_path(&self) -> (r: Result<String, ConfigError>)
        ensures
            self.tool_source == ToolSource::Managed ==> (r matches Ok(p) ==> exists|h: Seq<char>|
                p@ == h + "/.gifclip/tools/ffprobe"@) && (r matches Err(e) ==> e
                == ConfigError::NoHomeDir),
            self.tool_source == ToolSource::System ==> (r matches Err(e) ==> e
                == ConfigError::ToolNotFound),
    {
        match self.tool_source {
            ToolSource::System => match which_string("ffprobe") {
                Some(p) => Ok(p),
                None => Err(ConfigError::ToolNotFound),
            },
            ToolSource::Managed => match home_dir_string() {
                Some(h) => {
                    let ghost hv = h@;
                    let mut p = h;
                    p.append("/.gifclip/tools/ffprobe");
                    proof {
                        assert(p@ == hv + "/.gifclip/tools/ffprobe"@);
                    }
                    Ok(p)
                },
                None => Err(ConfigError::NoHomeDir),
            },
        }
    }
}

/// The tool source a setup choice denotes. When all tools were found on the
/// system the first option keeps using them; when some are missing the
/// options are shown in the opposite order, so the first option downloads
/// managed copies.
pub fn setup_choice_tool_source(has_all_system_tools: bool, choice: usize) -> (r: ToolSource)
    ensures
        has_all_system_tools ==> (r == ToolSource::System <==> choice == 0),
        !has_all_system_tools ==> (r == ToolSource::Managed <==> choice == 0),
{
    if has_all_system_tools {
        if choice == 0 {
            ToolSource::System
        } else {
            ToolSource::Managed
        }
    } else {
        if choice == 0 {
            ToolSource::Managed
        } else {
            ToolSource::System
        }
    }
}

/// What checking the configured tools asks the caller to do next.
#[derive(Debug, Clone, Copy, PartialEq, Eq, Structural)]
pub enum SetupAction {
    /// Every tool is present: keep the configuration.
    UseConfig,
    /// Managed tools are configured but some binary is missing: download
    /// them again.
    Redownload,
    /// System tools are configured but some binary is missing: ask the user
    /// anew.
    RunSetup,
}

/// Decides what to do after probing the configured tools: nothing when all
/// three are present; with one missing, managed configurations fetch the
/// tools again and system configurations fall back to interactive setup.
pub fn ensure_setup_action(
    tool_source: ToolSource,
    yt_dlp_ok: bool,
    ffmpeg_ok: bool,
    ffprobe_ok: bool,
) -> (r: SetupAction)
    ensures
        (yt_dlp_ok && ffmpeg_ok && ffprobe_ok) ==> r == SetupAction::UseConfig,
        !(yt_dlp_ok && ffmpeg_ok && ffprobe_ok) && tool_source == ToolSource::Managed ==> r
            == SetupAction::Redownload,
        !(yt_dlp_ok && ffmpeg_ok && ffprobe_ok) && tool_source == ToolSource::System ==> r
            == SetupAction::RunSetup,
{
    if yt_dlp_ok && ffmpeg_ok && ffprobe_ok {
        SetupAction::UseConfig
    } else if matches!(tool_source, ToolSource::Managed) {
        SetupAction::Redownload
    } else {
        SetupAction::RunSetup
    }
}

} // verus!
