use gifclip::config::{
    ensure_setup_action, setup_choice_tool_source, Config, SetupAction, ToolSource,
};

#[test]
fn default_tool_source_is_system() {
    assert_eq!(ToolSource::default(), ToolSource::System);
    assert_eq!(Config::default().tool_source, ToolSource::System);
}

#[test]
fn config_paths_live_under_the_home_directory() {
    // the home directory comes from the environment; when it is known the
    // paths hang off `.gifclip` under it
    if let Ok(p) = Config::config_dir() {
        assert!(p.ends_with("/.gifclip"));
    }
    if let Ok(p) = Config::config_path() {
        assert!(p.ends_with("/.gifclip/settings.toml"));
    }
    if let Ok(p) = Config::tools_dir() {
        assert!(p.ends_with("/.gifclip/tools"));
    }
}

#[test]
fn managed_tool_paths_use_the_tools_directory() {
    let cfg = Config { tool_source: ToolSource::Managed };
    if let Ok(p) = cfg.yt_dlp_path() {
        assert!(p.ends_with("/.gifclip/tools/yt-dlp"));
    }
    if let Ok(p) = cfg.ffmpeg_path() {
        assert!(p.ends_with("/.gifclip/tools/ffmpeg"));
    }
    if let Ok(p) = cfg.ffprobe_path() {
        assert!(p.ends_with("/.gifclip/tools/ffprobe"));
    }
}

#[test]
fn setup_choice_is_flipped_when_tools_are_missing() {
    assert_eq!(setup_choice_tool_source(true, 0), ToolSource::System);
    assert_eq!(setup_choice_tool_source(true, 1), ToolSource::Managed);
    assert_eq!(setup_choice_tool_source(false, 0), ToolSource::Managed);
    assert_eq!(setup_choice_tool_source(false, 1), ToolSource::System);
}

#[test]
fn missing_tools_trigger_redownload_or_setup() {
    assert_eq!(
        ensure_setup_action(ToolSource::System, true, true, true),
        SetupAction::UseConfig
    );
    assert_eq!(
        ensure_setup_action(ToolSource::Managed, true, true, true),
        SetupAction::UseConfig
    );
    assert_eq!(
        ensure_setup_action(ToolSource::Managed, false, true, true),
        SetupAction::Redownload
    );
    assert_eq!(
        ensure_setup_action(ToolSource::System, true, false, true),
        SetupAction::RunSetup
    );
    assert_eq!(
        ensure_setup_action(ToolSource::Managed, true, true, false),
        SetupAction::Redownload
    );
}
