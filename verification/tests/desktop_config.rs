use jcode_surfaces::desktop_config::{
    configured_reasoning_display, desktop_frame_profile_enabled, desktop_frame_profile_log_all,
    desktop_platform_support_warning, env_flag_text_enabled, normalized_reasoning_display_mode,
    resolve_reasoning_display_mode, stream_e2e_benchmark_raw_events, DesktopPlatform,
    DESKTOP_DEFAULT_REASONING_DISPLAY,
};

#[test]
fn desktop_defaults_to_live_thinking_when_config_says_nothing() {
    assert_eq!(resolve_reasoning_display_mode(None, None), "current");
    assert_eq!(
        resolve_reasoning_display_mode(None, Some("[display]\nemoji = true\n")),
        "current"
    );
}

#[test]
fn explicit_config_choice_beats_the_desktop_default() {
    assert_eq!(
        resolve_reasoning_display_mode(None, Some("reasoning_display = \"off\"\n")),
        "off"
    );
    assert_eq!(
        resolve_reasoning_display_mode(None, Some("reasoning_display = \"full\"\n")),
        "full"
    );
}

#[test]
fn legacy_show_thinking_is_only_a_fallback() {
    assert_eq!(
        resolve_reasoning_display_mode(None, Some("show_thinking = false\n")),
        "off"
    );
    assert_eq!(
        resolve_reasoning_display_mode(
            None,
            Some("show_thinking = false\nreasoning_display = \"current\"\n"),
        ),
        "current",
        "an explicit mode must win over the legacy boolean"
    );
}

#[test]
fn env_override_wins_and_comments_are_ignored() {
    assert_eq!(
        resolve_reasoning_display_mode(Some("full"), Some("reasoning_display = \"off\"\n")),
        "full"
    );
    assert_eq!(
        resolve_reasoning_display_mode(Some("bogus"), Some("reasoning_display = \"off\"\n")),
        "off",
        "an unparseable override should fall through, not reset to the default"
    );
    assert_eq!(
        resolve_reasoning_display_mode(None, Some("# reasoning_display = \"off\"\n")),
        "current",
        "commented-out settings must not be read as explicit choices"
    );
}

fn args(words: &[&str]) -> Vec<String> {
    words.iter().map(|word| word.to_string()).collect()
}

#[test]
fn the_benchmark_count_is_the_first_that_an_argument_gives() {
    let count = |words: &[&str]| stream_e2e_benchmark_raw_events(&args(words), 100);
    assert_eq!(count(&[]), None);
    assert_eq!(count(&["run", "--verbose"]), None);
    assert_eq!(count(&["--stream-e2e-benchmark=12"]), Some(12));
    assert_eq!(count(&["--stream-e2e-benchmark", "34"]), Some(34));
    assert_eq!(count(&["--stream-e2e-benchmark"]), Some(600));
    assert_eq!(count(&["--stream-e2e-benchmark", "many"]), Some(600));
    assert_eq!(count(&["--stream-e2e-benchmark=x", "--stream-e2e-benchmark=5"]), Some(5));
    assert_eq!(count(&["--stream-e2e-benchmarks=5"]), None);
    assert_eq!(count(&["--stream-e2e-benchmark=5", "--stream-e2e-benchmark=6"]), Some(5));
}

#[test]
fn a_flag_is_on_unless_it_reads_as_off() {
    for off in ["", "  ", "0", "false", "OFF", " No "] {
        assert!(!env_flag_text_enabled(off), "{off:?}");
    }
    for on in ["1", "true", "yes", "on", "00", "maybe"] {
        assert!(env_flag_text_enabled(on), "{on:?}");
    }
    assert!(!desktop_frame_profile_enabled(None));
    assert!(desktop_frame_profile_enabled(Some("summary")));
    assert!(!desktop_frame_profile_enabled(Some("off")));
    assert!(desktop_frame_profile_log_all(Some(" ALL ")));
    assert!(desktop_frame_profile_log_all(Some("trace")));
    assert!(!desktop_frame_profile_log_all(Some("1")));
    assert!(!desktop_frame_profile_log_all(None));
}

#[test]
fn only_unsupported_platforms_are_warned_of() {
    assert_eq!(desktop_platform_support_warning(DesktopPlatform::Linux), None);
    assert_eq!(desktop_platform_support_warning(DesktopPlatform::Macos), None);
    assert_eq!(
        desktop_platform_support_warning(DesktopPlatform::Windows),
        Some("Windows desktop support is experimental; terminal spawning, power inhibit, and GPU backend behavior may differ from Linux/macOS")
    );
    assert_eq!(
        desktop_platform_support_warning(DesktopPlatform::Other),
        Some("this platform is not officially supported by jcode-desktop; startup will continue on a best-effort GPU backend")
    );
}

#[test]
fn every_word_for_a_mode_is_read() {
    for word in ["off", "none", "False", "0", " no "] {
        assert_eq!(normalized_reasoning_display_mode(word), Some("off"));
    }
    for word in ["full", "ALL", "true", "1", "yes", "on"] {
        assert_eq!(normalized_reasoning_display_mode(word), Some("full"));
    }
    for word in ["current", "live", "Ephemeral", "collapse"] {
        assert_eq!(normalized_reasoning_display_mode(word), Some("current"));
    }
    for word in ["", "2", "currently"] {
        assert_eq!(normalized_reasoning_display_mode(word), None);
    }
}

#[test]
fn the_last_mode_line_decides() {
    let mode = |raw: &str| configured_reasoning_display(raw);
    assert_eq!(mode("reasoning_display = full\nreasoning_display = off\n").as_deref(), Some("off"));
    assert_eq!(mode("reasoning_display = full\nreasoning_display = odd\n"), None);
    assert_eq!(
        mode("show_thinking = true\nreasoning_display = odd\n").as_deref(),
        Some("full")
    );
    assert_eq!(mode("show_thinking = true\nshow_thinking = maybe\n"), None);
    assert_eq!(mode("show_thinking = 'true'").as_deref(), Some("full"));
    assert_eq!(mode("show_thinking = True"), None);
}

#[test]
fn a_value_loses_its_comment_and_quotes() {
    let mode = |raw: &str| configured_reasoning_display(raw);
    assert_eq!(mode("  reasoning_display='live' # note\r\n").as_deref(), Some("current"));
    assert_eq!(mode("reasoning_display = \"'off'\"").as_deref(), Some("off"));
    assert_eq!(mode("reasoning_display = '\"off\"'"), None);
    assert_eq!(mode("reasoning_display = #off"), None);
    assert_eq!(mode("reasoning_display"), None);
    assert_eq!(mode("reasoning_display : off"), None);
    assert_eq!(mode("   # reasoning_display = off"), None);
    assert_eq!(mode("x = reasoning_display = off"), None);
    assert_eq!(mode(""), None);
}

#[test]
fn the_resolved_mode_is_always_known() {
    for env in [None, Some("full"), Some("odd"), Some("")] {
        for config in [None, Some(""), Some("reasoning_display = odd"), Some("show_thinking = true")] {
            let mode = resolve_reasoning_display_mode(env, config);
            assert!(["off", "full", DESKTOP_DEFAULT_REASONING_DISPLAY].contains(&mode.as_str()));
        }
    }
}
