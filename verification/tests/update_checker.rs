use claude_gateway::update::{
    build_update_info, compare_versions, set_last_check, should_check_for_updates,
    should_check_given, update_last_check_time, UpdateSettings,
};
use std::time::{SystemTime, UNIX_EPOCH};

#[test]
fn test_compare_versions() {
    assert!(compare_versions("3.3.21", "3.3.20"));
    assert!(compare_versions("3.4.0", "3.3.21"));
    assert!(compare_versions("4.0.0", "3.3.21"));
    assert!(!compare_versions("3.3.20", "3.3.21"));
    assert!(!compare_versions("3.3.21", "3.3.21"));
}

#[test]
fn test_should_check_for_updates() {
    let mut settings = UpdateSettings::default();
    assert!(should_check_for_updates(&settings));

    settings.last_check_time = SystemTime::now()
        .duration_since(UNIX_EPOCH)
        .unwrap()
        .as_secs();
    assert!(!should_check_for_updates(&settings));

    settings.auto_check = false;
    assert!(!should_check_for_updates(&settings));
}

#[test]
fn compare_versions_pads_shorter_lists_with_zeros() {
    assert!(!compare_versions("1.0", "1"));
    assert!(!compare_versions("1", "1.0.0"));
    assert!(compare_versions("1.0.1", "1"));
    assert!(compare_versions("2", "1.9.9"));
}

#[test]
fn compare_versions_skips_segments_that_do_not_parse() {
    // "3.a.1" parses to [3, 1], "3.0.2" to [3, 0, 2]: 1 > 0 at the second part.
    assert!(compare_versions("3.a.1", "3.0.2"));
    // Nothing numeric on either side: equal, so not newer.
    assert!(!compare_versions("abc", ""));
    // A segment too large for u32 is dropped, not clamped.
    assert!(!compare_versions("4294967296", "1"));
    assert!(compare_versions("1", "4294967296"));
    // A single leading '+' is accepted by the segment parser.
    assert!(compare_versions("+4.0", "3.9"));
}

#[test]
fn should_check_given_follows_the_interval_rule() {
    let settings = UpdateSettings {
        auto_check: true,
        last_check_time: 1000,
    };
    assert!(should_check_given(&settings, 1000 + 24 * 3600));
    assert!(!should_check_given(&settings, 1000 + 24 * 3600 - 1));
    // A clock behind the recorded check counts as no time elapsed.
    assert!(!should_check_given(&settings, 999));
    let off = UpdateSettings {
        auto_check: false,
        last_check_time: 0,
    };
    assert!(!should_check_given(&off, u64::MAX));
}

#[test]
fn default_settings_enable_auto_check() {
    let settings = UpdateSettings::default();
    assert!(settings.auto_check);
    assert_eq!(settings.last_check_time, 0);
}

#[test]
fn set_last_check_stamps_the_given_reading() {
    let mut settings = UpdateSettings {
        auto_check: false,
        last_check_time: 7,
    };
    set_last_check(&mut settings, 123456);
    assert_eq!(settings.last_check_time, 123456);
    assert!(!settings.auto_check);
}

#[test]
fn update_last_check_time_stamps_the_clock_and_keeps_the_switch() {
    let before = SystemTime::now()
        .duration_since(UNIX_EPOCH)
        .unwrap()
        .as_secs();
    let mut settings = UpdateSettings {
        auto_check: false,
        last_check_time: 0,
    };
    update_last_check_time(&mut settings);
    assert!(settings.last_check_time >= before);
    assert!(!settings.auto_check);
}

#[test]
fn build_update_info_strips_the_tag_prefix_and_compares() {
    let info = build_update_info(
        "3.3.20",
        "v3.3.21",
        "https://example.invalid/releases/3.3.21",
        "notes",
        "2024-01-01T00:00:00Z",
    );
    assert_eq!(info.current_version, "3.3.20");
    assert_eq!(info.latest_version, "3.3.21");
    assert!(info.has_update);
    assert_eq!(info.release_url, "https://example.invalid/releases/3.3.21");
    assert_eq!(info.release_notes, "notes");
    assert_eq!(info.published_at, "2024-01-01T00:00:00Z");

    let same = build_update_info("3.3.21", "vv3.3.21", "u", "n", "p");
    assert_eq!(same.latest_version, "3.3.21");
    assert!(!same.has_update);

    let plain = build_update_info("1.0.0", "0.9.9", "u", "n", "p");
    assert_eq!(plain.latest_version, "0.9.9");
    assert!(!plain.has_update);
}
