use keystone_cc::launch_profile::{LaunchProfile, LaunchType};
use keystone_cc::stage::StageId;

fn args(list: &[&str]) -> Vec<String> {
    list.iter().map(|s| s.to_string()).collect()
}

#[test]
fn parses_ci_smoke_report_path() {
    let args = vec![
        "keystone-cc".to_string(),
        "--ci-smoke".to_string(),
        "--ci-smoke-report".to_string(),
        "result.json".to_string(),
    ];

    let profile = LaunchProfile::from_args(&args);

    assert!(profile.ci_smoke_enabled());
    assert_eq!(profile.ci_smoke_report.unwrap(), "result.json".to_string());
}

#[test]
fn report_without_smoke_flag_does_not_enable_smoke() {
    let args = vec![
        "keystone-cc".to_string(),
        "--ci-smoke-report=x.json".to_string(),
    ];
    assert!(!LaunchProfile::from_args(&args).ci_smoke_enabled());
}

#[test]
fn smoke_flag_without_report_does_not_enable_smoke() {
    let args = vec!["keystone-cc".to_string(), "--ci-smoke".to_string()];
    assert!(!LaunchProfile::from_args(&args).ci_smoke_enabled());
}

#[test]
fn program_name_alone_gives_an_ordinary_start() {
    let p = LaunchProfile::from_args(&args(&["keystone-cc"]));
    assert!(!p.changed);
    assert_eq!(p.launch_type, LaunchType::Normal);
    assert!(!p.skip_boot && !p.skip_title && !p.render_physics);
    assert!(p.stage_id.is_none());
    assert!(p.ci_smoke_report.is_none());
}

#[test]
fn debug_flag_skips_boot_and_title_and_shows_physics() {
    let p = LaunchProfile::from_args(&args(&["keystone-cc", "--debug"]));
    assert!(p.changed);
    assert!(p.skip_boot && p.skip_title && p.render_physics);
}

#[test]
fn stage_id_is_read_in_both_forms() {
    let p = LaunchProfile::from_args(&args(&["keystone-cc", "--stage-id=7"]));
    assert_eq!(p.stage_id, Some(StageId(7)));
    let p = LaunchProfile::from_args(&args(&["keystone-cc", "--stage-id", "12", "--skip-title"]));
    assert_eq!(p.stage_id, Some(StageId(12)));
    assert!(p.skip_title);
}

#[test]
fn unreadable_stage_id_is_ignored_and_its_value_consumed() {
    let p = LaunchProfile::from_args(&args(&["keystone-cc", "--stage-id", "--skip-boot"]));
    assert_eq!(p.stage_id, None);
    assert!(!p.skip_boot);
    assert!(!p.changed);
    let p = LaunchProfile::from_args(&args(&["keystone-cc", "--stage-id=x"]));
    assert_eq!(p.stage_id, None);
    assert!(!p.changed);
}

#[test]
fn empty_report_path_is_ignored() {
    let p = LaunchProfile::from_args(&args(&["keystone-cc", "--ci-smoke", "--ci-smoke-report="]));
    assert!(p.ci_smoke_report.is_none());
    assert!(!p.ci_smoke_enabled());
}

#[test]
fn launch_types_are_read() {
    let p = LaunchProfile::from_args(&args(&["keystone-cc", "--show-chunk-grammar-ascii-map"]));
    assert_eq!(p.launch_type, LaunchType::ShowChunkGrammarAsciiMap);
    let p = LaunchProfile::from_args(&args(&["keystone-cc", "--steam-app-info", "--unknown"]));
    assert_eq!(p.launch_type, LaunchType::SteamAppInfo);
}
