use qq_copilot_remote::config::{AhpAuthorizedTarget, AhpToolNotificationMode, AppConfig};
use qq_copilot_remote::paths::is_absolute;

fn config(roots: &[&str]) -> AppConfig {
    AppConfig::generate(
        r"C:\temp",
        roots.iter().map(|root| (*root).to_owned()).collect(),
    )
}

#[test]
fn generated_config_has_strong_local_token() {
    let mut config = config(&[r"C:\temp"]);

    assert_eq!(config.bridge.ipc_token.len(), 64);
    assert_eq!(config.bridge.workspace_roots, vec![r"C:\temp"]);
    assert!(is_absolute(&config.bridge.database_path));
    assert!(!config.qq.voice_input_enabled);
    config.normalize().expect("reload config");
}

#[test]
fn generated_config_leaves_agent_hosts_as_they_are_by_default() {
    let ahp = config(&[r"C:\temp"]).ahp;
    assert!(!ahp.enabled);
    assert!(ahp.shared_workspaces.is_empty() && ahp.authorized_targets.is_empty());
    assert_eq!(ahp.event_retention_days, 30);
    assert_eq!(ahp.command_lease_seconds, 60);
    assert_eq!(ahp.poll_seconds, 25);
    assert_eq!(ahp.adapter_stale_seconds, 45);
    assert!(!ahp.adapter_auto_start);
    assert_eq!(ahp.node_executable, None);
    assert_eq!(ahp.adapter_script, None);
    assert_eq!(ahp.code_executable, None);
    assert_eq!(ahp.code_launcher, None);
    assert_eq!(ahp.ssh_executable, None);
    assert!(ahp.tool_notification_mode == AhpToolNotificationMode::Compact);
    assert!(ahp.typing_indicator_enabled);
    assert_eq!(ahp.typing_duration_seconds, 60);
    assert_eq!(ahp.typing_refresh_seconds, 45);
}

#[test]
fn approval_only_notification_mode_round_trips() {
    let mut config = config(&[r"C:\temp"]);
    config.ahp.tool_notification_mode = AhpToolNotificationMode::ApprovalOnly;

    config.normalize().expect("save config");

    let serialized = config.ahp.tool_notification_mode.as_str();
    assert_eq!(serialized, "approval_only");
    let loaded = AhpToolNotificationMode::from_str(serialized).expect("reload config");
    assert!(loaded == AhpToolNotificationMode::ApprovalOnly);
}

#[test]
fn notification_mode_command_values_parse_and_format() {
    for mode in [
        AhpToolNotificationMode::ApprovalOnly,
        AhpToolNotificationMode::Compact,
        AhpToolNotificationMode::Full,
    ] {
        assert_eq!(mode.as_str().parse(), Ok(mode));
        assert_eq!(mode.as_str().to_ascii_uppercase().parse(), Ok(mode));
    }
    assert_eq!("unknown".parse::<AhpToolNotificationMode>(), Err(()));
}

#[test]
fn loads_legacy_shared_workspace_and_migrates_on_save() {
    let workspace = r"C:\temp\workspace";
    let mut loaded = config(&[workspace]);
    loaded.ahp.enabled = true;
    loaded.ahp.shared_workspaces = vec![workspace.to_owned()];

    loaded.normalize().expect("load legacy config");

    assert_eq!(loaded.ahp.shared_workspaces, vec![workspace]);
    assert_eq!(loaded.ahp.authorized_targets.len(), 1);
    assert!(matches!(
        &loaded.ahp.authorized_targets[0],
        AhpAuthorizedTarget::Local { path } if path == workspace
    ));
}

#[test]
fn rejects_ahp_target_outside_authorized_roots() {
    let mut config = config(&[r"C:\temp\allowed"]);
    config.ahp.enabled = true;
    config.ahp.shared_workspaces = vec![r"C:\temp\outside".to_owned()];

    let error = config.validate().expect_err("outside target must fail");
    assert!(error.message.contains("outside bridge.workspace_roots"));
}
