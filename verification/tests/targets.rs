use qq_copilot_remote::config::{AhpAuthorizedTarget, AppConfig};
use qq_copilot_remote::targets::{
    add_workspaces, distinct_workspaces, parse_host_key_fingerprints, paths_equal,
    posix_shell_quote, remote_workspace_uri, remove_local_target, validate_ssh_alias,
    workspace_uris_equal, Resolved,
};

fn texts(list: &[&str]) -> Vec<String> {
    list.iter().map(|text| (*text).to_owned()).collect()
}

fn place(path: &str, canonical: &str) -> Resolved {
    Resolved {
        path: path.to_owned(),
        canonical: canonical.to_owned(),
    }
}

#[test]
fn add_workspaces_authorizes_targets_and_deduplicates_paths() {
    let first = r"C:\temp\first";
    let second = r"C:\temp\second";
    let disk = vec![place(first, first), place(second, second)];
    let mut config = AppConfig::generate(r"C:\temp", texts(&[first]));

    let workspaces = distinct_workspaces(&disk, &texts(&[first, second, second]));
    let added = add_workspaces(&mut config, &workspaces, &disk);
    config.normalize().expect("add workspaces");

    assert_eq!(added, 2);
    assert_eq!(config.ahp.shared_workspaces.len(), 2);
    assert!(paths_equal(&disk, &config.ahp.shared_workspaces[0], first));
    assert!(paths_equal(&disk, &config.ahp.shared_workspaces[1], second));
    assert!(
        config
            .bridge
            .workspace_roots
            .iter()
            .any(|root| paths_equal(&disk, root, second))
    );
}

#[test]
fn remove_local_target_revokes_legacy_and_structured_entries() {
    let workspace = r"C:\temp\workspace";
    let mut config = AppConfig::generate(r"C:\temp", texts(&[workspace]));
    config.ahp.shared_workspaces = texts(&[workspace]);
    config
        .ahp
        .authorized_targets
        .push(AhpAuthorizedTarget::Local {
            path: workspace.to_owned(),
        });
    config.normalize().expect("save config");

    let removed = remove_local_target(&mut config, workspace, &vec![]);
    config.normalize().expect("remove target");

    assert_eq!(removed, 1);
    assert!(config.ahp.shared_workspaces.is_empty());
    assert!(config.ahp.authorized_targets.is_empty());
}

#[test]
fn remote_identity_helpers_reject_options_and_quote_shell_values() {
    assert!(validate_ssh_alias("dev-box_1.example").is_ok());
    assert!(validate_ssh_alias("-oProxyCommand=bad").is_err());
    assert!(validate_ssh_alias("dev;touch-bad").is_err());
    assert_eq!(
        posix_shell_quote("/srv/a'$(touch bad)"),
        "'/srv/a'\\''$(touch bad)'"
    );
    assert_eq!(
        parse_host_key_fingerprints("SHA256:b\nSHA256:a\nSHA256:b\n").expect("fingerprints"),
        vec!["SHA256:a", "SHA256:b"]
    );
}

#[test]
fn trust_uri_matching_normalizes_remote_authority_and_path_encoding() {
    let expected = remote_workspace_uri("devbox", "/home/user/My Project").expect("workspace URI");
    assert!(workspace_uris_equal(
        &vec![],
        &vec![],
        &expected,
        "vscode-remote://ssh-remote%2Bdevbox/home/user/My%20Project"
    ));
    assert!(!workspace_uris_equal(
        &vec![],
        &vec![],
        &expected,
        "vscode-remote://ssh-remote%2Bother/home/user/My%20Project"
    ));
}
