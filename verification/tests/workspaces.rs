use qq_copilot_remote::config::{
    default_config_path, verify_stored_secret, AhpAuthorizedTarget, AppConfig, AppSecretSource,
    Failure,
};
use qq_copilot_remote::json::Json;
use qq_copilot_remote::targets::{
    check_fingerprints, configure_ahp, find_files, local_tools, local_workspace_uri,
    normalize_remote_posix_path, parse_host_key_fingerprints, read_remote_identity, read_ssh_host,
    register_local_target, register_remote_target, remote_target, remote_tools,
    remote_workspace_uri, remove_remote_target, reported_requests, set_mode, ssh_arguments,
    standing_target, trust_step, validate_endpoints, validate_ssh_alias, workspace_uris_equal,
    FileUri, IntegrationMode, Resolved, SshHost, TrustStep,
};
use qq_copilot_remote::wizard::AhpTrustRequestRecord;

const WORKSPACE: &str = r"C:\temp\workspace";

fn error_of<T>(r: Result<T, Failure>) -> String {
    match r {
        Ok(_) => panic!("it went well"),
        Err(f) => f.message,
    }
}

fn config() -> AppConfig {
    AppConfig::generate(r"C:\temp", vec![WORKSPACE.to_owned()])
}

fn configured() -> AppConfig {
    let mut config = config();
    configure_ahp(
        &mut config,
        &vec![WORKSPACE.to_owned()],
        r"C:\node.exe",
        r"C:\adapter.js",
        r"C:\code.exe",
        r"C:\code.cmd",
        Some(r"C:\ssh.exe"),
    );
    config
}

#[test]
fn posix_paths_are_followed() {
    let followed = normalize_remote_posix_path("/home/./user/../other//repo/").expect("path");
    assert_eq!(followed, "/home/other/repo");
    assert_eq!(
        normalize_remote_posix_path(&followed).expect("path"),
        followed
    );
    assert_eq!(normalize_remote_posix_path("/..").expect("path"), "/");
    assert_eq!(
        error_of(normalize_remote_posix_path("home/user")),
        "remote target paths must be absolute POSIX paths"
    );
    assert!(normalize_remote_posix_path("/a\nb").is_err());
}

#[test]
fn aliases_are_bounded() {
    assert!(validate_ssh_alias(&"a".repeat(255)).is_ok());
    assert_eq!(
        error_of(validate_ssh_alias(&"a".repeat(256))),
        "SSH Host alias contains unsupported characters"
    );
    assert!(validate_ssh_alias("").is_err());
    let words = ssh_arguments("devbox", &vec!["/a b".to_owned()]).expect("arguments");
    assert_eq!(words[7], "devbox");
    assert_eq!(words[8], "sh -s -- '/a b'");
    assert_eq!(words.len(), 9);
    assert!(ssh_arguments("-x", &vec![]).is_err());
}

#[test]
fn remote_hosts_are_read() {
    let host = read_ssh_host("user me\nhostname example.com\nport 2222\nother x\n").expect("host");
    assert_eq!(host.user, "me");
    assert_eq!(host.host, "example.com");
    assert_eq!(host.port, 2222);
    assert_eq!(
        error_of(read_ssh_host("user me\nport x\n")),
        "ssh alias port was invalid"
    );
    assert_eq!(
        error_of(read_ssh_host("hostname a\nport 22\n")),
        "ssh alias did not resolve a user"
    );
    assert_eq!(
        error_of(read_ssh_host("user me\nport 22\n")),
        "ssh alias did not resolve a hostname"
    );
    assert_eq!(
        error_of(read_ssh_host("user me\nhostname a\n")),
        "ssh alias did not resolve a port"
    );

    let identity = read_remote_identity(
        "noise\n__QQ_HOST_KEYS__\nSHA256:b\nSHA256:a\n__QQ_CANONICAL_PATH__\n/home/user\n",
    )
    .expect("identity");
    assert_eq!(identity.host_key_fingerprints, vec!["SHA256:a", "SHA256:b"]);
    assert_eq!(identity.canonical_path, "/home/user");
    assert_eq!(
        error_of(read_remote_identity("nothing")),
        "remote validation did not report host key fingerprints"
    );
    assert_eq!(
        error_of(read_remote_identity("__QQ_HOST_KEYS__\nSHA256:a\n")),
        "remote validation did not report the canonical path"
    );
    assert_eq!(
        error_of(parse_host_key_fingerprints("MD5:a\n")),
        "remote host key fingerprints are invalid"
    );
}

#[test]
fn changed_host_keys_are_refused() {
    let found = vec!["SHA256:a".to_owned(), "SHA256:b".to_owned()];
    let same = vec![
        "SHA256:b".to_owned(),
        "SHA256:a".to_owned(),
        "SHA256:a".to_owned(),
    ];
    assert!(check_fingerprints(None, &found).is_ok());
    assert!(check_fingerprints(Some(&same), &found).is_ok());
    assert!(
        error_of(check_fingerprints(Some(&vec!["SHA256:a".to_owned()]), &found))
            .starts_with("SSH host key fingerprints changed")
    );
}

fn endpoint(schema: u64, protocol: &str, kind: &str) -> Json {
    Json::object()
        .with("schemaVersion", Json::number(schema))
        .with("protocolVersion", Json::text(protocol))
        .with("type", Json::text(kind))
}

#[test]
fn endpoints_have_to_be_compatible() {
    let document = |endpoint: Json| Json::object().with("endpoints", Json::array().and(endpoint));
    assert!(validate_endpoints(&document(endpoint(2, "0.8.0", "standalone"))).is_ok());
    assert!(
        error_of(validate_endpoints(&document(endpoint(1, "0.8.0", "standalone"))))
            .starts_with("no compatible standalone agent host endpoint")
    );
    assert!(validate_endpoints(&document(endpoint(2, "0.5.0", "standalone"))).is_err());
    assert!(validate_endpoints(&document(endpoint(2, "0.8.0", "embedded"))).is_err());
    assert_eq!(
        error_of(validate_endpoints(&Json::object())),
        "agent endpoints output was not valid JSON"
    );
}

#[test]
fn addresses_of_files_are_compared_by_where_they_lead() {
    let files = vec![
        FileUri {
            uri: "file:///c:/work".to_owned(),
            path: Some(r"C:\work".to_owned()),
        },
        FileUri {
            uri: "file:///c:/link".to_owned(),
            path: Some(r"C:\link".to_owned()),
        },
    ];
    let disk = vec![
        Resolved {
            path: r"C:\work".to_owned(),
            canonical: r"C:\work".to_owned(),
        },
        Resolved {
            path: r"C:\link".to_owned(),
            canonical: r"C:\work".to_owned(),
        },
    ];
    assert!(workspace_uris_equal(
        &disk,
        &files,
        "file:///c:/work",
        "file:///c:/link"
    ));
    assert!(!workspace_uris_equal(
        &vec![],
        &files,
        "file:///c:/work",
        "file:///c:/link"
    ));
    assert!(workspace_uris_equal(&vec![], &vec![], "same", "same"));
    assert!(!workspace_uris_equal(&vec![], &vec![], "one", "other"));
    let requests = vec![AhpTrustRequestRecord {
        request_id: "trust-1".to_owned(),
        workspace_uri: "file:///c:/work".to_owned(),
        open_trust_ui: true,
        trusted: false,
        expires_at: 1,
    }];
    assert_eq!(
        reported_requests(&disk, &files, &requests, &vec!["file:///c:/link".to_owned()]),
        vec!["file:///c:/work"]
    );
    assert!(reported_requests(&disk, &files, &requests, &vec![]).is_empty());
}

#[test]
fn addresses_are_written_by_the_url_crate() {
    assert_eq!(
        remote_workspace_uri("devbox", "/home/user/./My Project").expect("uri"),
        "vscode-remote://ssh-remote+devbox/home/user/My%20Project"
    );
    assert!(remote_workspace_uri("-x", "/a").is_err());
    assert!(remote_workspace_uri("devbox", "a").is_err());
    let uri = local_workspace_uri("/srv/work").expect("uri");
    assert_eq!(uri, "file:///srv/work/");
    assert_eq!(
        error_of(local_workspace_uri("relative")),
        "failed to build workspace URI"
    );
    let files = find_files(&vec![uri.clone(), "mailto:a".to_owned()]);
    assert_eq!(files[0].uri, uri);
    assert_eq!(files[0].path.as_deref(), Some("/srv/work/"));
    assert_eq!(files[1].path, None);
}

#[test]
fn the_bridge_is_set_up_for_agent_hosts() {
    let config = configured();
    assert!(config.ahp.enabled);
    assert!(config.qq.approval_buttons_enabled);
    assert_eq!(config.qq.intents & (1 << 26), 1 << 26);
    assert_eq!(config.ahp.shared_workspaces, vec![WORKSPACE]);
    let tools = local_tools(&config).expect("tools");
    assert_eq!(tools.code, r"C:\code.exe");
    assert_eq!(tools.code_launcher, r"C:\code.cmd");
    assert_eq!(
        error_of(local_tools(&self::config())),
        "AHP mode is not configured"
    );
    let mut config = config;
    set_mode(&mut config, IntegrationMode::Legacy);
    assert!(!config.ahp.enabled);
    set_mode(&mut config, IntegrationMode::Ahp);
    assert!(config.ahp.enabled);
}

#[test]
fn local_targets_are_registered_once() {
    let mut config = configured();
    let database = config.bridge.database_path.clone();
    register_local_target(&mut config, &database, WORKSPACE, false, &vec![]).expect("register");
    register_local_target(&mut config, &database, WORKSPACE, true, &vec![]).expect("register");
    assert_eq!(config.ahp.authorized_targets.len(), 1);
    let other_form = database.replace('\\', "/./");
    assert_ne!(other_form, database);
    register_local_target(&mut config, &other_form, WORKSPACE, true, &vec![])
        .expect("it is the same path");
    config.ahp.authorized_targets.clear();
    assert!(
        error_of(register_local_target(
            &mut config,
            &database,
            WORKSPACE,
            true,
            &vec![]
        ))
        .starts_with("local target authorization was revoked")
    );
    assert!(
        error_of(register_local_target(
            &mut config,
            r"C:\other.sqlite3",
            WORKSPACE,
            false,
            &vec![]
        ))
        .starts_with("Bridge database configuration changed")
    );
    config.ahp.enabled = false;
    assert!(
        error_of(register_local_target(
            &mut config,
            &database,
            WORKSPACE,
            false,
            &vec![]
        ))
        .starts_with("AHP mode was disabled")
    );
}

fn ssh_host(port: u16) -> SshHost {
    SshHost {
        user: "me".to_owned(),
        host: "example.com".to_owned(),
        port,
    }
}

#[test]
fn remote_targets_are_registered_and_removed() {
    let mut config = configured();
    let database = config.bridge.database_path.clone();
    let keys = vec!["SHA256:a".to_owned()];
    let tools = remote_tools(&config, "devbox").expect("tools");
    assert!(tools.known.is_none());
    let target =
        remote_target(&tools.known, "devbox", "/srv", &ssh_host(22), &keys).expect("target");
    assert!(standing_target(&config, &target).is_none());
    register_remote_target(&mut config, &database, &None, target).expect("register");
    assert_eq!(config.ahp.authorized_targets.len(), 1);

    let tools = remote_tools(&config, "devbox").expect("tools");
    assert!(tools.known.is_some());
    assert!(
        error_of(remote_target(
            &tools.known,
            "devbox",
            "/srv",
            &ssh_host(23),
            &keys
        ))
        .starts_with("SSH Host alias identity changed")
    );
    let original = tools.known;
    assert_eq!(
        remove_remote_target(&mut config, "devbox", "/srv/../srv").expect("remove"),
        1
    );
    assert!(config.ahp.authorized_targets.is_empty());
    let again = AhpAuthorizedTarget::Local {
        path: WORKSPACE.to_owned(),
    };
    assert!(
        error_of(register_remote_target(
            &mut config,
            &database,
            &original,
            again
        ))
        .starts_with("SSH target authorization changed")
    );
    assert!(remove_remote_target(&mut config, "devbox", "srv").is_err());
}

#[test]
fn trust_is_waited_for() {
    let request = |trusted: bool| {
        Some(AhpTrustRequestRecord {
            request_id: "trust-1".to_owned(),
            workspace_uri: "file:///c:/work".to_owned(),
            open_trust_ui: true,
            trusted,
            expires_at: 1,
        })
    };
    assert_eq!(trust_step(&None, false), TrustStep::Expired);
    assert_eq!(trust_step(&request(true), true), TrustStep::Trusted);
    assert_eq!(trust_step(&request(false), true), TrustStep::TimedOut);
    assert_eq!(trust_step(&request(false), false), TrustStep::Wait);
}

#[test]
fn configurations_are_checked() {
    let good = config();
    good.validate().expect("a generated configuration is valid");
    let broken = |change: fn(&mut AppConfig)| {
        let mut config = config();
        change(&mut config);
        error_of(config.validate())
    };
    assert!(broken(|c| c.bridge.pipe_name = "a/b".to_owned()).contains("pipe_name"));
    assert!(broken(|c| c.bridge.ipc_token = "short".to_owned()).contains("256 bits"));
    assert!(broken(|c| c.bridge.database_path = "a".to_owned()).contains("database_path"));
    assert!(broken(|c| c.bridge.workspace_roots = vec!["a".to_owned()]).contains("workspace_roots"));
    assert!(broken(|c| c.bridge.bridge_wait_seconds = 0).contains("bridge wait"));
    assert!(broken(|c| c.bridge.message_chunk_chars = 0).contains("message length"));
    assert!(broken(|c| c.qq.intents = 0).contains("1 << 25"));
    let daemon = good
        .validate_daemon(true, true, "", &vec![])
        .expect_err("no app id");
    assert_eq!(daemon.message, "qq.app_id is not configured");
    let mut ready = config();
    ready.qq.app_id = "app".to_owned();
    ready.qq.app_secret_source = AppSecretSource::CredentialManager;
    ready
        .validate_daemon(true, true, "", &vec![])
        .expect("a daemon can be run");
    assert!(ready.pipe_path().starts_with(r"\\.\pipe\"));
    assert!(verify_stored_secret("secret", "secret").is_ok());
    assert!(verify_stored_secret("secret", "other").is_err());
}

#[test]
fn the_secret_has_to_be_found() {
    let mut config = config();
    config.qq.app_secret_source = AppSecretSource::CredentialManager;
    assert_eq!(
        config.app_secret(Some("secret".to_owned())).expect("secret"),
        "secret"
    );
    assert_eq!(
        error_of(config.app_secret(Some(" \t".to_owned()))),
        "QQ AppSecret is empty"
    );
    assert!(error_of(config.app_secret(None)).contains("store-secret"));
    config.qq.app_secret_source = AppSecretSource::Environment;
    config.qq.app_secret_env = "QQ_SECRET".to_owned();
    assert_eq!(
        error_of(config.app_secret(None)),
        "environment variable QQ_SECRET is not set"
    );
    assert_eq!(
        error_of(config.store_app_secret("secret")),
        "qq.app_secret_source is not credential_manager"
    );
    config.qq.app_secret_source = AppSecretSource::CredentialManager;
    assert_eq!(
        error_of(config.store_app_secret("")),
        "QQ AppSecret must not be empty"
    );
}

#[test]
fn the_configuration_has_a_place() {
    assert_eq!(
        default_config_path(Some(r"C:\a.toml".to_owned()), None).expect("path"),
        r"C:\a.toml"
    );
    assert!(
        default_config_path(None, Some(r"C:\data".to_owned()))
            .expect("path")
            .starts_with(r"C:\data\")
    );
    assert!(default_config_path(None, None).is_err());
}

#[test]
fn generated_tokens_differ() {
    assert_ne!(config().bridge.ipc_token, config().bridge.ipc_token);
    assert!(
        config()
            .bridge
            .ipc_token
            .chars()
            .all(|c| c.is_ascii_hexdigit())
    );
}

#[test]
fn targets_show_where_they_are() {
    let local = AhpAuthorizedTarget::local(WORKSPACE.to_owned());
    assert_eq!(local.display_label(), "local");
    assert_eq!(local.display_workspace(), WORKSPACE);
    let remote = AhpAuthorizedTarget::Ssh {
        alias: "devbox".to_owned(),
        path: "/srv/work".to_owned(),
        user: "dev".to_owned(),
        host: "dev.example".to_owned(),
        port: 22,
        host_key_fingerprints: vec!["SHA256:a".to_owned()],
    };
    assert_eq!(remote.display_label(), "ssh:devbox");
    assert_eq!(remote.display_workspace(), "/srv/work");
    assert!(remote.matches(&remote.duplicate()));
    assert!(!remote.matches(&local));
}
