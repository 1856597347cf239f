use std::path::PathBuf;

use tas_agent::san::SanEntry;
use tas_agent::settings::{
    plan_certify, CertifyArgs, CertifyConfig, CertifyMode, CertifyPlan, CertifySettings, Cli,
    Config,
};

fn text(s: &str) -> Option<String> {
    Some(s.to_string())
}

fn path(s: &str) -> Option<PathBuf> {
    Some(PathBuf::from(s))
}

fn service() -> Cli {
    Cli {
        server_uri: text("https://config.example"),
        policy_id: text("policy"),
        ..Default::default()
    }
}

fn args() -> CertifyArgs {
    CertifyArgs {
        renew: false,
        write_dir: path("/certs"),
        force: false,
        common_name: None,
        sans: Vec::new(),
    }
}

fn plan(args: &CertifyArgs, certify_config: CertifyConfig) -> Result<CertifyPlan, String> {
    let cfg = Config {
        certify_config,
        ..Default::default()
    };
    plan_certify(&service(), args, &cfg)
}

#[test]
fn certify_settings_cli_overrides_config() {
    let cli = Cli {
        server_uri: text("https://cli.example"),
        api_key: path("/cli/api-key"),
        policy_id: text("cli-policy"),
        cert_path: path("/cli/root.pem"),
        max_retries: Some(9),
        retry_min_backoff_secs: Some(4),
        retry_max_backoff_secs: Some(40),
        ..Default::default()
    };
    let cfg = Config {
        server_uri: text("https://config.example"),
        api_key: path("/config/api-key"),
        policy_id: text("config-policy"),
        cert_path: path("/config/root.pem"),
        max_retries: Some(2),
        retry_min_backoff_secs: Some(1),
        retry_max_backoff_secs: Some(10),
        ..Default::default()
    };

    let settings = CertifySettings::resolve(&cli, &cfg).ok().unwrap();

    assert_eq!(settings.server_uri, "https://cli.example");
    assert_eq!(settings.api_key_path, PathBuf::from("/cli/api-key"));
    assert_eq!(settings.policy_domain, "cli-policy");
    assert_eq!(settings.cert_path, PathBuf::from("/cli/root.pem"));
    assert_eq!(settings.retry_config.max_retries, 9);
    assert_eq!(settings.retry_config.min_backoff_secs, 4);
    assert_eq!(settings.retry_config.max_backoff_secs, 40);
}

#[test]
fn certify_settings_use_config_and_builtin_defaults() {
    let cli = Cli::default();
    let cfg = Config {
        server_uri: text("http://config.example"),
        policy_id: text("config-policy"),
        ..Default::default()
    };

    let settings = CertifySettings::resolve(&cli, &cfg).ok().unwrap();

    assert_eq!(settings.server_uri, "http://config.example");
    assert_eq!(
        settings.api_key_path,
        PathBuf::from("/etc/tas_agent/api-key")
    );
    assert_eq!(settings.policy_domain, "config-policy");
    assert_eq!(
        settings.cert_path,
        PathBuf::from("/etc/tas_agent/root_cert.pem")
    );
    assert_eq!(settings.retry_config.max_retries, 3);
    assert_eq!(settings.retry_config.min_backoff_secs, 1);
    assert_eq!(settings.retry_config.max_backoff_secs, 30);
}

#[test]
fn certify_settings_validate_required_values() {
    let missing_server = CertifySettings::resolve(&Cli::default(), &Config::default())
        .err()
        .unwrap();
    assert_eq!(missing_server.to_string(), "server URI is required");

    let malformed_server = CertifySettings::resolve(
        &Cli {
            server_uri: text("config.example"),
            policy_id: text("policy"),
            ..Default::default()
        },
        &Config::default(),
    )
    .err()
    .unwrap();
    assert!(malformed_server
        .to_string()
        .contains("server URI must start with http:// or https://"));

    let missing_policy = CertifySettings::resolve(
        &Cli {
            server_uri: text("https://config.example"),
            ..Default::default()
        },
        &Config::default(),
    )
    .err()
    .unwrap();
    assert_eq!(
        missing_policy.to_string(),
        "policy-domain is required for certify flow"
    );
}

#[test]
fn certify_settings_resolve_gpu_enablement() {
    for (cli_disabled, config_disabled, expected_enabled) in [
        (false, false, true),
        (true, false, false),
        (false, true, false),
        (true, true, false),
    ] {
        let cli = Cli {
            server_uri: text("https://config.example"),
            policy_id: text("policy"),
            no_gpu: cli_disabled,
            ..Default::default()
        };
        let cfg = Config {
            no_gpu: Some(config_disabled),
            ..Default::default()
        };

        let settings = CertifySettings::resolve(&cli, &cfg).ok().unwrap();

        assert_eq!(settings.gpu_enabled, expected_enabled);
    }
}

#[test]
fn gpus_are_attested_where_nothing_is_said() {
    let settings = CertifySettings::resolve(&service(), &Config::default())
        .ok()
        .unwrap();
    assert!(settings.gpu_enabled);
}

#[test]
fn malformed_server_is_quoted() {
    let cli = Cli {
        server_uri: text("ftp://\"x\""),
        ..Default::default()
    };
    assert_eq!(
        CertifySettings::resolve(&cli, &Config::default()).err().unwrap(),
        "server URI must start with http:// or https:// (got \"ftp://\\\"x\\\"\")"
    );
}

#[test]
fn domain_policy_goes_before_policy_id() {
    let cli = Cli {
        server_uri: text("https://s"),
        policy_id: text("cli-id"),
        ..Default::default()
    };
    let cfg = Config {
        domain_policy: text("config-domain"),
        policy_id: text("config-id"),
        ..Default::default()
    };
    let settings = CertifySettings::resolve(&cli, &cfg).ok().unwrap();
    assert_eq!(settings.policy_domain, "config-domain");
    assert_eq!(settings.policy_id, text("cli-id"));

    let cli = Cli {
        server_uri: text("https://s"),
        domain_policy: text("cli-domain"),
        ..Default::default()
    };
    let settings = CertifySettings::resolve(&cli, &cfg).ok().unwrap();
    assert_eq!(settings.policy_domain, "cli-domain");
    assert_eq!(settings.policy_id, text("config-id"));

    let settings = CertifySettings::resolve(&cli, &Config::default()).ok().unwrap();
    assert_eq!(settings.policy_domain, "cli-domain");
    assert_eq!(settings.policy_id, None);
}

#[test]
fn plan_needs_a_directory_first() {
    let none = CertifyArgs {
        write_dir: None,
        common_name: text("a=b"),
        ..args()
    };
    assert_eq!(
        plan_certify(&Cli::default(), &none, &Config::default())
            .err()
            .unwrap(),
        "--write-dir is required for the certify command"
    );
    let from_config = plan(
        &CertifyArgs {
            write_dir: None,
            ..args()
        },
        CertifyConfig {
            write_dir: path("/config"),
            ..Default::default()
        },
    );
    assert_eq!(from_config.ok().unwrap().write_dir, PathBuf::from("/config"));
    let from_flag = plan(
        &args(),
        CertifyConfig {
            write_dir: path("/config"),
            ..Default::default()
        },
    );
    assert_eq!(from_flag.ok().unwrap().write_dir, PathBuf::from("/certs"));
}

#[test]
fn plan_reports_names_before_settings() {
    let bad_cn = CertifyArgs {
        common_name: text("a=b"),
        ..args()
    };
    let bad_san = CertifyConfig {
        sans: Some(vec!["DNS:a".to_string(), "nocolon".to_string(), "x".to_string()]),
        ..Default::default()
    };
    let cfg = Config {
        certify_config: bad_san,
        ..Default::default()
    };
    assert_eq!(
        plan_certify(&Cli::default(), &bad_cn, &cfg).err().unwrap(),
        "invalid common name: common name contains forbidden character '='"
    );
    assert_eq!(
        plan_certify(&Cli::default(), &args(), &cfg).err().unwrap(),
        "invalid SAN in config: invalid SAN \"nocolon\", expected TYPE:VALUE"
    );
    assert_eq!(
        plan_certify(&Cli::default(), &args(), &Config::default())
            .err()
            .unwrap(),
        "server URI is required"
    );
}

#[test]
fn plan_takes_names_from_flags_before_config() {
    let config = || CertifyConfig {
        common_name: text("  config.name "),
        sans: Some(vec!["DNS:config".to_string(), "IP:10.0.0.1".to_string()]),
        ..Default::default()
    };
    let from_config = plan(&args(), config()).ok().unwrap();
    assert_eq!(from_config.common_name, text("config.name"));
    assert_eq!(
        from_config.sans,
        vec![
            SanEntry::Dns("config".to_string()),
            SanEntry::Ip("10.0.0.1".parse().unwrap())
        ]
    );

    let flags = CertifyArgs {
        common_name: text("flag.name"),
        sans: vec![SanEntry::Uri("x:y".to_string())],
        ..args()
    };
    let from_flags = plan(&flags, config()).ok().unwrap();
    assert_eq!(from_flags.common_name, text("flag.name"));
    assert_eq!(from_flags.sans, vec![SanEntry::Uri("x:y".to_string())]);

    let neither = plan(&args(), CertifyConfig::default()).ok().unwrap();
    assert_eq!(neither.common_name, None);
    assert!(neither.sans.is_empty());
}

#[test]
fn refused_config_names_do_not_matter_under_flags() {
    let flags = CertifyArgs {
        common_name: text("flag.name"),
        sans: vec![SanEntry::Dns("d".to_string())],
        ..args()
    };
    let config = CertifyConfig {
        common_name: text("a=b"),
        sans: Some(vec!["nocolon".to_string()]),
        ..Default::default()
    };
    assert!(plan(&flags, config).is_ok());
}

#[test]
fn plan_has_the_mode_of_the_flags() {
    let forced = || CertifyConfig {
        force: Some(true),
        ..Default::default()
    };
    let mode = |args: CertifyArgs, config| plan(&args, config).ok().unwrap().mode;
    assert_eq!(
        mode(args(), CertifyConfig::default()),
        CertifyMode::Fresh { force: false }
    );
    assert_eq!(mode(args(), forced()), CertifyMode::Fresh { force: true });
    assert_eq!(
        mode(CertifyArgs { force: true, ..args() }, CertifyConfig::default()),
        CertifyMode::Fresh { force: true }
    );
    assert_eq!(
        mode(
            CertifyArgs { renew: true, force: true, ..args() },
            forced()
        ),
        CertifyMode::Renew
    );
}

#[test]
fn names_are_the_same_for_first_certificate_and_renewal() {
    let config = || CertifyConfig {
        common_name: text("node.name"),
        sans: Some(vec!["DNS:node".to_string()]),
        ..Default::default()
    };
    let fresh = plan(&args(), config()).ok().unwrap();
    let renewal = plan(&CertifyArgs { renew: true, ..args() }, config())
        .ok()
        .unwrap();
    assert_eq!(fresh.common_name, renewal.common_name);
    assert_eq!(fresh.sans, renewal.sans);
}
