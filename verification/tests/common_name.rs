use tas_agent::common_name::{
    generate_tee_common_name, generate_tee_common_name_from_fqdn,
    generate_tee_common_name_from_hostname, generate_tee_common_name_from_system_hostname,
    generate_tee_common_name_with, parse_common_name, sanitize_fqdn_component,
    sanitize_hostname_component,
};
use uuid::Uuid;

fn sample_uuid() -> u128 {
    Uuid::parse_str("3f2a9c14-8b7d-4e21-a9f0-1c2d3e4f5a6b")
        .unwrap()
        .as_u128()
}

#[test]
fn sanitizes_hostname_component() {
    assert_eq!(sanitize_hostname_component("CVM_Prod.01"), "cvm-prod-01");
    assert_eq!(sanitize_hostname_component("---bad///name---"), "bad-name");
    assert_eq!(sanitize_hostname_component(""), "");
}

#[test]
fn sanitizes_fqdn_component() {
    assert_eq!(
        sanitize_fqdn_component("Node1.Dev_Prod.Example.Com"),
        "node1.dev-prod.example.com"
    );
    assert_eq!(sanitize_fqdn_component("...bad///name..."), "bad-name");
}

#[test]
fn generated_common_name_uses_fqdn_when_available() {
    let uuid = Uuid::parse_str("3f2a9c14-8b7d-4e21-a9f0-1c2d3e4f5a6b")
        .unwrap()
        .as_u128();
    let cn = generate_tee_common_name_from_fqdn(Some("node1.dev.example.com"), uuid);
    assert_eq!(cn, "tee.node1.dev.example.com-3f2a9c148b7d");
}

#[test]
fn generated_common_name_uses_current_scheme_when_not_fqdn() {
    let uuid = Uuid::parse_str("3f2a9c14-8b7d-4e21-a9f0-1c2d3e4f5a6b")
        .unwrap()
        .as_u128();
    let cn = generate_tee_common_name_from_hostname(Some("CVM_Prod.01"), uuid);
    assert_eq!(cn, "tas.cvm-prod-01-3f2a9c148b7d");
}

#[test]
fn system_hostname_selects_fqdn_or_short_hostname_format() {
    let uuid = Uuid::parse_str("3f2a9c14-8b7d-4e21-a9f0-1c2d3e4f5a6b")
        .unwrap()
        .as_u128();

    assert_eq!(
        generate_tee_common_name_from_system_hostname(Some("node1.example.com"), uuid),
        "tee.node1.example.com-3f2a9c148b7d"
    );
    assert_eq!(
        generate_tee_common_name_from_system_hostname(Some("node1"), uuid),
        "tas.node1-3f2a9c148b7d"
    );
}

#[test]
fn system_hostname_falls_back_to_unknown() {
    let uuid = Uuid::parse_str("3f2a9c14-8b7d-4e21-a9f0-1c2d3e4f5a6b")
        .unwrap()
        .as_u128();

    assert_eq!(
        generate_tee_common_name_from_system_hostname(None, uuid),
        "tas.unknown-3f2a9c148b7d"
    );
    assert_eq!(
        generate_tee_common_name_from_system_hostname(Some(""), uuid),
        "tas.unknown-3f2a9c148b7d"
    );
}

#[test]
fn generated_common_name_falls_back_to_unknown() {
    let uuid = Uuid::parse_str("3f2a9c14-8b7d-4e21-a9f0-1c2d3e4f5a6b")
        .unwrap()
        .as_u128();
    let cn = generate_tee_common_name_from_hostname(Some("////"), uuid);
    assert_eq!(cn, "tas.unknown-3f2a9c148b7d");
}

#[test]
fn generated_common_names_have_distinct_suffixes() {
    let first = generate_tee_common_name();
    let second = generate_tee_common_name();
    assert_ne!(first, second);
    assert!(first.starts_with("tee.") || first.starts_with("tas."));
    assert!(second.starts_with("tee.") || second.starts_with("tas."));
}

#[test]
fn parse_common_name_validates() {
    assert_eq!(parse_common_name("  tee.node  ").unwrap(), "tee.node");
    assert!(parse_common_name("").is_err());
    assert!(parse_common_name("evil,O=other").is_err());
    assert!(parse_common_name("a=b").is_err());
    assert!(parse_common_name(&"x".repeat(65)).is_err());
}

#[test]
fn common_name_messages_name_the_fault() {
    assert_eq!(
        parse_common_name(" \t\u{a0} ").unwrap_err(),
        "common name must not be empty"
    );
    assert_eq!(
        parse_common_name(&"x".repeat(65)).unwrap_err(),
        "common name exceeds 64 characters"
    );
    assert_eq!(
        parse_common_name("evil,O=other").unwrap_err(),
        "common name contains forbidden character ','"
    );
    assert_eq!(
        parse_common_name("a\u{7}b").unwrap_err(),
        "common name contains forbidden character '\\u{7}'"
    );
    assert_eq!(
        parse_common_name("a\\b").unwrap_err(),
        "common name contains forbidden character '\\\\'"
    );
    for c in [',', '+', '=', '"', '\\', '<', '>', ';', '#', '\u{0}', '\u{85}'] {
        assert!(parse_common_name(&format!("a{c}b")).is_err());
    }
}

#[test]
fn common_name_length_counts_characters() {
    let longest = "\u{e9}".repeat(64);
    assert_eq!(parse_common_name(&longest).unwrap(), longest);
    assert!(parse_common_name(&"\u{e9}".repeat(65)).is_err());
    assert_eq!(parse_common_name("my node").unwrap(), "my node");
}

#[test]
fn accepted_common_name_is_accepted_again() {
    let once = parse_common_name("  tee.node 7 ").unwrap();
    assert_eq!(parse_common_name(&once).unwrap(), once);
}

#[test]
fn sanitizing_cuts_at_the_limit_and_drops_separators_behind() {
    assert_eq!(sanitize_hostname_component(&"a".repeat(40)), "a".repeat(32));
    let cut = format!("{}-{}", "a".repeat(31), "b");
    assert_eq!(sanitize_hostname_component(&cut), "a".repeat(31));
    assert_eq!(sanitize_fqdn_component(&"a".repeat(60)), "a".repeat(47));
    let cut = format!("{}.{}", "a".repeat(46), "b");
    assert_eq!(sanitize_fqdn_component(&cut), "a".repeat(46));
}

#[test]
fn sanitizing_lowers_letters_beyond_ascii() {
    assert_eq!(sanitize_hostname_component("K\u{130}x"), "ki-x");
    assert_eq!(sanitize_hostname_component("a\u{c9}b"), "a-b");
    assert_eq!(sanitize_fqdn_component("\u{212a}elvin.Host"), "kelvin.host");
}

#[test]
fn sanitizing_twice_changes_nothing() {
    for name in ["Node1.Dev_Prod.Example.Com", "--x..y--", "CVM_Prod.01"] {
        let host = sanitize_hostname_component(name);
        assert_eq!(sanitize_hostname_component(&host), host);
        let fqdn = sanitize_fqdn_component(name);
        assert_eq!(sanitize_fqdn_component(&fqdn), fqdn);
    }
}

#[test]
fn reported_hostname_is_trimmed() {
    let uuid = sample_uuid();
    assert_eq!(
        generate_tee_common_name_with(Some("  node1.example.com\n"), uuid),
        "tee.node1.example.com-3f2a9c148b7d"
    );
    assert_eq!(
        generate_tee_common_name_with(Some(" \n"), uuid),
        "tas.unknown-3f2a9c148b7d"
    );
    assert_eq!(
        generate_tee_common_name_with(None, uuid),
        "tas.unknown-3f2a9c148b7d"
    );
}

#[test]
fn dotted_hostname_without_labels_is_unknown() {
    assert_eq!(
        generate_tee_common_name_from_system_hostname(Some("..."), sample_uuid()),
        "tee.unknown-3f2a9c148b7d"
    );
}

#[test]
fn generated_common_names_are_valid() {
    let long = format!("{}.example.com", "n".repeat(80));
    for host in [None, Some("node1"), Some("node1.example.com"), Some(long.as_str())] {
        let cn = generate_tee_common_name_from_system_hostname(host, sample_uuid());
        assert_eq!(parse_common_name(&cn).unwrap(), cn);
    }
    let cn = generate_tee_common_name();
    assert_eq!(parse_common_name(&cn).unwrap(), cn);
}

#[test]
fn suffix_is_the_upper_half_of_the_uuid() {
    assert_eq!(
        generate_tee_common_name_from_hostname(Some("n"), 0),
        "tas.n-000000000000"
    );
    assert_eq!(
        generate_tee_common_name_from_hostname(Some("n"), u128::MAX),
        "tas.n-ffffffffffff"
    );
    assert_ne!(
        generate_tee_common_name_from_hostname(Some("n"), 1 << 80),
        generate_tee_common_name_from_hostname(Some("n"), 2 << 80)
    );
}

#[test]
fn random_suffix_is_that_of_version_four() {
    let cn = generate_tee_common_name();
    let suffix = &cn[cn.len() - 12..];
    assert!(suffix.chars().all(|c| c.is_ascii_digit() || ('a'..='f').contains(&c)));
    assert!(cn[..cn.len() - 12].ends_with('-'));
}

#[test]
fn case_of_ascii_letters_does_not_matter() {
    for name in ["Node1.Dev_Prod", "\u{c9}COLE.x", "K\u{130}x.\u{df}Y", "\u{212a}a-B"] {
        let upper = name.to_ascii_uppercase();
        let lower = name.to_ascii_lowercase();
        assert_eq!(sanitize_fqdn_component(&upper), sanitize_fqdn_component(&lower));
        assert_eq!(
            sanitize_hostname_component(&upper),
            sanitize_hostname_component(&lower)
        );
    }
    assert_eq!(sanitize_fqdn_component("\u{c9}COLE.X"), "cole.x");
}
