use tas_agent::ip::{parse_ip, IpAddr};
use tas_agent::san::{ensure_ascii, parse_san, to_general_names, GeneralName, SanEntry};

#[test]
fn parse_san_accepts_each_type() {
    assert_eq!(
        parse_san("DNS:web.example.com").unwrap(),
        SanEntry::Dns("web.example.com".to_string())
    );
    assert_eq!(
        parse_san("uri:spiffe://td/x").unwrap(),
        SanEntry::Uri("spiffe://td/x".to_string())
    );
    assert_eq!(
        parse_san("Email:a@example.com").unwrap(),
        SanEntry::Email("a@example.com".to_string())
    );
    assert_eq!(
        parse_san("IP:10.0.0.1").unwrap(),
        SanEntry::Ip("10.0.0.1".parse().unwrap())
    );
}

#[test]
fn parse_san_handles_ipv6_first_colon_split() {
    assert_eq!(
        parse_san("IP:2001:db8::1").unwrap(),
        SanEntry::Ip("2001:db8::1".parse().unwrap())
    );
}

#[test]
fn parse_san_rejects_bad_inputs() {
    assert!(parse_san("nocolon").is_err());
    assert!(parse_san("DNS:").is_err());
    assert!(parse_san("IP:not-an-ip").is_err());
    assert!(parse_san("FOO:bar").is_err());
    assert!(parse_san("DNS:has space").is_err());
}

#[test]
fn san_messages_name_the_fault() {
    assert_eq!(
        parse_san("nocolon").unwrap_err(),
        "invalid SAN \"nocolon\", expected TYPE:VALUE"
    );
    assert_eq!(
        parse_san("DNS: \t").unwrap_err(),
        "invalid SAN \"DNS: \\t\": empty value"
    );
    assert_eq!(
        parse_san("DNS:has space").unwrap_err(),
        "invalid SAN \"DNS:has space\": value must not contain whitespace"
    );
    assert_eq!(
        parse_san("IP:not-an-ip").unwrap_err(),
        "invalid IP in SAN \"IP:not-an-ip\": invalid IP address syntax"
    );
    assert_eq!(
        parse_san("FOO:bar").unwrap_err(),
        "unsupported SAN type \"foo\" (expected dns|ip|uri|email)"
    );
    assert_eq!(
        parse_san("dns:h\u{f6}st").unwrap_err(),
        "DNS SAN must be ASCII (IA5String): \"h\u{f6}st\""
    );
    assert_eq!(
        parse_san("URI:x\u{f6}").unwrap_err(),
        "URI SAN must be ASCII (IA5String): \"x\u{f6}\""
    );
    assert_eq!(
        parse_san("EMAIL:x\u{f6}").unwrap_err(),
        "email SAN must be ASCII (IA5String): \"x\u{f6}\""
    );
}

#[test]
fn san_faults_are_found_in_order() {
    assert_eq!(
        parse_san("FOO:").unwrap_err(),
        "invalid SAN \"FOO:\": empty value"
    );
    assert_eq!(
        parse_san("FOO:a b").unwrap_err(),
        "invalid SAN \"FOO:a b\": value must not contain whitespace"
    );
}

#[test]
fn san_is_trimmed_on_both_sides_of_the_colon() {
    assert_eq!(
        parse_san("  Dns \t: web.example.com \n").unwrap(),
        SanEntry::Dns("web.example.com".to_string())
    );
}

#[test]
fn san_type_is_the_same_in_any_case() {
    for kind in ["dns", "DNS", "Dns", "dNS"] {
        assert_eq!(
            parse_san(&format!("{kind}:h")).unwrap(),
            SanEntry::Dns("h".to_string())
        );
    }
    assert!(parse_san("d\u{212a}s:h").is_err());
}

#[test]
fn san_values_keep_their_colons_and_their_case() {
    assert_eq!(
        parse_san("URI:https://Example.com:8443/a:b").unwrap(),
        SanEntry::Uri("https://Example.com:8443/a:b".to_string())
    );
}

#[test]
fn written_san_reads_back() {
    for value in ["web.example.com", "a:b:c"] {
        assert_eq!(
            parse_san(&format!("DNS:{value}")).unwrap(),
            SanEntry::Dns(value.to_string())
        );
        assert_eq!(
            parse_san(&format!("URI:{value}")).unwrap(),
            SanEntry::Uri(value.to_string())
        );
        assert_eq!(
            parse_san(&format!("email:{value}")).unwrap(),
            SanEntry::Email(value.to_string())
        );
    }
}

#[test]
fn ascii_is_asked_for_by_label() {
    assert_eq!(ensure_ascii("plain", "DNS"), Ok(()));
    assert_eq!(
        ensure_ascii("\u{e9}\"", "X").unwrap_err(),
        "X SAN must be ASCII (IA5String): \"\u{e9}\\\"\""
    );
}

#[test]
fn addresses_are_read_in_all_their_forms() {
    for (text, octets) in [
        ("0.0.0.0", "00000000"),
        ("255.255.255.255", "ffffffff"),
        ("10.0.0.1", "0a000001"),
        ("::", "00000000000000000000000000000000"),
        ("::1", "00000000000000000000000000000001"),
        ("1::", "00010000000000000000000000000000"),
        ("2001:db8::1", "20010db8000000000000000000000001"),
        ("1:2:3:4:5:6:7:8", "00010002000300040005000600070008"),
        ("1:2:3:4:5:6:7::", "00010002000300040005000600070000"),
        ("::2:3:4:5:6:7:8", "00000002000300040005000600070008"),
        ("::ffff:10.0.0.1", "00000000000000000000ffff0a000001"),
        ("1:2:3:4:5:6:10.0.0.1", "0001000200030004000500060a000001"),
        ("ABCD:ef01::", "abcdef01000000000000000000000000"),
        ("::1.2.3.4", "00000000000000000000000001020304"),
        ("64:ff9b::192.0.2.33", "0064ff9b0000000000000000c0000221"),
        ("0000::0000", "00000000000000000000000000000000"),
        ("1::2:3:4:5:6:7", "00010000000200030004000500060007"),
    ] {
        assert_eq!(hex::encode(parse_ip(text).unwrap().octets()), octets, "{text}");
    }
}

#[test]
fn texts_that_are_no_addresses_are_refused() {
    for text in [
        "1.2.3.04",
        "01.2.3.4",
        "256.1.1.1",
        "1.2.3",
        "1.2.3.4.5",
        "1.2.3.4 ",
        "",
        "1:2:3:4:5:6:7",
        "1::2::3",
        ":::",
        "12345::",
        "1:2:3:4:5:6:7:10.0.0.1",
        "::10.0.0.256",
        "g::",
        "1:",
        ":1",
        "fe80::1%eth0",
        "[::1]",
        "1.2.3.4:80",
        "1:2:3:4:5:6:7:8:9",
        "1.2.3.4::",
        "00000::",
        "1:2:3:4:5:6:7:8::",
        "::1:2:3:4:5:6:7:8",
        "1:2:3::4:5:6:7:8",
        "+1.2.3.4",
        "1..2.3",
    ] {
        assert_eq!(parse_ip(text), None, "{text}");
    }
}

#[test]
fn addresses_have_their_octets_in_network_order() {
    assert_eq!(parse_ip("10.0.0.1"), Some(IpAddr::V4([10, 0, 0, 1])));
    assert_eq!(
        parse_ip("2001:db8::1"),
        Some(IpAddr::V6([
            0x20, 0x01, 0x0d, 0xb8, 0, 0, 0, 0, 0, 0, 0, 0, 0, 0, 0, 1
        ]))
    );
    assert!("x".parse::<IpAddr>().is_err());
}

#[test]
fn general_names_hold_the_octets_of_the_names() {
    let sans = vec![
        SanEntry::Dns("a.b".to_string()),
        SanEntry::Ip("10.0.0.1".parse().unwrap()),
        SanEntry::Uri("x:y".to_string()),
        SanEntry::Email("m@n".to_string()),
    ];
    let names = to_general_names(&sans).unwrap();
    assert!(matches!(&names[0], GeneralName::DnsName(v) if v == b"a.b"));
    assert!(matches!(&names[1], GeneralName::IpAddress(v) if v == &[10u8, 0, 0, 1]));
    assert!(matches!(&names[2], GeneralName::UniformResourceIdentifier(v) if v == b"x:y"));
    assert!(matches!(&names[3], GeneralName::Rfc822Name(v) if v == b"m@n"));
    assert_eq!(names.len(), 4);
}

#[test]
fn general_names_are_refused_beyond_ascii() {
    let sans = vec![
        SanEntry::Ip("::1".parse().unwrap()),
        SanEntry::Dns("h\u{f6}st".to_string()),
    ];
    assert_eq!(
        to_general_names(&sans).err().unwrap(),
        "malformed ASN.1 DER value for IA5String"
    );
}

#[test]
fn canonical_addresses_read_back() {
    for (text, octets) in [
        ("0.0.0.0", "00000000"),
        ("192.0.2.255", "c00002ff"),
        ("::", "00000000000000000000000000000000"),
        ("::1", "00000000000000000000000000000001"),
        ("1::", "00010000000000000000000000000000"),
        ("2001:db8::1", "20010db8000000000000000000000001"),
        ("2001:db8:0:1:1:1:1:1", "20010db8000000010001000100010001"),
        ("1:0:0:2::3", "00010000000000020000000000000003"),
        ("1::2:0:0:3:4", "00010000000000020000000000030004"),
        ("::ffff:10.0.0.1", "00000000000000000000ffff0a000001"),
        ("fedc:ba98:7654:3210:123:4567:89ab:cdef", "fedcba98765432100123456789abcdef"),
    ] {
        match parse_san(&format!("IP:{text}")).unwrap() {
            SanEntry::Ip(ip) => assert_eq!(hex::encode(ip.octets()), octets, "{text}"),
            _ => panic!("{text}"),
        }
    }
}
