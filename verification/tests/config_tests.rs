use kukri::config::{
    parse_ipv4_cidr, parse_ipv6_address, parse_ipv6_cidr, parse_mac_address, ACLConfig, Engress,
    EngressIPv4Rules, EngressIPv6Rules, EngressMacRules, EngressPortRules, Ingress,
    IngressIPv4Rules, IngressIPv6Rules, IngressMacRules, IngressPortRules, Interfaces, Range,
    RateLimitRules,
};

fn sample_config() -> ACLConfig {
    ACLConfig {
        ingress: Ingress {
            enable_rules: false,
            tcp_rules: IngressPortRules {
                enable_port_rules: false,
                blocked_source_ranges: vec![],
                blocked_source_ports: vec![22],
            },
            udp_rules: IngressPortRules {
                enable_port_rules: false,
                blocked_source_ranges: vec![],
                blocked_source_ports: vec![],
            },
            ipv4_rules: IngressIPv4Rules {
                enable_ip_rules: false,
                disable_loopback: true,
                blocked_source_ranges: vec!["10.0.0.0/8".to_string()],
                blocked_source_ips: vec![],
            },
            ipv6_rules: IngressIPv6Rules::default(),
            mac_rules: IngressMacRules { enable_mac_rules: false, blocked_source_macs: vec![] },
            rate_limit: RateLimitRules::default(),
        },
        engress: Engress {
            enable_rules: false,
            tcp_rules: EngressPortRules {
                enable_port_rules: false,
                blocked_destination_ranges: vec![],
                blocked_destination_ports: vec![],
            },
            udp_rules: EngressPortRules {
                enable_port_rules: false,
                blocked_destination_ranges: vec![],
                blocked_destination_ports: vec![],
            },
            ipv4_rules: EngressIPv4Rules {
                enable_ip_rules: false,
                disable_loopback: false,
                blocked_destination_ranges: vec![],
                blocked_destination_ips: vec![],
            },
            ipv6_rules: EngressIPv6Rules::default(),
            mac_rules: EngressMacRules { enable_mac_rules: false, blocked_destination_macs: vec![] },
            rate_limit: RateLimitRules::default(),
        },
        interfaces: Interfaces { names: vec!["eth0".to_string()] },
    }
}

#[test]
fn parse_ipv4_cidr_valid() {
    assert_eq!(parse_ipv4_cidr("10.0.0.0/8").unwrap(), ([10, 0, 0, 0], 8));
    assert_eq!(parse_ipv4_cidr("192.168.1.0/24").unwrap(), ([192, 168, 1, 0], 24));
    assert_eq!(parse_ipv4_cidr("255.255.255.255/32").unwrap(), ([255, 255, 255, 255], 32));
    assert_eq!(parse_ipv4_cidr("0.0.0.0/0").unwrap(), ([0, 0, 0, 0], 0));
}

#[test]
fn parse_ipv4_cidr_invalid() {
    assert!(parse_ipv4_cidr("192.168.1.1/33").is_err(), "prefix over 32 must be rejected");
    assert!(parse_ipv4_cidr("192.168.1.1").is_err(), "missing slash must be rejected");
    assert!(parse_ipv4_cidr("10.0.0.0/abc").is_err(), "non-numeric prefix must be rejected");
    assert!(parse_ipv4_cidr("not-an-ip/24").is_err(), "garbage address must be rejected");
}

#[test]
fn parse_ipv6_cidr_valid() {
    let mut doc = [0u8; 16];
    doc[0] = 0x20;
    doc[1] = 0x01;
    doc[2] = 0x0d;
    doc[3] = 0xb8;
    assert_eq!(parse_ipv6_cidr("2001:db8::/32").unwrap(), (doc, 32));
    let mut link = [0u8; 16];
    link[0] = 0xfe;
    link[1] = 0x80;
    assert_eq!(parse_ipv6_cidr("fe80::/64").unwrap(), (link, 64));
    let mut localhost = [0u8; 16];
    localhost[15] = 1;
    assert_eq!(parse_ipv6_cidr("::1/128").unwrap(), (localhost, 128));
    assert_eq!(parse_ipv6_cidr("::/0").unwrap(), ([0u8; 16], 0));
}

#[test]
fn parse_ipv6_cidr_invalid() {
    assert!(parse_ipv6_cidr("::1/129").is_err(), "prefix over 128 must be rejected");
    assert!(parse_ipv6_cidr("::1").is_err(), "missing slash must be rejected");
    assert!(parse_ipv6_cidr("::/abc").is_err(), "non-numeric prefix must be rejected");
    assert!(parse_ipv6_cidr("not-an-ip/64").is_err(), "garbage address must be rejected");
}

#[test]
fn ipv6_rules_default_and_validate() {
    let mut config = sample_config();
    assert!(!config.ingress.ipv6_rules.enable_ip_rules);
    assert!(config.engress.ipv6_rules.blocked_destination_ips.is_empty());
    config.ingress.ipv6_rules.blocked_source_ips.push("bad-ip".into());
    config.engress.ipv6_rules.blocked_destination_ranges.push("::/129".into());
    let err = config.validate(&vec![2]).unwrap_err();
    assert!(err.contains("ingress.ipv6_rules: blocked IP"));
    assert!(err.contains("engress.ipv6_rules: blocked range"));
}

#[test]
fn parse_mac_address_valid() {
    assert_eq!(parse_mac_address("aa:bb:cc:dd:ee:ff").unwrap(), [0xaa, 0xbb, 0xcc, 0xdd, 0xee, 0xff]);
    assert_eq!(parse_mac_address("00:00:00:00:00:00").unwrap(), [0u8; 6]);
    assert_eq!(parse_mac_address("FF:FF:FF:FF:FF:FF").unwrap(), [0xff; 6]);
}

#[test]
fn parse_mac_address_invalid() {
    assert!(parse_mac_address("aa:bb:cc:dd:ee").is_err(), "too few octets must be rejected");
    assert!(parse_mac_address("aa:bb:cc:dd:ee:ff:00").is_err(), "too many octets must be rejected");
    assert!(parse_mac_address("aa:bb:cc:dd:ee:zz").is_err(), "non-hex byte must be rejected");
    assert!(parse_mac_address("aabbccddeeff").is_err(), "missing colons must be rejected");
}

#[test]
fn validate_accepts_a_clean_config() {
    assert_eq!(sample_config().validate(&vec![2]), Ok(()));
}

#[test]
fn validate_collects_every_problem_in_order() {
    let mut config = sample_config();
    config.ingress.tcp_rules.blocked_source_ranges.push(Range { start: 9, end: 3 });
    config.ingress.ipv4_rules.blocked_source_ranges.push("10.0.0.0/40".to_string());
    config.engress.mac_rules.blocked_destination_macs.push("aa:bb".to_string());
    config.interfaces.names.push(String::new());
    let err = config.validate(&vec![2, 0]).unwrap_err();
    assert_eq!(
        err,
        "invalid config:\n  ingress.tcp_rules: blocked range 9..=3 has start > end\n  \
         ingress.ipv4_rules: blocked range \"10.0.0.0/40\" has a prefix out of range (0-32): 40\n  \
         engress.mac_rules: blocked MAC \"aa:bb\" is not in the form \"aa:bb:cc:dd:ee:ff\"\n  \
         interfaces: contains an empty interface name"
    );
}

#[test]
fn validate_reports_unknown_interfaces() {
    let config = sample_config();
    assert_eq!(
        config.validate(&vec![0]),
        Err("invalid config:\n  interfaces: no such network interface \"eth0\"".to_string())
    );
}

#[test]
fn parse_ipv4_cidr_error_messages() {
    assert_eq!(parse_ipv4_cidr("1.2.3.4").unwrap_err(), "is not in CIDR form \"a.b.c.d/prefix\"");
    assert_eq!(parse_ipv4_cidr("1.2.3/8").unwrap_err(), "has an invalid address \"1.2.3\"");
    assert_eq!(parse_ipv4_cidr("1.2.3.4/x").unwrap_err(), "has a non-numeric prefix \"x\"");
    assert_eq!(parse_ipv4_cidr("1.2.3.4/33").unwrap_err(), "has a prefix out of range (0-32): 33");
}

#[test]
fn parse_ipv6_address_uses_std_parser() {
    let mut doc = [0u8; 16];
    doc[0] = 0x20;
    doc[1] = 0x01;
    doc[2] = 0x0d;
    doc[3] = 0xb8;
    doc[15] = 0x01;
    assert_eq!(parse_ipv6_address("2001:db8::1"), Ok(doc));
    assert_eq!(
        parse_ipv6_address("bad-ip"),
        Err("\"bad-ip\" is not a valid IPv6 address".to_string())
    );
}

#[test]
fn validate_rejects_interface_names_with_nul() {
    let mut config = sample_config();
    config.interfaces.names = vec!["et\0h".to_string()];
    assert_eq!(
        config.validate(&vec![0]),
        Err("invalid config:\n  interfaces: \"et\0h\" contains a NUL byte".to_string())
    );
}

#[test]
fn parse_ipv6_cidr_error_messages() {
    assert_eq!(parse_ipv6_cidr("::1").unwrap_err(), "is not in CIDR form \"ipv6-address/prefix\"");
    assert_eq!(parse_ipv6_cidr("zz/8").unwrap_err(), "has an invalid address \"zz\"");
    assert_eq!(parse_ipv6_cidr("::/129").unwrap_err(), "has a prefix out of range (0-128): 129");
    assert_eq!(parse_mac_address("aa:bb:cc:dd:ee:zz").unwrap_err(), "has an invalid byte \"zz\"");
}

#[test]
fn formatted_mac_parses_back() {
    for b in [[0u8, 1, 2, 3, 4, 5], [0xde, 0xad, 0xbe, 0xef, 0x0a, 0xff], [0xff; 6]] {
        let lower = format!("{:02x}:{:02x}:{:02x}:{:02x}:{:02x}:{:02x}", b[0], b[1], b[2], b[3], b[4], b[5]);
        let upper = format!("{:02X}:{:02X}:{:02X}:{:02X}:{:02X}:{:02X}", b[0], b[1], b[2], b[3], b[4], b[5]);
        assert_eq!(parse_mac_address(&lower), Ok(b));
        assert_eq!(parse_mac_address(&upper), Ok(b));
    }
}

#[test]
fn validate_reports_one_line_per_invalid_item() {
    let mut config = sample_config();
    config.ingress.tcp_rules.blocked_source_ranges.push(Range { start: 9, end: 1 });
    config.ingress.tcp_rules.blocked_source_ranges.push(Range { start: 1, end: 9 });
    config.engress.mac_rules.blocked_destination_macs.push("zz".to_string());
    config.engress.mac_rules.blocked_destination_macs.push("aa:bb:cc:dd:ee:ff".to_string());
    config.interfaces.names.push(String::new());
    let indices = vec![1u32; config.interfaces.names.len()];
    let message = config.validate(&indices).unwrap_err();
    let lines: Vec<&str> = message.lines().collect();
    assert_eq!(lines[0], "invalid config:");
    assert_eq!(lines.len(), 4);
    assert!(lines[1].starts_with("  ingress.tcp_rules: blocked range 9..=1"));
    assert!(lines[2].starts_with("  engress.mac_rules: blocked MAC \"zz\""));
    assert_eq!(lines[3], "  interfaces: contains an empty interface name");
}
