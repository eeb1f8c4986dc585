use bondar::config::{AppPortValue, DevContainerConfig, ForwardPort, PortValue};
use bondar::json::Json;
use bondar::ports::{
    app_port_texts, attributes_entry, forward_port_texts, forward_port_to_string, is_ipv4,
    is_port_ignored, is_port_or_range, is_udp_port, port_value_to_string, publish_for,
    publish_port_arg, validate_port_spec,
};

fn json(text: &str) -> Json {
    Json::parse(text).unwrap()
}

#[test]
fn test_publish_port_arg_number() {
    assert_eq!(
        publish_port_arg("8080"),
        Some("0.0.0.0:8080:8080".to_string())
    );
}

#[test]
fn test_publish_port_arg_host_container() {
    assert_eq!(
        publish_port_arg("8080:80"),
        Some("0.0.0.0:8080:80".to_string())
    );
}

#[test]
fn test_publish_port_arg_ip() {
    assert_eq!(
        publish_port_arg("127.0.0.1:9090"),
        Some("127.0.0.1:9090:9090".to_string())
    );
}

#[test]
fn test_publish_port_arg_ip_host_container() {
    assert_eq!(
        publish_port_arg("127.0.0.1:8080:80"),
        Some("127.0.0.1:8080:80".to_string())
    );
}

#[test]
fn test_publish_port_arg_service_name() {
    assert_eq!(publish_port_arg("db:5432"), None);
    assert_eq!(publish_port_arg("not-a-port"), None);
}

#[test]
fn test_publish_port_arg_empty_or_invalid_container_port() {
    assert_eq!(publish_port_arg("8080:"), None);
    assert_eq!(publish_port_arg("8080:abc"), None);
    assert_eq!(publish_port_arg(":8080"), None);
}

#[test]
fn test_publish_port_arg_partial_ip_rejected() {
    // 3-octet "IP" is invalid; should not be treated as an IP
    assert_eq!(publish_port_arg("1.2.3:80"), None);
}

#[test]
fn test_is_ipv4() {
    assert!(is_ipv4("127.0.0.1"));
    assert!(is_ipv4("0.0.0.0"));
    assert!(!is_ipv4("1.2.3"));
    assert!(!is_ipv4("8080"));
    assert!(!is_ipv4("a.b.c.d"));
}

#[test]
fn test_is_ipv4_octet_range() {
    // Octets must be 0-255
    assert!(!is_ipv4("999.999.999.999"));
    assert!(!is_ipv4("256.0.0.1"));
    assert!(is_ipv4("255.255.255.255"));
}

#[test]
fn test_publish_port_arg_range() {
    assert_eq!(
        publish_port_arg("8080-8085"),
        Some("0.0.0.0:8080-8085:8080-8085".to_string())
    );
    assert_eq!(
        publish_port_arg("8080-8085:8080-8085"),
        Some("0.0.0.0:8080-8085:8080-8085".to_string())
    );
    assert_eq!(
        publish_port_arg("127.0.0.1:8080-8085"),
        Some("127.0.0.1:8080-8085:8080-8085".to_string())
    );
    // Host range with single container port
    assert_eq!(
        publish_port_arg("8080-8085:8080"),
        Some("0.0.0.0:8080-8085:8080".to_string())
    );
}

#[test]
fn test_is_port_or_range() {
    assert!(is_port_or_range("8080"));
    assert!(is_port_or_range("8080-8085"));
    assert!(is_port_or_range("0"));
    assert!(!is_port_or_range("8080-"));
    assert!(!is_port_or_range("-8080"));
    assert!(!is_port_or_range("abc"));
    assert!(!is_port_or_range("8080-8085-8090"));
}

#[test]
fn test_validate_port_spec() {
    assert!(validate_port_spec("8080").is_ok());
    assert!(validate_port_spec("8080-8085").is_ok());
    assert!(validate_port_spec("8080:80").is_ok());
    assert!(validate_port_spec("127.0.0.1:9090").is_ok());
    assert!(validate_port_spec("127.0.0.1:8080:80").is_ok());
    assert!(validate_port_spec("[::1]:8080").is_ok());
    assert!(validate_port_spec("[::1]:8080:80").is_ok());
    assert!(validate_port_spec("db:5432").is_ok());
    assert!(validate_port_spec("0:8080").is_ok());
    assert!(validate_port_spec("8080/udp").is_ok());
    assert!(validate_port_spec("8080-8085:8080-8085").is_ok());

    assert!(validate_port_spec("").is_err());
    assert!(validate_port_spec("0").is_err());
    assert!(validate_port_spec("65536").is_err());
    assert!(validate_port_spec("8080-").is_err());
    assert!(validate_port_spec("8080:abc").is_err());
    assert!(validate_port_spec("8080-8085-8090").is_err());
    assert!(validate_port_spec("[::1]").is_err());
    assert!(validate_port_spec("[::1]:0").is_err());
}

#[test]
fn test_validate_port_spec_host_side() {
    assert!(validate_port_spec("0:8080").is_ok());
    assert!(validate_port_spec("65535:65535").is_ok());
    // Host-side reversed range is rejected
    assert!(validate_port_spec("8085-8080:8080").is_err());
    // Host-side out-of-range is rejected
    assert!(validate_port_spec("70000:8080").is_err());
    // Service names pass
    assert!(validate_port_spec("db:5432").is_ok());
    // Three-part forms require an IPv4 bind address
    assert!(validate_port_spec("8080:80:90").is_err());
    assert!(validate_port_spec("localhost:8080:80").is_err());
    assert!(validate_port_spec("127.0.0.1:8080:80").is_ok());
    // IPv6 forms with stray colons are rejected
    assert!(validate_port_spec("[::1]:8080:").is_err());
    assert!(validate_port_spec("[::1]:8080:80:").is_err());
    assert!(validate_port_spec("[::1]").is_err());
}

#[test]
fn test_publish_ipv6_trailing_colon_rejected() {
    assert_eq!(publish_port_arg("[::1]:8080:"), None);
    assert_eq!(publish_port_arg("[::1]:8080:80:"), None);
}

#[test]
fn test_publish_ipv6_arg() {
    assert_eq!(
        publish_port_arg("[::1]:8080"),
        Some("[::1]:8080:8080".to_string())
    );
    assert_eq!(
        publish_port_arg("[::1]:8080:8080"),
        Some("[::1]:8080:8080".to_string())
    );
    assert_eq!(
        publish_port_arg("[2001:db8::1]:8080:80"),
        Some("[2001:db8::1]:8080:80".to_string())
    );
    assert_eq!(
        publish_port_arg("[::]:8080"),
        Some("[::]:8080:8080".to_string())
    );
    // Invalid forms
    assert_eq!(publish_port_arg("[::1]"), None);
    assert_eq!(publish_port_arg("[]:8080"), None);
    assert_eq!(publish_port_arg("[::1]:abc"), None);
    assert_eq!(publish_port_arg("[::1]:8080:abc"), None);
}

#[test]
fn test_publish_port_arg_zero() {
    // Container-side port 0 is rejected (docker would treat it as a random port)
    assert_eq!(publish_port_arg("0"), None);
    assert_eq!(publish_port_arg("0:0"), None);
    assert_eq!(publish_port_arg("8080:0"), None);
    // Host-side 0 selects a random host port
    assert_eq!(
        publish_port_arg("0:8080"),
        Some("0.0.0.0:0:8080".to_string())
    );
}

#[test]
fn test_publish_port_arg_udp_suffix() {
    assert_eq!(
        publish_port_arg("8080:8080/udp"),
        Some("0.0.0.0:8080:8080/udp".to_string())
    );
    assert_eq!(
        publish_port_arg("8080/udp"),
        Some("0.0.0.0:8080:8080/udp".to_string())
    );
    assert_eq!(
        publish_port_arg("127.0.0.1:9090/udp"),
        Some("127.0.0.1:9090:9090/udp".to_string())
    );
}

#[test]
fn test_attributes_entry_range_key() {
    let attrs = json(r#"{ "8080-8085": {"protocol": "udp"} }"#);
    let cfg = DevContainerConfig {
        ports_attributes: Some(attrs),
        ..Default::default()
    };
    // Port inside the range matches the range key
    assert!(is_udp_port(&cfg, "8082"));
    assert!(is_udp_port(&cfg, "8080"));
    assert!(is_udp_port(&cfg, "8085"));
    // Outside the range does not match
    assert!(!is_udp_port(&cfg, "8086"));
    assert!(!is_udp_port(&cfg, "8079"));
}

#[test]
fn test_is_port_ignored_range_key() {
    let attrs = json(r#"{ "9000-9010": {"onAutoForward": "ignore"} }"#);
    let cfg = DevContainerConfig {
        ports_attributes: Some(attrs),
        ..Default::default()
    };
    assert!(is_port_ignored(&cfg, "9005"));
    assert!(!is_port_ignored(&cfg, "9011"));
}

#[test]
fn test_is_udp_port() {
    let cfg = DevContainerConfig {
        ports_attributes: Some(json(r#"{ "3000": {"protocol": "udp"}, "8080": {"protocol": "tcp"} }"#)),
        ..Default::default()
    };
    assert!(is_udp_port(&cfg, "3000"));
    assert!(is_udp_port(&cfg, "127.0.0.1:3000"));
    assert!(!is_udp_port(&cfg, "8080"));
    assert!(!is_udp_port(&cfg, "9090"));
    let plain = DevContainerConfig::default();
    assert!(!is_udp_port(&plain, "3000"));
}

#[test]
fn test_is_udp_port_with_udp_suffix() {
    let cfg = DevContainerConfig {
        ports_attributes: Some(json(r#"{ "3000": {"protocol": "udp"} }"#)),
        ..Default::default()
    };
    // /udp suffix must still match the plain port key in attributes
    assert!(is_udp_port(&cfg, "3000/udp"));
    assert!(is_udp_port(&cfg, "127.0.0.1:3000/udp"));
}

#[test]
fn test_is_port_ignored() {
    let cfg = DevContainerConfig {
        ports_attributes: Some(json(r#"{ "3000": {"onAutoForward": "ignore"}, "8080": {"onAutoForward": "notify"} }"#)),
        ..Default::default()
    };
    assert!(is_port_ignored(&cfg, "3000"));
    assert!(is_port_ignored(&cfg, "127.0.0.1:3000"));
    assert!(!is_port_ignored(&cfg, "8080"));
    assert!(!is_port_ignored(&cfg, "9090"));
    assert!(!is_port_ignored(&DevContainerConfig::default(), "3000"));
}

#[test]
fn test_is_udp_port_other_attributes_fallback() {
    let cfg = DevContainerConfig {
        other_ports_attributes: Some(json(r#"{ "protocol": "udp" }"#)),
        ..Default::default()
    };
    assert!(is_udp_port(&cfg, "9090"));
    assert!(is_udp_port(&cfg, "127.0.0.1:9090"));
}

#[test]
fn test_is_port_ignored_other_attributes_fallback() {
    let cfg = DevContainerConfig {
        other_ports_attributes: Some(json(r#"{ "onAutoForward": "ignore" }"#)),
        ..Default::default()
    };
    assert!(is_port_ignored(&cfg, "9090"));
    assert!(!is_port_ignored(&DevContainerConfig::default(), "9090"));
}

#[test]
fn compose_test_port_value_to_string() {
    assert_eq!(port_value_to_string(&PortValue::Number(8080)), "8080");
    assert_eq!(
        port_value_to_string(&PortValue::Text("3000:3001".to_string())),
        "3000:3001"
    );
}

#[test]
fn docker_test_port_value_to_string() {
    assert_eq!(port_value_to_string(&PortValue::Number(8080)), "8080");
    assert_eq!(
        port_value_to_string(&PortValue::Text("db:5432".to_string())),
        "db:5432"
    );
}

#[test]
fn forward_ports_as_texts() {
    assert_eq!(forward_port_to_string(&ForwardPort::Number(0)), "0");
    let ports = vec![ForwardPort::Number(3000), ForwardPort::Text("db:5432".to_string())];
    assert_eq!(forward_port_texts(&ports).items, vec!["3000", "db:5432"]);
}

#[test]
fn app_ports_as_texts() {
    assert!(app_port_texts(&None).items.is_empty());
    let one = Some(AppPortValue::Single(PortValue::Number(80)));
    assert_eq!(app_port_texts(&one).items, vec!["80"]);
    let two = Some(AppPortValue::Multiple(vec![
        PortValue::Number(80),
        PortValue::Text("8080:80".to_string()),
    ]));
    assert_eq!(app_port_texts(&two).items, vec!["80", "8080:80"]);
}

#[test]
fn port_specification_errors() {
    let cases = [
        ("  ", "empty port specification"),
        ("[::1:8080", "unterminated IPv6 address"),
        ("[::1]8080", "invalid IPv6 port form"),
        ("[::1]:8080:", "invalid IPv6 port form"),
        ("localhost:8080:80", "'localhost' is not a valid IPv4 bind address"),
        ("1:2:3:4", "too many ':' in port specification"),
        ("8085-8080:8080", "host port range '8085-8080' is reversed"),
    ];
    for (spec, message) in cases {
        assert_eq!(validate_port_spec(spec), Err(message.to_string()), "{}", spec);
    }
}

#[test]
fn udp_suffix_stays() {
    for spec in ["8080", "8080:80", "127.0.0.1:9090", "[::1]:8080", "8080-8085"] {
        let plain = publish_port_arg(spec).unwrap();
        let udp = publish_port_arg(&format!("{spec}/udp")).unwrap();
        assert_eq!(udp, format!("{plain}/udp"));
    }
    assert_eq!(publish_port_arg("db:5432/udp"), None);
}

#[test]
fn udp_is_added_for_attributes() {
    let cfg = DevContainerConfig {
        ports_attributes: Some(json(r#"{"3000": {"protocol": "udp"}}"#)),
        ..Default::default()
    };
    assert_eq!(publish_for(&cfg, "3000"), Some("0.0.0.0:3000:3000/udp".to_string()));
    assert_eq!(publish_for(&cfg, "3000/udp"), Some("0.0.0.0:3000:3000/udp".to_string()));
    assert_eq!(publish_for(&cfg, "3001"), Some("0.0.0.0:3001:3001".to_string()));
}

#[test]
fn attributes_of_a_port_before_those_of_a_range() {
    let attrs = json(r#"{"8080-8085": {"label": "range"}, "8082": {"label": "port"}}"#);
    let label = |port: &str| attributes_entry(&attrs, port).unwrap().get("label").unwrap().plain();
    assert_eq!(label("8082"), "port");
    assert_eq!(label("8083"), "range");
    assert!(attributes_entry(&attrs, "9000").is_none());
}

#[test]
fn zero_in_brackets() {
    assert!(validate_port_spec("[::1]:0:8080").is_ok());
    assert!(validate_port_spec("[::1]:0").is_err());
    assert!(validate_port_spec("[::1]:8080:0").is_err());
    assert!(validate_port_spec("[::1]:abc:80").is_err());
    assert_eq!(
        validate_port_spec("[::1]:90-80:80"),
        Err("port range '90-80' is reversed".to_string())
    );
    assert_eq!(publish_port_arg("[::1]:8080:0"), None);
    assert_eq!(publish_port_arg("[::1]:0"), None);
    assert_eq!(publish_port_arg("[::1]:0:8080"), Some("[::1]:0:8080".to_string()));
}

#[test]
fn zero_in_the_container() {
    for spec in ["00", "+0", "0-5", "8080:00", "8080:+0", "8080:0-5", "127.0.0.1:8080:00"] {
        assert_eq!(publish_port_arg(spec), None);
    }
}

#[test]
fn published_ports_stay() {
    for spec in ["80", "8080:80", "127.0.0.1:80", "127.0.0.1:1:2", "[::1]:80/udp", "1-2", "[a]x:5"] {
        let published = publish_port_arg(spec).unwrap();
        assert_eq!(publish_port_arg(&published), Some(published.clone()));
    }
}
