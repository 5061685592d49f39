use pulse_agent::clock::format_rfc3339_millis;
use pulse_agent::json::{JsonNode, coerce_numeric, extract_json_metrics, parse_json_text};
use pulse_agent::snmp::{SnmpAuthProtocol, SnmpParseError, SnmpPrivCipher, SnmpSecurityLevel,
    SnmpValue, SnmpVersion, format_addr, parse_auth_protocol, parse_oid, parse_priv_cipher,
    parse_security_level, parse_snmp_version, plan_custom_oids, value_to_metric};

#[test]
fn json_path_extraction_finds_nested_numbers() {
    let body = "{\"cryptocurrencies\":{\"BTC\":32.543}}";
    let paths = vec![("btc".to_string(), "cryptocurrencies.BTC".to_string())];
    let out = extract_json_metrics(body, &paths);
    assert_eq!(out, vec![("btc".to_string(), "32.543".to_string())]);
}

#[test]
fn json_path_extraction_walks_array_indexes() {
    let body = "{\"system\":{\"cpu\":[{\"percentage\":12.5},{\"percentage\":50}]}}";
    let paths = vec![("cpu".to_string(), "system.cpu.[0].percentage".to_string())];
    let out = extract_json_metrics(body, &paths);
    assert_eq!(out, vec![("cpu".to_string(), "12.5".to_string())]);
}

#[test]
fn json_string_exponents_coerce() {
    let body = "{\"x\":\" 1e3 \"}";
    let paths = vec![("x".to_string(), "x".to_string())];
    let out = extract_json_metrics(body, &paths);
    assert_eq!(out, vec![("x".to_string(), "1e3".to_string())]);
}

#[test]
fn json_extraction_coerces_strings_and_booleans() {
    let body = "{\"a\":\" 42.5 \",\"b\":true,\"c\":false,\"d\":\"nope\"}";
    let paths = vec![
        ("a".to_string(), "a".to_string()),
        ("b".to_string(), "b".to_string()),
        ("c".to_string(), "c".to_string()),
        ("d".to_string(), "d".to_string()),
    ];
    let out = extract_json_metrics(body, &paths);
    assert_eq!(
        out,
        vec![
            ("a".to_string(), "42.5".to_string()),
            ("b".to_string(), "1".to_string()),
            ("c".to_string(), "0".to_string()),
        ]
    );
}

#[test]
fn unparsable_bodies_yield_no_metrics() {
    let paths = vec![("a".to_string(), "a".to_string())];
    assert_eq!(extract_json_metrics("{{nope", &paths), Vec::new());
}

#[test]
fn parse_json_text_models_the_document() {
    match parse_json_text("{\"k\":[null,1]}") {
        Some(JsonNode::Obj(fields)) => {
            assert_eq!(fields.len(), 1);
            assert_eq!(fields[0].0, "k");
            match &fields[0].1 {
                JsonNode::Arr(items) => {
                    assert_eq!(items.len(), 2);
                    assert!(matches!(items[0], JsonNode::Null));
                    match &items[1] {
                        JsonNode::Num(s) => assert_eq!(s, "1"),
                        _ => panic!("a number was expected"),
                    }
                },
                _ => panic!("an array was expected"),
            }
        },
        _ => panic!("an object was expected"),
    }
    match coerce_numeric(&JsonNode::Str("  7 ".to_string())) {
        Some(v) => assert_eq!(v, "7"),
        None => panic!("a trimmed numeric string coerces"),
    }
}

#[test]
fn oid_parsing_accepts_dot_notation() {
    let v = parse_oid("1.3.6.1.2.1.1.3.0").expect("a plain OID parses");
    assert_eq!(v, vec![1, 3, 6, 1, 2, 1, 1, 3, 0]);
    let trimmed = parse_oid(".1.3.").expect("surrounding dots are ignored");
    assert_eq!(trimmed, vec![1, 3]);
    assert!(matches!(parse_oid("1..3"), Err(SnmpParseError::BadOid)));
    assert!(matches!(parse_oid("1.x.3"), Err(SnmpParseError::BadOid)));
    assert!(matches!(parse_oid(""), Err(SnmpParseError::BadOid)));
}

#[test]
fn custom_oid_plans_skip_malformed_entries() {
    let oids = vec![
        ("up".to_string(), "1.3.6.1".to_string()),
        ("bad".to_string(), "not-an-oid".to_string()),
    ];
    let plan = plan_custom_oids(&oids);
    assert_eq!(plan.len(), 1);
    assert_eq!(plan[0].0, "up");
    assert_eq!(plan[0].1, vec![1, 3, 6, 1]);
}

#[test]
fn target_addresses_bracket_bare_ipv6_hosts() {
    assert_eq!(format_addr("198.51.100.7", 161), "198.51.100.7:161");
    assert_eq!(format_addr("2001:db8::1", 161), "[2001:db8::1]:161");
    assert_eq!(format_addr("[2001:db8::1]", 161), "[2001:db8::1]:161");
}

#[test]
fn v3_option_names_parse_case_insensitively() {
    assert!(matches!(parse_auth_protocol("MD5"), Ok(SnmpAuthProtocol::Md5)));
    assert!(matches!(parse_auth_protocol("sha-256"), Ok(SnmpAuthProtocol::Sha256)));
    assert!(matches!(parse_auth_protocol("sha512"), Ok(SnmpAuthProtocol::Sha512)));
    assert!(matches!(
        parse_auth_protocol("rot13"),
        Err(SnmpParseError::BadAuthProtocol)
    ));
    assert!(matches!(parse_priv_cipher("AES"), Ok(SnmpPrivCipher::Aes128)));
    assert!(matches!(parse_priv_cipher("des"), Ok(SnmpPrivCipher::Des)));
    assert!(matches!(parse_priv_cipher("xor"), Err(SnmpParseError::BadPrivCipher)));
    assert!(matches!(
        parse_security_level("authPriv"),
        Ok(SnmpSecurityLevel::AuthPriv)
    ));
    assert!(matches!(
        parse_security_level("noAuthNoPriv"),
        Ok(SnmpSecurityLevel::NoAuthNoPriv)
    ));
    assert!(matches!(
        parse_security_level("open"),
        Err(SnmpParseError::BadSecurityLevel)
    ));
    assert!(matches!(parse_snmp_version("2c"), Ok(SnmpVersion::V2c)));
    assert!(matches!(parse_snmp_version("v3"), Ok(SnmpVersion::V3)));
    assert!(matches!(parse_snmp_version("4"), Err(SnmpParseError::BadVersion)));
}

#[test]
fn response_values_coerce_to_metrics() {
    assert_eq!(value_to_metric(&SnmpValue::IntVal(-5)).as_deref(), Some("-5"));
    assert_eq!(value_to_metric(&SnmpValue::Counter64(90_000)).as_deref(), Some("90000"));
    assert_eq!(
        value_to_metric(&SnmpValue::OctetString(" 42 ".to_string())).as_deref(),
        Some("42")
    );
    assert_eq!(
        value_to_metric(&SnmpValue::OctetString("1e5".to_string())).as_deref(),
        Some("1e5")
    );
    assert_eq!(
        value_to_metric(&SnmpValue::OctetString(".5".to_string())).as_deref(),
        Some(".5")
    );
    assert_eq!(value_to_metric(&SnmpValue::OctetString("n/a".to_string())), None);
    assert_eq!(value_to_metric(&SnmpValue::Other), None);
}

#[test]
fn rfc3339_rendering_of_the_epoch() {
    assert_eq!(
        format_rfc3339_millis(0).as_deref(),
        Some("1970-01-01T00:00:00.000Z")
    );
    assert_eq!(
        format_rfc3339_millis(1_700_000_000_123).as_deref(),
        Some("2023-11-14T22:13:20.123Z")
    );
}
