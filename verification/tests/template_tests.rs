use pulse_agent::config::{HeartbeatConfig, Monitor, MinecraftConfig, ServiceKind, service_kind};
use pulse_agent::heartbeat::{ChannelFollowUp, ChannelSendOutcome, DeliveryError, DeliveryPlan,
    HeartbeatMethod, after_channel_send, build_push_url, parse_method, plan_delivery};
use pulse_agent::metrics::{CheckResult, resolve_custom_placeholders};
use pulse_agent::numfmt::{format_ms_3, i64_to_string, is_number_str, trim_str, u64_to_string};
use pulse_agent::strings::replace_all;
use pulse_agent::template::apply_pairs;

fn bare_monitor(name: &str) -> Monitor {
    Monitor {
        enabled: true,
        interval: 30,
        name: name.to_string(),
        token: None,
        heartbeat: None,
        debug: None,
        http: None,
        ws: None,
        tcp: None,
        udp: None,
        icmp: None,
        smtp: None,
        imap: None,
        mysql: None,
        mssql: None,
        postgresql: None,
        redis: None,
        minecraft_java: None,
        minecraft_bedrock: None,
        snmp: None,
    }
}

fn result_with(entries: &[(&str, &str)]) -> CheckResult {
    let mut r = CheckResult::empty();
    for (k, v) in entries {
        r.insert(k.to_string(), v.to_string());
    }
    r
}

#[test]
fn decimal_rendering() {
    assert_eq!(u64_to_string(0), "0");
    assert_eq!(u64_to_string(12345), "12345");
    assert_eq!(i64_to_string(-42), "-42");
    assert_eq!(format_ms_3(12_345), "12.345");
    assert_eq!(format_ms_3(999), "0.999");
    assert_eq!(format_ms_3(30_000), "30.000");
}

#[test]
fn plain_number_grammar() {
    assert!(is_number_str("42"));
    assert!(is_number_str("-3.5"));
    assert!(is_number_str("+0.125"));
    // one-sided dots and exponents, as f64 parsing reads them
    assert!(is_number_str("4."));
    assert!(is_number_str(".5"));
    assert!(is_number_str("1e5"));
    assert!(is_number_str("2.5E+7"));
    assert!(is_number_str("-1.e-3"));
    assert!(!is_number_str(""));
    assert!(!is_number_str("."));
    assert!(!is_number_str("1.2.3"));
    assert!(!is_number_str("abc"));
    assert!(!is_number_str("e5"));
    assert!(!is_number_str("1e"));
    assert!(!is_number_str("1e+"));
    assert!(!is_number_str("1e5.2"));
    assert_eq!(trim_str("  42.5\t"), "42.5");
}

#[test]
fn replace_is_literal_and_non_overlapping() {
    assert_eq!(replace_all("a{x}b{x}", "{x}", "1"), "a1b1");
    assert_eq!(replace_all("no placeholder", "{x}", "1"), "no placeholder");
}

#[test]
fn expansion_with_same_inputs_twice_gives_the_same_string() {
    let subs = vec![
        ("{latency}".to_string(), "12.345".to_string()),
        ("{custom1}".to_string(), "7".to_string()),
    ];
    let once = apply_pairs("https://hb/{latency}?c={custom1}", &subs);
    let twice = apply_pairs(once.as_str(), &subs);
    assert_eq!(once, "https://hb/12.345?c=7");
    assert_eq!(twice, once);
}

#[test]
fn well_known_results_resolve_to_exactly_the_custom_slots() {
    let m = bare_monitor("m");
    let r = result_with(&[("latency", "3.000"), ("custom1", "5")]);
    let subs = resolve_custom_placeholders(&m, &r);
    assert_eq!(subs.len(), 3);
    assert_eq!(subs[0], ("{custom1}".to_string(), "5".to_string()));
    assert_eq!(subs[1], ("{custom2}".to_string(), "".to_string()));
    assert_eq!(subs[2], ("{custom3}".to_string(), "".to_string()));
}

#[test]
fn minecraft_monitors_also_expose_the_player_count() {
    let mut m = bare_monitor("mc");
    m.minecraft_java = Some(MinecraftConfig { host: "h".to_string(), port: None, timeout: None });
    assert!(matches!(service_kind(&m), Some(ServiceKind::MinecraftJava)));
    let r = result_with(&[("custom1", "17")]);
    let subs = resolve_custom_placeholders(&m, &r);
    assert_eq!(subs.len(), 4);
    // aliased to custom1 when not set explicitly
    assert_eq!(subs[3], ("{playerCount}".to_string(), "17".to_string()));
    let r2 = result_with(&[("custom1", "17"), ("playerCount", "20")]);
    let subs2 = resolve_custom_placeholders(&m, &r2);
    assert_eq!(subs2[3], ("{playerCount}".to_string(), "20".to_string()));
}

#[test]
fn other_metrics_become_their_own_placeholders() {
    let m = bare_monitor("m");
    let r = result_with(&[("btc", "32.543")]);
    let subs = resolve_custom_placeholders(&m, &r);
    assert_eq!(subs.len(), 4);
    assert_eq!(subs[3], ("{btc}".to_string(), "32.543".to_string()));
}

#[test]
fn monitor_without_a_section_is_a_no_op_probe() {
    let m = bare_monitor("m");
    assert!(service_kind(&m).is_none());
    let empty = CheckResult::empty();
    assert_eq!(empty.metrics.len(), 0);
}

#[test]
fn no_delivery_path_is_an_error() {
    let m = bare_monitor("m");
    let r = CheckResult::empty();
    let planned = plan_delivery(&m, None, false, "1.000", "S", "E", "0", "1", &r);
    assert!(matches!(planned, Err(DeliveryError::NoDeliveryPath)));
}

#[test]
fn custom_heartbeat_wins_and_is_templated() {
    let mut m = bare_monitor("m");
    m.heartbeat = Some(HeartbeatConfig {
        method: "get".to_string(),
        url: "http://hb/{latency}".to_string(),
        headers: Some(vec![("X-L".to_string(), "lat={latency}".to_string())]),
        timeout: None,
    });
    let r = CheckResult::empty();
    match plan_delivery(&m, None, false, "12.345", "S", "E", "0", "1", &r) {
        Ok(DeliveryPlan::CustomHttp { method, url, headers, timeout }) => {
            assert_eq!(method, HeartbeatMethod::Get);
            assert_eq!(url, "http://hb/12.345");
            assert_eq!(headers, vec![("X-L".to_string(), "lat=12.345".to_string())]);
            assert_eq!(timeout, 10);
        },
        _ => panic!("expected the custom heartbeat plan"),
    }
}

#[test]
fn unsupported_method_is_rejected() {
    assert!(matches!(parse_method("PUT"), Err(DeliveryError::UnsupportedMethod)));
    assert!(matches!(parse_method("post"), Ok(HeartbeatMethod::Post)));
    assert!(matches!(parse_method("Head"), Ok(HeartbeatMethod::Head)));
}

#[test]
fn server_http_fallback_url_is_exact() {
    let r = CheckResult::empty();
    let url = build_push_url("http://srv", "tok", "1.000", "S", "E", &r);
    assert_eq!(
        url,
        "http://srv/v1/push/tok?latency=1.000&startTime=S&endTime=E&custom1=&custom2=&custom3="
    );
}

#[test]
fn channel_with_token_is_preferred_and_builds_the_message() {
    let mut m = bare_monitor("m");
    m.token = Some("tok".to_string());
    let r = result_with(&[("custom1", "5")]);
    match plan_delivery(&m, None, true, "1.000", "S", "E", "0", "1", &r) {
        Ok(DeliveryPlan::Channel { message }) => {
            assert_eq!(message.token, "tok");
            assert_eq!(message.pulse_id, None);
            assert_eq!(message.latency.as_deref(), Some("1.000"));
            assert_eq!(message.custom1.as_deref(), Some("5"));
            assert_eq!(message.custom2, None);
        },
        _ => panic!("expected the channel plan"),
    }
}

#[test]
fn a_full_channel_drops_the_pulse_and_a_closed_one_falls_back() {
    let r = CheckResult::empty();
    let server = "http://srv".to_string();
    assert!(matches!(
        after_channel_send(ChannelSendOutcome::Full, Some(&server), "tok", "1.000", "S", "E", &r),
        ChannelFollowUp::DroppedOk
    ));
    match after_channel_send(ChannelSendOutcome::Closed, Some(&server), "tok", "1.000", "S", "E", &r)
    {
        ChannelFollowUp::FallbackHttp { url } => {
            assert!(url.starts_with("http://srv/v1/push/tok?"));
        },
        _ => panic!("a closed channel falls back to HTTP"),
    }
    assert!(matches!(
        after_channel_send(ChannelSendOutcome::Closed, None, "tok", "1.000", "S", "E", &r),
        ChannelFollowUp::NoPathLeft
    ));
}
