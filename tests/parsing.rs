use iptables_report::parser::{parse_port, split_key_value, trim_colon};
use iptables_report::text::{chars_of, split_words};
use iptables_report::{parse_line, parse_line_at, Timestamp};

const SAMPLE: &str = "2024-01-15T03:22:10.500+00:00 hostA kernel: INPUT: DROP_IPV4 IN=eth0 OUT= SRC=203.0.113.7 DST=10.0.0.5 PROTO=TCP SPT=4444 DPT=22";

fn fixed_now() -> Timestamp {
    Timestamp { seconds: 1_000, nanos: 0 }
}

#[test]
fn sample_line_is_parsed() {
    let r = parse_line(SAMPLE).expect("record");
    assert_eq!(r.source_address, "203.0.113.7");
    assert_eq!(r.destination_address, "10.0.0.5");
    assert_eq!(r.protocol, "TCP");
    assert_eq!(r.destination_port, Some(22));
    assert_eq!(r.outbound_interface, None);
    assert_eq!(r.chain, "INPUT");
    assert_eq!(r.action, "DENIED");
    assert_eq!(r.timestamp, Timestamp { seconds: 1_705_288_930, nanos: 500_000_000 });
    assert_eq!(r.timestamp.hour(), 3);
}

#[test]
fn timestamp_offset_is_converted_to_utc() {
    let line = SAMPLE.replace("+00:00", "+02:00");
    let r = parse_line_at(&line, fixed_now()).expect("record");
    assert_eq!(r.timestamp.seconds, 1_705_288_930 - 7_200);
    assert_eq!(r.timestamp.hour(), 1);
}

#[test]
fn unreadable_timestamp_falls_back_to_now() {
    let line = SAMPLE.replace("2024-01-15T03:22:10.500+00:00", "yesterday");
    let r = parse_line_at(&line, fixed_now()).expect("record");
    assert_eq!(r.timestamp, fixed_now());
    assert_eq!(r.source_address, "203.0.113.7");
}

#[test]
fn readable_timestamp_ignores_now() {
    let r = parse_line_at(SAMPLE, fixed_now()).expect("record");
    assert_ne!(r.timestamp, fixed_now());
}

#[test]
fn line_without_markers_is_skipped() {
    let no_kernel = SAMPLE.replace("kernel:", "systemd:");
    let no_drop = SAMPLE.replace("DROP_IPV4", "ACCEPT_IPV4");
    assert!(parse_line_at(&no_kernel, fixed_now()).is_none());
    assert!(parse_line_at(&no_drop, fixed_now()).is_none());
    assert!(parse_line_at("", fixed_now()).is_none());
}

#[test]
fn short_line_is_skipped() {
    let line = "kernel: DROP_IPV4 SRC=1.2.3.4 DST=5.6.7.8 PROTO=UDP";
    assert!(parse_line_at(line, fixed_now()).is_none());
}

#[test]
fn line_missing_required_field_is_skipped() {
    for key in ["SRC=203.0.113.7", "DST=10.0.0.5", "PROTO=TCP"] {
        let line = SAMPLE.replace(key, "X=1");
        assert!(parse_line_at(&line, fixed_now()).is_none(), "{}", key);
    }
    let empty_src = SAMPLE.replace("SRC=203.0.113.7", "SRC=");
    assert!(parse_line_at(&empty_src, fixed_now()).is_none());
}

#[test]
fn bad_port_keeps_the_record() {
    for bad in ["DPT=70000", "DPT=ssh", "DPT=", "DPT=-1", "DPT=+"] {
        let line = SAMPLE.replace("DPT=22", bad);
        let r = parse_line_at(&line, fixed_now()).expect("record");
        assert_eq!(r.destination_port, None, "{}", bad);
    }
}

#[test]
fn port_reading() {
    assert_eq!(parse_port(&"22".to_string()), Some(22));
    assert_eq!(parse_port(&"+443".to_string()), Some(443));
    assert_eq!(parse_port(&"0065535".to_string()), Some(65535));
    assert_eq!(parse_port(&"65536".to_string()), None);
    assert_eq!(parse_port(&"2a".to_string()), None);
}

#[test]
fn outbound_interface_when_present() {
    let line = SAMPLE.replace("OUT=", "OUT=eth1");
    let r = parse_line_at(&line, fixed_now()).expect("record");
    assert_eq!(r.outbound_interface, Some("eth1".to_string()));
}

#[test]
fn later_keys_override_earlier_ones() {
    let line = format!("{} SRC=198.51.100.1", SAMPLE);
    let r = parse_line_at(&line, fixed_now()).expect("record");
    assert_eq!(r.source_address, "198.51.100.1");
}

#[test]
fn chain_colon_is_stripped() {
    let line = SAMPLE.replace("INPUT:", "FORWARD");
    let r = parse_line_at(&line, fixed_now()).expect("record");
    assert_eq!(r.chain, "FORWARD");
    let doubled = SAMPLE.replace("INPUT:", "INPUT::");
    let r = parse_line_at(&doubled, fixed_now()).expect("record");
    assert_eq!(r.chain, "INPUT:");
    assert_eq!(trim_colon(&"OUT::".to_string()), "OUT:");
    assert_eq!(trim_colon(&"OUT".to_string()), "OUT");
    assert_eq!(trim_colon(&":".to_string()), "");
}

#[test]
fn key_value_splitting() {
    assert_eq!(
        split_key_value(&"SRC=1.2.3.4".to_string()),
        Some(("SRC".to_string(), "1.2.3.4".to_string()))
    );
    assert_eq!(
        split_key_value(&"a=b=c".to_string()),
        Some(("a".to_string(), "b".to_string()))
    );
    assert_eq!(split_key_value(&"OUT=".to_string()), Some(("OUT".to_string(), String::new())));
    assert_eq!(split_key_value(&"plain".to_string()), None);
}

#[test]
fn whitespace_splitting() {
    let s = "  a\tbb \u{3000}c\n";
    let words = split_words(s, &chars_of(s));
    assert_eq!(words, vec!["a".to_string(), "bb".to_string(), "c".to_string()]);
    let empty = split_words("   ", &chars_of("   "));
    assert!(empty.is_empty());
}

#[test]
fn hour_of_times_before_the_epoch() {
    assert_eq!(Timestamp { seconds: -1, nanos: 0 }.hour(), 23);
    assert_eq!(Timestamp { seconds: -86_400, nanos: 0 }.hour(), 0);
    assert_eq!(Timestamp { seconds: 86_399, nanos: 0 }.hour(), 23);
}
