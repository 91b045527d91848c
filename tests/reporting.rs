use iptables_report::{analyze, parse_line_at, render_text, report_lines, DenialRecord, Format, Timestamp};

const SAMPLE: &str = "2024-01-15T03:22:10.500+00:00 hostA kernel: INPUT: DROP_IPV4 IN=eth0 OUT= SRC=203.0.113.7 DST=10.0.0.5 PROTO=TCP SPT=4444 DPT=22";

fn record(dst: &str, proto: &str, port: Option<u16>, hour: i64) -> DenialRecord {
    DenialRecord {
        timestamp: Timestamp { seconds: 1_705_276_800 + hour * 3_600, nanos: 0 },
        source_address: "192.0.2.1".to_string(),
        destination_address: dst.to_string(),
        destination_port: port,
        protocol: proto.to_string(),
        outbound_interface: None,
        chain: "INPUT".to_string(),
        action: "DENIED".to_string(),
    }
}

fn sample_report() -> iptables_report::AnalysisReport {
    let r = parse_line_at(SAMPLE, Timestamp { seconds: 0, nanos: 0 }).expect("record");
    analyze(vec![r])
}

#[test]
fn sample_analysis() {
    let report = sample_report();
    assert_eq!(report.total_count, 1);
    assert_eq!(report.hourly_distribution, vec![(3, 1)]);
    assert_eq!(report.port_distribution, vec![(22, 1)]);
    assert_eq!(report.top_destinations, vec![("10.0.0.5".to_string(), 1)]);
    assert_eq!(report.records.len(), 1);
    assert_eq!(report.records[0].destination_address, "10.0.0.5");
}

#[test]
fn empty_analysis() {
    let report = analyze(Vec::new());
    assert_eq!(report.total_count, 0);
    assert!(report.top_destinations.is_empty());
    assert!(report.protocol_distribution.is_empty());
    assert!(report.port_distribution.is_empty());
    assert!(report.chain_distribution.is_empty());
    assert!(report.hourly_distribution.is_empty());
    assert!(report.records.is_empty());
}

#[test]
fn totals_and_protocol_sum() {
    let recs = vec![
        record("a", "TCP", Some(22), 1),
        record("b", "UDP", None, 1),
        record("a", "TCP", Some(80), 2),
        record("c", "ICMP", None, 5),
    ];
    let report = analyze(recs);
    assert_eq!(report.total_count, 4);
    let sum: usize = report.protocol_distribution.iter().map(|p| p.1).sum();
    assert_eq!(sum, 4);
    assert_eq!(
        report.protocol_distribution,
        vec![("TCP".to_string(), 2), ("UDP".to_string(), 1), ("ICMP".to_string(), 1)]
    );
    assert_eq!(report.port_distribution, vec![(22, 1), (80, 1)]);
    assert_eq!(report.hourly_distribution, vec![(1, 2), (2, 1), (5, 1)]);
    assert_eq!(report.chain_distribution, vec![("INPUT".to_string(), 4)]);
    assert_eq!(report.records[2].destination_port, Some(80));
}

#[test]
fn destinations_sorted_with_first_seen_ties() {
    let recs = vec![
        record("a", "TCP", None, 0),
        record("b", "TCP", None, 0),
        record("c", "TCP", None, 0),
        record("b", "TCP", None, 0),
        record("c", "TCP", None, 0),
        record("d", "TCP", None, 0),
    ];
    let report = analyze(recs);
    let top: Vec<(String, usize)> = report.top_destinations.clone();
    assert_eq!(
        top,
        vec![
            ("b".to_string(), 2),
            ("c".to_string(), 2),
            ("a".to_string(), 1),
            ("d".to_string(), 1)
        ]
    );
    for w in top.windows(2) {
        assert!(w[0].1 >= w[1].1);
    }
}

fn destination_line_count(lines: &[String]) -> usize {
    lines.iter().filter(|l| l.ends_with(" denials") && !l.contains(":00:") && l.starts_with("  ") && l.contains('.')).count()
}

#[test]
fn top_n_bounds_destination_lines() {
    let recs = vec![
        record("10.0.0.1", "TCP", None, 0),
        record("10.0.0.2", "TCP", None, 0),
        record("10.0.0.3", "TCP", None, 0),
    ];
    let report = analyze(recs);
    assert_eq!(destination_line_count(&report_lines(&report, 0)), 0);
    assert_eq!(destination_line_count(&report_lines(&report, 2)), 2);
    assert_eq!(destination_line_count(&report_lines(&report, 10)), 3);
    let lines = report_lines(&report, 0);
    assert_eq!(lines[4], "TOP 0 DESTINATION IPs (Attackers):");
    assert_eq!(lines[5], "");
    assert_eq!(lines[6], "PROTOCOL DISTRIBUTION:");
}

#[test]
fn hourly_section_skips_empty_hours() {
    let recs = vec![record("a", "TCP", None, 7), record("b", "TCP", None, 23), record("c", "TCP", None, 7)];
    let report = analyze(recs);
    let lines = report_lines(&report, 10);
    let start = lines.iter().position(|l| l == "HOURLY DISTRIBUTION:").expect("section");
    assert_eq!(&lines[start + 1..], &["  07:00: 2 denials".to_string(), "  23:00: 1 denials".to_string()]);
}

#[test]
fn port_section_is_capped_and_sorted() {
    let mut recs = Vec::new();
    for p in 1..=12u16 {
        recs.push(record("a", "TCP", Some(p), 0));
    }
    recs.push(record("a", "TCP", Some(12), 0));
    let report = analyze(recs);
    let lines = report_lines(&report, 10);
    let start = lines.iter().position(|l| l == "TOP DESTINATION PORTS:").expect("section");
    assert_eq!(lines[start + 1], "  12: 2 denials");
    assert_eq!(lines[start + 2], "  1: 1 denials");
    assert_eq!(lines[start + 10], "  9: 1 denials");
    assert_eq!(lines[start + 11], "");
    assert_eq!(lines[start + 12], "CHAIN DISTRIBUTION:");
}

#[test]
fn no_port_section_without_ports() {
    let report = analyze(vec![record("a", "TCP", None, 0)]);
    let lines = report_lines(&report, 10);
    assert!(!lines.iter().any(|l| l == "TOP DESTINATION PORTS:"));
}

#[test]
fn sample_text_report() {
    let text = render_text(&sample_report(), 10);
    let expected = "=== IPTABLES DENIAL REPORT ===\n\
\n\
Total denials: 1\n\
\n\
TOP 10 DESTINATION IPs (Attackers):\n\
\x20 10.0.0.5: 1 denials\n\
\n\
PROTOCOL DISTRIBUTION:\n\
\x20 TCP: 1\n\
\n\
TOP DESTINATION PORTS:\n\
\x20 22: 1 denials\n\
\n\
CHAIN DISTRIBUTION:\n\
\x20 INPUT: 1\n\
\n\
HOURLY DISTRIBUTION:\n\
\x20 03:00: 1 denials\n";
    assert_eq!(text, expected);
}

#[test]
fn large_counts_in_decimal() {
    let mut recs = Vec::new();
    for _ in 0..1234 {
        recs.push(record("a", "TCP", None, 0));
    }
    let report = analyze(recs);
    let lines = report_lines(&report, 1);
    assert_eq!(lines[2], "Total denials: 1234");
    assert_eq!(lines[5], "  a: 1234 denials");
}

#[test]
fn format_names() {
    assert_eq!(Format::from_name("json"), Format::Structured);
    assert_eq!(Format::from_name("text"), Format::Text);
    assert_eq!(Format::from_name("yaml"), Format::Text);
}

#[test]
fn hand_built_zero_hour_is_not_shown() {
    let mut report = analyze(vec![record("a", "TCP", None, 3)]);
    report.hourly_distribution = vec![(5, 0), (3, 1), (9, 0)];
    let lines = report_lines(&report, 10);
    let start = lines.iter().position(|l| l == "HOURLY DISTRIBUTION:").expect("section");
    assert_eq!(&lines[start + 1..], &["  03:00: 1 denials".to_string()]);
}
