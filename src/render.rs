use crate::analysis::{analysis_of, destinations, AnalysisReport, ReportView};
use crate::counting::{
    by_count, counts_view, lemma_by_count_sorted, lemma_tally_len, sort_by_count, tally,
};
use crate::parser::RecordView;
use vstd::prelude::*;
use vstd::string::*;

verus! {

broadcast use vstd::string::group_string_axioms;

/// How a report is written out.
#[derive(Clone, Copy, Debug, PartialEq, Eq, Structural)]
pub enum Format {
    /// Every field of the report, for machines.
    Structured,
    /// A report for people to read.
    Text,
}

impl Format {
    /// `json` names the structured form; any other name gives text.
    pub fn from_name(name: &str) -> (r: Format)
        ensures
            r == (if name@ == "json"@ {
                Format::Structured
            } else {
                Format::Text
            }),
    {
        let given = String::from_str(name);
        let json = String::from_str("json");
        if given == json {
            Format::Structured
        } else {
            Format::Text
        }
    }
}

/// How many ports the port section of a text report shows at most.
pub const PORT_LINES: usize = 10;

/// `n` in decimal.
pub open spec fn decimal(n: nat) -> Seq<char>
    decreases n,
{
    if n < 10 {
        seq!["0123456789"@[n as int]]
    } else {
        decimal(n / 10) + seq!["0123456789"@[(n % 10) as int]]
    }
}

/// An hour in two digits.
pub open spec fn two_digits(h: nat) -> Seq<char> {
    if h < 10 {
        seq!['0'] + decimal(h)
    } else {
        decimal(h)
    }
}

pub open spec fn destination_line(e: (Seq<char>, nat)) -> Seq<char> {
    "  "@ + e.0 + ": "@ + decimal(e.1) + " denials"@
}

pub open spec fn plain_line(e: (Seq<char>, nat)) -> Seq<char> {
    "  "@ + e.0 + ": "@ + decimal(e.1)
}

pub open spec fn port_line(e: (u16, nat)) -> Seq<char> {
    "  "@ + decimal(e.0 as nat) + ": "@ + decimal(e.1) + " denials"@
}

pub open spec fn hour_line(e: (nat, nat)) -> Seq<char> {
    "  "@ + two_digits(e.0) + ":00: "@ + decimal(e.1) + " denials"@
}

pub open spec fn min(a: nat, b: nat) -> nat {
    if a < b {
        a
    } else {
        b
    }
}

/// The count of the first entry of `t` keyed by `k`.
pub open spec fn lookup(t: Seq<(u32, nat)>, k: u32) -> Option<nat>
    decreases t.len(),
{
    if t.len() == 0 {
        None
    } else if t[0].0 == k {
        Some(t[0].1)
    } else {
        lookup(t.drop_first(), k)
    }
}

/// The hours from `h` to 23 that have a count above zero in `t`, with that
/// count.
pub open spec fn hour_entries(t: Seq<(u32, nat)>, h: nat) -> Seq<(nat, nat)>
    decreases 24 - h,
{
    if h >= 24 {
        seq![]
    } else {
        let here: Seq<(nat, nat)> = match lookup(t, h as u32) {
            Some(c) => if c > 0 {
                seq![(h, c)]
            } else {
                seq![]
            },
            None => seq![],
        };
        here + hour_entries(t, h + 1)
    }
}

/// The lines of the destination section: the first `k` destinations.
pub open spec fn destination_lines(rv: ReportView, k: nat) -> Seq<Seq<char>> {
    rv.top_destinations.take(min(k, rv.top_destinations.len()) as int).map_values(
        |e: (Seq<char>, nat)| destination_line(e),
    )
}

/// The port section: absent where no record has a port, else the ten ports
/// with the highest counts.
pub open spec fn port_section(rv: ReportView) -> Seq<Seq<char>> {
    if rv.port_distribution.len() == 0 {
        seq![]
    } else {
        let sorted = by_count(rv.port_distribution);
        seq!["TOP DESTINATION PORTS:"@] + sorted.take(
            min(PORT_LINES as nat, sorted.len()) as int,
        ).map_values(|e: (u16, nat)| port_line(e)) + seq![""@]
    }
}

/// The lines of the hourly section, hour by hour.
pub open spec fn hour_lines(rv: ReportView) -> Seq<Seq<char>> {
    hour_entries(rv.hourly_distribution, 0).map_values(|e: (nat, nat)| hour_line(e))
}

/// The text report, line by line, showing at most `k` destinations.
pub open spec fn report_text_lines(rv: ReportView, k: nat) -> Seq<Seq<char>> {
    seq![
        "=== IPTABLES DENIAL REPORT ==="@,
        ""@,
        "Total denials: "@ + decimal(rv.total_count),
        ""@,
        "TOP "@ + decimal(k) + " DESTINATION IPs (Attackers):"@,
    ] + destination_lines(rv, k) + seq![""@, "PROTOCOL DISTRIBUTION:"@]
        + rv.protocol_distribution.map_values(|e: (Seq<char>, nat)| plain_line(e)) + seq![""@]
        + port_section(rv) + seq!["CHAIN DISTRIBUTION:"@] + rv.chain_distribution.map_values(
        |e: (Seq<char>, nat)| plain_line(e),
    ) + seq![""@, "HOURLY DISTRIBUTION:"@] + hour_lines(rv)
}

/// Lines joined into one text, each ended by a newline.
pub open spec fn joined(lines: Seq<Seq<char>>) -> Seq<char>
    decreases lines.len(),
{
    if lines.len() == 0 {
        seq![]
    } else {
        joined(lines.drop_last()) + lines.last() + "\n"@
    }
}

pub open spec fn lines_view(v: Seq<String>) -> Seq<Seq<char>> {
    v.map_values(|s: String| s@)
}

/// Appends `n` in decimal to `out`.
pub fn push_decimal(out: &mut String, n: usize)
    ensures
        final(out)@ == old(out)@ + decimal(n as nat),
    decreases n,
{
    if n >= 10 {
        push_decimal(out, n / 10);
    }
    let d = n % 10;
    proof {
        reveal_strlit("0123456789");
    }
    let digit = "0123456789".substring_char(d, d + 1);
    assert(digit@ =~= seq!["0123456789"@[d as int]]);
    out.append(digit);
    assert(out@ =~= old(out)@ + decimal(n as nat));
}

fn destination_text(key: &String, count: usize) -> (r: String)
    ensures
        r@ == destination_line((key@, count as nat)),
{
    let mut s = String::from_str("  ");
    s.append(key.as_str());
    s.append(": ");
    push_decimal(&mut s, count);
    s.append(" denials");
    s
}

fn plain_text(key: &String, count: usize) -> (r: String)
    ensures
        r@ == plain_line((key@, count as nat)),
{
    let mut s = String::from_str("  ");
    s.append(key.as_str());
    s.append(": ");
    push_decimal(&mut s, count);
    s
}

fn port_text(port: u16, count: usize) -> (r: String)
    ensures
        r@ == port_line((port, count as nat)),
{
    let mut s = String::from_str("  ");
    push_decimal(&mut s, port as usize);
    s.append(": ");
    push_decimal(&mut s, count);
    s.append(" denials");
    s
}

fn hour_text(hour: u32, count: usize) -> (r: String)
    ensures
        r@ == hour_line((hour as nat, count as nat)),
{
    let mut s = String::from_str("  ");
    if hour < 10 {
        proof {
            reveal_strlit("0");
        }
        s.append("0");
    }
    push_decimal(&mut s, hour as usize);
    s.append(":00: ");
    push_decimal(&mut s, count);
    s.append(" denials");
    s
}

fn push_destinations(out: &mut Vec<String>, t: &Vec<(String, usize)>, shown: usize)
    requires
        shown <= t@.len(),
    ensures
        lines_view(final(out)@) == lines_view(old(out)@) + counts_view(t@).take(
            shown as int,
        ).map_values(|e: (Seq<char>, nat)| destination_line(e)),
{
    let ghost base = lines_view(out@);
    let ghost tv = counts_view(t@);
    let mut i: usize = 0;
    while i < shown
        invariant
            shown <= t@.len(),
            tv == counts_view(t@),
            i <= shown,
            lines_view(out@) == base + tv.take(i as int).map_values(
                |e: (Seq<char>, nat)| destination_line(e),
            ),
        decreases shown - i,
    {
        let line = destination_text(&t[i].0, t[i].1);
        let ghost before = lines_view(out@);
        out.push(line);
        assert(lines_view(out@) =~= before.push(destination_line(tv[i as int])));
        assert(tv.take(i + 1).map_values(|e: (Seq<char>, nat)| destination_line(e)) =~= tv.take(i as int).map_values(
            |e: (Seq<char>, nat)| destination_line(e),
        ).push(destination_line(tv[i as int])));
        assert(lines_view(out@) =~= base + tv.take(i + 1).map_values(
            |e: (Seq<char>, nat)| destination_line(e),
        ));
        i = i + 1;
    }
}

fn push_plain(out: &mut Vec<String>, t: &Vec<(String, usize)>)
    ensures
        lines_view(final(out)@) == lines_view(old(out)@) + counts_view(t@).map_values(
            |e: (Seq<char>, nat)| plain_line(e),
        ),
{
    let ghost base = lines_view(out@);
    let ghost tv = counts_view(t@);
    let mut i: usize = 0;
    while i < t.len()
        invariant
            tv == counts_view(t@),
            i <= t@.len(),
            lines_view(out@) == base + tv.take(i as int).map_values(
                |e: (Seq<char>, nat)| plain_line(e),
            ),
        decreases t@.len() - i,
    {
        let line = plain_text(&t[i].0, t[i].1);
        let ghost before = lines_view(out@);
        out.push(line);
        assert(lines_view(out@) =~= before.push(plain_line(tv[i as int])));
        assert(tv.take(i + 1).map_values(|e: (Seq<char>, nat)| plain_line(e)) =~= tv.take(i as int).map_values(
            |e: (Seq<char>, nat)| plain_line(e),
        ).push(plain_line(tv[i as int])));
        assert(lines_view(out@) =~= base + tv.take(i + 1).map_values(
            |e: (Seq<char>, nat)| plain_line(e),
        ));
        i = i + 1;
    }
    assert(tv.take(t@.len() as int) =~= tv);
}

fn push_ports(out: &mut Vec<String>, t: &Vec<(u16, usize)>, shown: usize)
    requires
        shown <= t@.len(),
    ensures
        lines_view(final(out)@) == lines_view(old(out)@) + counts_view(t@).take(
            shown as int,
        ).map_values(|e: (u16, nat)| port_line(e)),
{
    let ghost base = lines_view(out@);
    let ghost tv = counts_view(t@);
    let mut i: usize = 0;
    while i < shown
        invariant
            shown <= t@.len(),
            tv == counts_view(t@),
            i <= shown,
            lines_view(out@) == base + tv.take(i as int).map_values(|e: (u16, nat)| port_line(e)),
        decreases shown - i,
    {
        let line = port_text(t[i].0, t[i].1);
        let ghost before = lines_view(out@);
        out.push(line);
        assert(lines_view(out@) =~= before.push(port_line(tv[i as int])));
        assert(tv.take(i + 1).map_values(|e: (u16, nat)| port_line(e)) =~= tv.take(i as int).map_values(
            |e: (u16, nat)| port_line(e),
        ).push(port_line(tv[i as int])));
        assert(lines_view(out@) =~= base + tv.take(i + 1).map_values(
            |e: (u16, nat)| port_line(e),
        ));
        i = i + 1;
    }
}

/// The count of the first entry of `t` for `hour`.
fn count_at(t: &Vec<(u32, usize)>, hour: u32) -> (r: Option<usize>)
    ensures
        match r {
            Some(c) => lookup(counts_view(t@), hour) == Some(c as nat),
            None => lookup(counts_view(t@), hour) is None,
        },
{
    let ghost tv = counts_view(t@);
    let mut i: usize = 0;
    assert(tv.skip(0) =~= tv);
    while i < t.len()
        invariant
            tv == counts_view(t@),
            i <= t@.len(),
            lookup(tv, hour) == lookup(tv.skip(i as int), hour),
        decreases t@.len() - i,
    {
        assert(tv.skip(i as int).drop_first() =~= tv.skip(i + 1));
        assert(tv.skip(i as int)[0] == tv[i as int]);
        if t[i].0 == hour {
            return Some(t[i].1);
        }
        i = i + 1;
    }
    None
}

fn push_hours(out: &mut Vec<String>, t: &Vec<(u32, usize)>)
    ensures
        lines_view(final(out)@) == lines_view(old(out)@) + hour_entries(counts_view(t@), 0).map_values(
            |e: (nat, nat)| hour_line(e),
        ),
{
    let ghost base = lines_view(out@);
    let ghost tv = counts_view(t@);
    let mut h: u32 = 0;
    assert(lines_view(out@) + hour_entries(tv, 0).map_values(|e: (nat, nat)| hour_line(e))
        =~= base + hour_entries(tv, 0).map_values(|e: (nat, nat)| hour_line(e)));
    while h < 24
        invariant
            tv == counts_view(t@),
            h <= 24,
            lines_view(out@) + hour_entries(tv, h as nat).map_values(|e: (nat, nat)| hour_line(e))
                == base + hour_entries(tv, 0).map_values(|e: (nat, nat)| hour_line(e)),
        decreases 24 - h,
    {
        let ghost rest = hour_entries(tv, (h + 1) as nat);
        let ghost lines_before = lines_view(out@);
        match count_at(t, h) {
            Some(c) if c > 0 => {
                let line = hour_text(h, c);
                out.push(line);
                assert(hour_entries(tv, h as nat) == seq![(h as nat, c as nat)] + rest);
                assert(lines_view(out@) =~= lines_before.push(hour_line((h as nat, c as nat))));
                assert((seq![(h as nat, c as nat)] + rest).map_values(|e: (nat, nat)| hour_line(e))
                    =~= seq![hour_line((h as nat, c as nat))] + rest.map_values(
                    |e: (nat, nat)| hour_line(e),
                ));
                assert(lines_view(out@) + rest.map_values(|e: (nat, nat)| hour_line(e))
                    =~= lines_before + hour_entries(tv, h as nat).map_values(
                    |e: (nat, nat)| hour_line(e),
                ));
            },
            _ => {
                assert(hour_entries(tv, h as nat) =~= rest);
            },
        }
        h = h + 1;
    }
    assert(hour_entries(tv, 24) =~= seq![]);
    assert(lines_view(out@) =~= lines_view(out@) + hour_entries(tv, 24).map_values(
        |e: (nat, nat)| hour_line(e),
    ));
}

fn copy_counts(t: &Vec<(u16, usize)>) -> (r: Vec<(u16, usize)>)
    ensures
        r@ == t@,
{
    let mut r: Vec<(u16, usize)> = Vec::new();
    let mut i: usize = 0;
    while i < t.len()
        invariant
            i <= t@.len(),
            r@ == t@.take(i as int),
        decreases t@.len() - i,
    {
        r.push(t[i]);
        assert(r@ =~= t@.take(i + 1));
        i = i + 1;
    }
    assert(t@.take(t@.len() as int) =~= t@);
    r
}

/// The text report, line by line, with at most `top_n` destinations.
pub fn report_lines(report: &AnalysisReport, top_n: usize) -> (r: Vec<String>)
    ensures
        lines_view(r@) == report_text_lines(report@, top_n as nat),
{
    let ghost rv = report@;
    let mut out: Vec<String> = Vec::new();
    out.push(String::from_str("=== IPTABLES DENIAL REPORT ==="));
    out.push(String::from_str(""));
    let mut total = String::from_str("Total denials: ");
    push_decimal(&mut total, report.total_count);
    out.push(total);
    out.push(String::from_str(""));
    let mut head = String::from_str("TOP ");
    push_decimal(&mut head, top_n);
    head.append(" DESTINATION IPs (Attackers):");
    out.push(head);
    let ghost header = lines_view(out@);
    let shown = if top_n < report.top_destinations.len() {
        top_n
    } else {
        report.top_destinations.len()
    };
    push_destinations(&mut out, &report.top_destinations, shown);
    let ghost s1 = lines_view(out@);
    assert(s1 == header + destination_lines(rv, top_n as nat));
    out.push(String::from_str(""));
    out.push(String::from_str("PROTOCOL DISTRIBUTION:"));
    let ghost s2 = lines_view(out@);
    assert(s2 =~= s1 + seq![""@, "PROTOCOL DISTRIBUTION:"@]);
    push_plain(&mut out, &report.protocol_distribution);
    out.push(String::from_str(""));
    let ghost upto_ports = lines_view(out@);
    assert(upto_ports =~= s2 + rv.protocol_distribution.map_values(
        |e: (Seq<char>, nat)| plain_line(e),
    ) + seq![""@]);
    if report.port_distribution.len() > 0 {
        let sorted = sort_by_count(copy_counts(&report.port_distribution));
        let ghost sv = counts_view(sorted@);
        assert(sv == by_count(rv.port_distribution));
        out.push(String::from_str("TOP DESTINATION PORTS:"));
        let ghost p1 = lines_view(out@);
        assert(p1 =~= upto_ports.push("TOP DESTINATION PORTS:"@));
        let ports_shown = if PORT_LINES < sorted.len() {
            PORT_LINES
        } else {
            sorted.len()
        };
        push_ports(&mut out, &sorted, ports_shown);
        let ghost p2 = lines_view(out@);
        out.push(String::from_str(""));
        assert(lines_view(out@) =~= p2.push(""@));
        assert(min(PORT_LINES as nat, sv.len()) == ports_shown);
        assert(lines_view(out@) =~= upto_ports + port_section(rv));
    } else {
        assert(lines_view(out@) =~= upto_ports + port_section(rv));
    }
    let ghost s3 = lines_view(out@);
    out.push(String::from_str("CHAIN DISTRIBUTION:"));
    let ghost s4 = lines_view(out@);
    assert(s4 =~= s3.push("CHAIN DISTRIBUTION:"@));
    push_plain(&mut out, &report.chain_distribution);
    let ghost s5 = lines_view(out@);
    out.push(String::from_str(""));
    out.push(String::from_str("HOURLY DISTRIBUTION:"));
    let ghost upto_hours = lines_view(out@);
    assert(upto_hours =~= s5 + seq![""@, "HOURLY DISTRIBUTION:"@]);
    push_hours(&mut out, &report.hourly_distribution);
    assert(header =~= seq![
        "=== IPTABLES DENIAL REPORT ==="@,
        ""@,
        "Total denials: "@ + decimal(rv.total_count),
        ""@,
        "TOP "@ + decimal(top_n as nat) + " DESTINATION IPs (Attackers):"@,
    ]);
    assert(lines_view(out@) =~= report_text_lines(rv, top_n as nat));
    out
}

/// The text report: its lines, each ended by a newline.
pub fn render_text(report: &AnalysisReport, top_n: usize) -> (r: String)
    ensures
        r@ == joined(report_text_lines(report@, top_n as nat)),
{
    let lines = report_lines(report, top_n);
    let ghost lv = lines_view(lines@);
    let mut text = String::new();
    let mut i: usize = 0;
    assert(lv.take(0) =~= seq![]);
    while i < lines.len()
        invariant
            lv == lines_view(lines@),
            i <= lines@.len(),
            text@ == joined(lv.take(i as int)),
        decreases lines@.len() - i,
    {
        text.append(lines[i].as_str());
        text.append("\n");
        assert(lv.take(i + 1).drop_last() =~= lv.take(i as int));
        i = i + 1;
    }
    assert(lv.take(lines@.len() as int) =~= lv);
    text
}

/// The text report over records `rs` shows as many destination lines as the
/// smaller of `k` and the number of distinct destination addresses.
pub proof fn lemma_destination_lines_bounded(rs: Seq<RecordView>, k: nat)
    ensures
        destination_lines(analysis_of(rs), k).len() == min(k, destinations(rs).to_set().len()),
{
    lemma_by_count_sorted(tally(destinations(rs)));
    lemma_tally_len(destinations(rs));
}

proof fn lemma_hour_entries_positive(t: Seq<(u32, nat)>, h: nat)
    ensures
        forall|i: int|
            0 <= i < hour_entries(t, h).len() ==> #[trigger] hour_entries(t, h)[i].1 >= 1,
    decreases 24 - h,
{
    if h < 24 {
        lemma_hour_entries_positive(t, h + 1);
        let rest = hour_entries(t, h + 1);
        let here: Seq<(nat, nat)> = match lookup(t, h as u32) {
            Some(c) => if c > 0 {
                seq![(h, c)]
            } else {
                seq![]
            },
            None => seq![],
        };
        assert(hour_entries(t, h) == here + rest);
        assert forall|i: int| 0 <= i < hour_entries(t, h).len() implies #[trigger] hour_entries(
            t,
            h,
        )[i].1 >= 1 by {
            if i >= here.len() {
                assert(hour_entries(t, h)[i] == rest[i - here.len()]);
            }
        }
    }
}

/// The hourly section of the text report of any report shows no hour whose
/// count is zero.
pub proof fn lemma_no_empty_hours(rv: ReportView)
    ensures
        forall|i: int|
            0 <= i < hour_entries(rv.hourly_distribution, 0).len()
                ==> #[trigger] hour_entries(rv.hourly_distribution, 0)[i].1 >= 1,
{
    lemma_hour_entries_positive(rv.hourly_distribution, 0);
}

} // verus!
