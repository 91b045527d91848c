use crate::text::{chars_of, contains_run, occurs_in, split_words, words};
use crate::timestamp::{current_time, instant_of, parse_instant, Timestamp};
use vstd::prelude::*;
use vstd::string::*;

verus! {

broadcast use vstd::string::group_string_axioms;

/// Marks a line as coming from the kernel.
pub const KERNEL_MARKER: &'static str = "kernel:";

/// Marks a line as an IPv4 packet that was dropped.
pub const DROP_MARKER: &'static str = "DROP_IPV4";

/// The layout of the first token of a line, in strftime notation.
pub const TIMESTAMP_FORMAT: &'static str = "%Y-%m-%dT%H:%M:%S%.f%z";

/// The classification given to every parsed record.
pub const DENIAL_ACTION: &'static str = "DENIED";

/// A denial event read from one log line.
#[derive(Clone, Debug)]
pub struct DenialRecord {
    pub timestamp: Timestamp,
    pub source_address: String,
    pub destination_address: String,
    pub destination_port: Option<u16>,
    pub protocol: String,
    pub outbound_interface: Option<String>,
    pub chain: String,
    pub action: String,
}

/// A denial record with its texts as character sequences.
pub ghost struct RecordView {
    pub timestamp: Timestamp,
    pub source_address: Seq<char>,
    pub destination_address: Seq<char>,
    pub destination_port: Option<u16>,
    pub protocol: Seq<char>,
    pub outbound_interface: Option<Seq<char>>,
    pub chain: Seq<char>,
    pub action: Seq<char>,
}

pub open spec fn text_view(o: Option<String>) -> Option<Seq<char>> {
    match o {
        Some(s) => Some(s@),
        None => None,
    }
}

impl View for DenialRecord {
    type V = RecordView;

    open spec fn view(&self) -> RecordView {
        RecordView {
            timestamp: self.timestamp,
            source_address: self.source_address@,
            destination_address: self.destination_address@,
            destination_port: self.destination_port,
            protocol: self.protocol@,
            outbound_interface: text_view(self.outbound_interface),
            chain: self.chain@,
            action: self.action@,
        }
    }
}

/// The position of the first `c` in `s`, or the length of `s` where there is none.
pub open spec fn first_index(s: Seq<char>, c: char) -> int
    decreases s.len(),
{
    if s.len() == 0 {
        0
    } else if s[0] == c {
        0
    } else {
        1 + first_index(s.drop_first(), c)
    }
}

/// The key and the value of a token of the shape `KEY=VALUE`: the key runs up
/// to the first `=`, the value from there up to the next `=` or the end.
pub open spec fn key_value(t: Seq<char>) -> Option<(Seq<char>, Seq<char>)> {
    let k = first_index(t, '=');
    if k >= t.len() {
        None
    } else {
        let rest = t.skip(k + 1);
        Some((t.take(k), rest.take(first_index(rest, '='))))
    }
}

/// The value of the last token in `toks` that sets `key`; where `skip_empty`
/// holds, tokens with an empty value do not count.
pub open spec fn last_value(toks: Seq<Seq<char>>, key: Seq<char>, skip_empty: bool) -> Option<
    Seq<char>,
>
    decreases toks.len(),
{
    if toks.len() == 0 {
        None
    } else {
        match key_value(toks.last()) {
            Some(kv) => if kv.0 == key && !(skip_empty && kv.1.len() == 0) {
                Some(kv.1)
            } else {
                last_value(toks.drop_last(), key, skip_empty)
            },
            None => last_value(toks.drop_last(), key, skip_empty),
        }
    }
}

pub open spec fn or_empty(o: Option<Seq<char>>) -> Seq<char> {
    match o {
        Some(v) => v,
        None => seq![],
    }
}

pub open spec fn is_digit(c: char) -> bool {
    '0' <= c && c <= '9'
}

/// The number written in decimal by the digits `d`.
pub open spec fn digits_value(d: Seq<char>) -> nat
    decreases d.len(),
{
    if d.len() == 0 {
        0
    } else {
        digits_value(d.drop_last()) * 10 + ((d.last() as u32) - ('0' as u32)) as nat
    }
}

pub open spec fn all_digits(d: Seq<char>) -> bool {
    forall|i: int| 0 <= i < d.len() ==> is_digit(#[trigger] d[i])
}

/// `v` without a leading `+`.
pub open spec fn unsigned_digits(v: Seq<char>) -> Seq<char> {
    if v.len() > 0 && v[0] == '+' {
        v.drop_first()
    } else {
        v
    }
}

/// A port number written in decimal, with an optional leading `+`.
pub open spec fn port_value(v: Seq<char>) -> Option<u16> {
    let d = unsigned_digits(v);
    if d.len() > 0 && all_digits(d) && digits_value(d) <= 65535 {
        Some(digits_value(d) as u16)
    } else {
        None
    }
}

/// `s` without one colon at its end, where it has one.
pub open spec fn strip_colon(s: Seq<char>) -> Seq<char> {
    if s.len() > 0 && s.last() == ':' {
        s.drop_last()
    } else {
        s
    }
}

/// Whether a line carries both the kernel and the drop marker.
pub open spec fn is_candidate(line: Seq<char>) -> bool {
    occurs_in(KERNEL_MARKER@, line) && occurs_in(DROP_MARKER@, line)
}

/// The timestamp read from the first token, or `now` where it does not parse.
pub open spec fn stamp_or(token: Seq<char>, now: Timestamp) -> Timestamp {
    match instant_of(token, TIMESTAMP_FORMAT@) {
        Some(p) => Timestamp { seconds: p.0, nanos: p.1 },
        None => now,
    }
}

/// The record that a line yields, `now` standing in for an unreadable timestamp.
pub open spec fn record_of(line: Seq<char>, now: Timestamp) -> Option<RecordView> {
    let toks = words(line);
    let src = or_empty(last_value(toks, "SRC"@, false));
    let dst = or_empty(last_value(toks, "DST"@, false));
    let proto = or_empty(last_value(toks, "PROTO"@, false));
    if !is_candidate(line) || toks.len() < 6 || src.len() == 0 || dst.len() == 0 || proto.len()
        == 0 {
        None
    } else {
        Some(
            RecordView {
                timestamp: stamp_or(toks[0], now),
                source_address: src,
                destination_address: dst,
                destination_port: match last_value(toks, "DPT"@, false) {
                    Some(v) => port_value(v),
                    None => None,
                },
                protocol: proto,
                outbound_interface: last_value(toks, "OUT"@, true),
                chain: strip_colon(toks[3]),
                action: DENIAL_ACTION@,
            },
        )
    }
}

pub open spec fn record_view(o: Option<DenialRecord>) -> Option<RecordView> {
    match o {
        Some(r) => Some(r@),
        None => None,
    }
}

pub open spec fn pair_view(o: Option<(String, String)>) -> Option<(Seq<char>, Seq<char>)> {
    match o {
        Some(p) => Some((p.0@, p.1@)),
        None => None,
    }
}

proof fn lemma_first_index(s: Seq<char>, c: char, i: int)
    requires
        0 <= i <= s.len(),
        forall|j: int| 0 <= j < i ==> s[j] != c,
        i == s.len() || s[i] == c,
    ensures
        first_index(s, c) == i,
    decreases s.len(),
{
    if s.len() > 0 && i > 0 {
        lemma_first_index(s.drop_first(), c, i - 1);
    }
}

/// The first position at or after `from` that holds `c`, or the length.
fn find_char(cs: &Vec<char>, from: usize, c: char) -> (r: usize)
    requires
        from <= cs@.len(),
    ensures
        from <= r <= cs@.len(),
        forall|j: int| from <= j < r ==> cs@[j] != c,
        r < cs@.len() ==> cs@[r as int] == c,
{
    let mut i = from;
    while i < cs.len() && cs[i] != c
        invariant
            from <= i <= cs@.len(),
            forall|j: int| from <= j < i ==> cs@[j] != c,
        decreases cs@.len() - i,
    {
        i = i + 1;
    }
    i
}

/// Splits a `KEY=VALUE` token into its key and value.
pub fn split_key_value(tok: &String) -> (r: Option<(String, String)>)
    ensures
        pair_view(r) == key_value(tok@),
{
    let s = tok.as_str();
    let cs = chars_of(s);
    let k = find_char(&cs, 0, '=');
    proof {
        lemma_first_index(tok@, '=', k as int);
    }
    if k == cs.len() {
        return None;
    }
    let m = find_char(&cs, k + 1, '=');
    proof {
        let rest = tok@.skip(k + 1);
        lemma_first_index(rest, '=', m - (k + 1));
        assert(rest.take(m - (k + 1)) =~= tok@.subrange(k + 1, m as int));
        assert(tok@.take(k as int) =~= tok@.subrange(0, k as int));
    }
    let key = String::from_str(s.substring_char(0, k));
    let value = String::from_str(s.substring_char(k + 1, m));
    Some((key, value))
}

/// Reads a port number: decimal digits with an optional leading `+`, at
/// most 65535.
pub fn parse_port(v: &String) -> (r: Option<u16>)
    ensures
        r == port_value(v@),
{
    let cs = chars_of(v.as_str());
    let n = cs.len();
    let start: usize = if n > 0 && cs[0] == '+' {
        1
    } else {
        0
    };
    let ghost d = unsigned_digits(v@);
    assert(d =~= v@.skip(start as int));
    if start == n {
        return None;
    }
    let mut acc: u32 = 0;
    let mut i = start;
    while i < n
        invariant
            start <= i <= n,
            n == cs@.len(),
            cs@ == v@,
            d == v@.skip(start as int),
            d == unsigned_digits(v@),
            forall|j: int| start <= j < i ==> is_digit(#[trigger] v@[j]),
            acc == if digits_value(d.take(i - start)) > 65535 {
                65536
            } else {
                digits_value(d.take(i - start))
            },
        decreases n - i,
    {
        let c = cs[i];
        if !('0' <= c && c <= '9') {
            proof {
                let j = i - start;
                assert(!is_digit(d[j]));
                assert(!all_digits(d));
            }
            return None;
        }
        let digit: u32 = (c as u32) - ('0' as u32);
        let ghost before = digits_value(d.take(i - start));
        assert(d.take(i + 1 - start).drop_last() =~= d.take(i - start));
        assert(digits_value(d.take(i + 1 - start)) == before * 10 + digit);
        if acc > 65535 || acc * 10 + digit > 65535 {
            acc = 65536;
        } else {
            acc = acc * 10 + digit;
        }
        i = i + 1;
    }
    assert(d.take(n - start) =~= d);
    if acc > 65535 {
        None
    } else {
        Some(acc as u16)
    }
}

/// `s` without one colon at its end, where it has one.
pub fn trim_colon(s: &String) -> (r: String)
    ensures
        r@ == strip_colon(s@),
{
    let cs = chars_of(s.as_str());
    let n = cs.len();
    let end = if n > 0 && cs[n - 1] == ':' {
        n - 1
    } else {
        n
    };
    assert(s@.take(n as int) =~= s@);
    assert(s@.take(n - 1) =~= s@.drop_last());
    String::from_str(s.as_str().substring_char(0, end))
}

} // verus!

verus! {

/// Reads one log line into a denial record with `now` standing in for a
/// timestamp that does not parse, and tells whether it stood in.
fn read_record(line: &str, now: Timestamp) -> (r: (Option<DenialRecord>, bool))
    ensures
        record_view(r.0) == record_of(line@, now),
        r.1 <==> (r.0 is Some && instant_of(words(line@)[0], TIMESTAMP_FORMAT@) is None),
{
    let cs = chars_of(line);
    let kernel = chars_of(KERNEL_MARKER);
    let dropped = chars_of(DROP_MARKER);
    if !contains_run(&cs, &kernel) || !contains_run(&cs, &dropped) {
        return (None, false);
    }
    let toks = split_words(line, &cs);
    let ghost tv = toks@.map_values(|w: String| w@);
    if toks.len() < 6 {
        return (None, false);
    }
    let src_key = String::from_str("SRC");
    let dst_key = String::from_str("DST");
    let proto_key = String::from_str("PROTO");
    let out_key = String::from_str("OUT");
    let dpt_key = String::from_str("DPT");
    let mut src: Option<String> = None;
    let mut dst: Option<String> = None;
    let mut proto: Option<String> = None;
    let mut out: Option<String> = None;
    let mut dpt: Option<String> = None;
    let mut i: usize = 0;
    while i < toks.len()
        invariant
            tv == toks@.map_values(|w: String| w@),
            tv == words(line@),
            i <= toks@.len(),
            src_key@ == "SRC"@,
            dst_key@ == "DST"@,
            proto_key@ == "PROTO"@,
            out_key@ == "OUT"@,
            dpt_key@ == "DPT"@,
            text_view(src) == last_value(tv.take(i as int), "SRC"@, false),
            text_view(dst) == last_value(tv.take(i as int), "DST"@, false),
            text_view(proto) == last_value(tv.take(i as int), "PROTO"@, false),
            text_view(out) == last_value(tv.take(i as int), "OUT"@, true),
            text_view(dpt) == last_value(tv.take(i as int), "DPT"@, false),
        decreases toks@.len() - i,
    {
        proof {
            assert(tv.take(i + 1).drop_last() =~= tv.take(i as int));
            assert(tv.take(i + 1).last() == toks@[i as int]@);
            reveal_strlit("SRC");
            reveal_strlit("DST");
            reveal_strlit("PROTO");
            reveal_strlit("OUT");
            reveal_strlit("DPT");
            assert("SRC"@[0] != "DST"@[0] && "SRC"@[0] != "PROTO"@[0] && "SRC"@[0] != "OUT"@[0]);
            assert("DST"@[0] != "PROTO"@[0] && "DST"@[0] != "OUT"@[0] && "DST"@[1] != "DPT"@[1]);
            assert("PROTO"@[0] != "OUT"@[0] && "PROTO"@[0] != "DPT"@[0] && "OUT"@[0] != "DPT"@[0]);
            assert("SRC"@[0] != "DPT"@[0]);
        }
        match split_key_value(&toks[i]) {
            Some(kv) => {
                let (k, v) = kv;
                if k == src_key {
                    src = Some(v);
                } else if k == dst_key {
                    dst = Some(v);
                } else if k == proto_key {
                    proto = Some(v);
                } else if k == out_key {
                    if !v.as_str().is_empty() {
                        out = Some(v);
                    }
                } else if k == dpt_key {
                    dpt = Some(v);
                }
            },
            None => {},
        }
        i = i + 1;
    }
    assert(tv.take(toks@.len() as int) =~= tv);
    let source_address = match src {
        Some(s) => s,
        None => String::new(),
    };
    let destination_address = match dst {
        Some(s) => s,
        None => String::new(),
    };
    let protocol = match proto {
        Some(s) => s,
        None => String::new(),
    };
    if source_address.as_str().is_empty() || destination_address.as_str().is_empty()
        || protocol.as_str().is_empty() {
        return (None, false);
    }
    let (timestamp, stood_in) = match parse_instant(toks[0].as_str(), TIMESTAMP_FORMAT) {
        Some(t) => (t, false),
        None => (now, true),
    };
    let destination_port = match dpt {
        Some(v) => parse_port(&v),
        None => None,
    };
    let chain = trim_colon(&toks[3]);
    let record = DenialRecord {
        timestamp,
        source_address,
        destination_address,
        destination_port,
        protocol,
        outbound_interface: out,
        chain,
        action: String::from_str(DENIAL_ACTION),
    };
    (Some(record), stood_in)
}

/// Reads one log line into a denial record; `now` stands in for a timestamp
/// that does not parse. Lines without both markers, with fewer than six
/// tokens, or without a source, destination and protocol give nothing.
pub fn parse_line_at(line: &str, now: Timestamp) -> (r: Option<DenialRecord>)
    ensures
        record_view(r) == record_of(line@, now),
{
    read_record(line, now).0
}

/// Reads one log line into a denial record, taking the current time where
/// the line's timestamp does not parse; the clock is read only then.
pub fn parse_line(line: &str) -> (r: Option<DenialRecord>)
    ensures
        exists|now: Timestamp| record_view(r) == record_of(line@, now),
{
    let placeholder = Timestamp { seconds: 0, nanos: 0 };
    let (r, stood_in) = read_record(line, placeholder);
    match r {
        Some(record) => {
            let mut record = record;
            if stood_in {
                record.timestamp = current_time();
                assert(record_view(Some(record)) == record_of(line@, record.timestamp));
            } else {
                assert(record_view(Some(record)) == record_of(line@, placeholder));
            }
            Some(record)
        },
        None => {
            assert(record_view(None) == record_of(line@, placeholder));
            None
        },
    }
}

} // verus!

verus! {

/// A line without both the kernel and the drop marker yields no record.
pub proof fn lemma_unmarked_line_skipped(line: Seq<char>, now: Timestamp)
    requires
        !occurs_in(KERNEL_MARKER@, line) || !occurs_in(DROP_MARKER@, line),
    ensures
        record_of(line, now) is None,
{
}

/// A line of fewer than six tokens yields no record.
pub proof fn lemma_short_line_skipped(line: Seq<char>, now: Timestamp)
    requires
        words(line).len() < 6,
    ensures
        record_of(line, now) is None,
{
}

/// A marked line of six or more tokens whose source, destination and
/// protocol are set and non-empty yields a record classed as a denial, with
/// the timestamp read from its first token.
pub proof fn lemma_complete_line_parsed(line: Seq<char>, now: Timestamp)
    requires
        is_candidate(line),
        words(line).len() >= 6,
        or_empty(last_value(words(line), "SRC"@, false)).len() > 0,
        or_empty(last_value(words(line), "DST"@, false)).len() > 0,
        or_empty(last_value(words(line), "PROTO"@, false)).len() > 0,
    ensures
        record_of(line, now) is Some,
        record_of(line, now)->0.action == DENIAL_ACTION@,
        record_of(line, now)->0.timestamp == stamp_or(words(line)[0], now),
{
}

/// A line that does not set one of source, destination or protocol yields
/// no record.
pub proof fn lemma_missing_field_skipped(line: Seq<char>, now: Timestamp)
    requires
        last_value(words(line), "SRC"@, false) is None || last_value(words(line), "DST"@, false)
            is None || last_value(words(line), "PROTO"@, false) is None,
    ensures
        record_of(line, now) is None,
{
}

/// A destination port that is not a number from 0 to 65535 leaves the port
/// out of the record and does not discard the line.
pub proof fn lemma_bad_port_kept(line: Seq<char>, now: Timestamp)
    requires
        is_candidate(line),
        words(line).len() >= 6,
        or_empty(last_value(words(line), "SRC"@, false)).len() > 0,
        or_empty(last_value(words(line), "DST"@, false)).len() > 0,
        or_empty(last_value(words(line), "PROTO"@, false)).len() > 0,
        last_value(words(line), "DPT"@, false) is Some,
        port_value(last_value(words(line), "DPT"@, false)->0) is None,
    ensures
        record_of(line, now) is Some,
        record_of(line, now)->0.destination_port is None,
{
}

} // verus!
