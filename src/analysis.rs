use crate::counting::{
    by_count, count_hour, count_port, count_sum, count_text, counts_view, lemma_by_count_sorted,
    lemma_tally, sort_by_count, sorted_by_count, tally,
};
use crate::parser::{DenialRecord, RecordView};
use crate::timestamp::hour_of;
use vstd::prelude::*;

verus! {

/// Counts over a list of denial records.
pub struct AnalysisReport {
    pub total_count: usize,
    /// Destination addresses with their counts, highest count first; equal
    /// counts keep the order in which the addresses first occur.
    pub top_destinations: Vec<(String, usize)>,
    pub protocol_distribution: Vec<(String, usize)>,
    pub port_distribution: Vec<(u16, usize)>,
    pub chain_distribution: Vec<(String, usize)>,
    pub hourly_distribution: Vec<(u32, usize)>,
    pub records: Vec<DenialRecord>,
}

/// A report with its texts as character sequences and its counts as naturals.
pub ghost struct ReportView {
    pub total_count: nat,
    pub top_destinations: Seq<(Seq<char>, nat)>,
    pub protocol_distribution: Seq<(Seq<char>, nat)>,
    pub port_distribution: Seq<(u16, nat)>,
    pub chain_distribution: Seq<(Seq<char>, nat)>,
    pub hourly_distribution: Seq<(u32, nat)>,
    pub records: Seq<RecordView>,
}

pub open spec fn records_view(v: Seq<DenialRecord>) -> Seq<RecordView> {
    v.map_values(|r: DenialRecord| r@)
}

impl View for AnalysisReport {
    type V = ReportView;

    open spec fn view(&self) -> ReportView {
        ReportView {
            total_count: self.total_count as nat,
            top_destinations: counts_view(self.top_destinations@),
            protocol_distribution: counts_view(self.protocol_distribution@),
            port_distribution: counts_view(self.port_distribution@),
            chain_distribution: counts_view(self.chain_distribution@),
            hourly_distribution: counts_view(self.hourly_distribution@),
            records: records_view(self.records@),
        }
    }
}

pub open spec fn destinations(rs: Seq<RecordView>) -> Seq<Seq<char>> {
    rs.map_values(|r: RecordView| r.destination_address)
}

pub open spec fn protocols(rs: Seq<RecordView>) -> Seq<Seq<char>> {
    rs.map_values(|r: RecordView| r.protocol)
}

pub open spec fn chains(rs: Seq<RecordView>) -> Seq<Seq<char>> {
    rs.map_values(|r: RecordView| r.chain)
}

pub open spec fn hours(rs: Seq<RecordView>) -> Seq<u32> {
    rs.map_values(|r: RecordView| hour_of(r.timestamp))
}

/// The ports of the records that have one, in order.
pub open spec fn ports(rs: Seq<RecordView>) -> Seq<u16>
    decreases rs.len(),
{
    if rs.len() == 0 {
        seq![]
    } else {
        ports(rs.drop_last()) + match rs.last().destination_port {
            Some(p) => seq![p],
            None => seq![],
        }
    }
}

/// The report over `rs`.
pub open spec fn analysis_of(rs: Seq<RecordView>) -> ReportView {
    ReportView {
        total_count: rs.len(),
        top_destinations: by_count(tally(destinations(rs))),
        protocol_distribution: tally(protocols(rs)),
        port_distribution: tally(ports(rs)),
        chain_distribution: tally(chains(rs)),
        hourly_distribution: tally(hours(rs)),
        records: rs,
    }
}

proof fn lemma_ports_len(rs: Seq<RecordView>)
    ensures
        ports(rs).len() <= rs.len(),
    decreases rs.len(),
{
    if rs.len() > 0 {
        lemma_ports_len(rs.drop_last());
    }
}

/// Counts the records by destination, protocol, port, chain and hour.
pub fn analyze(records: Vec<DenialRecord>) -> (r: AnalysisReport)
    ensures
        r@ == analysis_of(records_view(records@)),
{
    let ghost rv = records_view(records@);
    let n = records.len();
    let mut dest: Vec<(String, usize)> = Vec::new();
    let mut proto: Vec<(String, usize)> = Vec::new();
    let mut port: Vec<(u16, usize)> = Vec::new();
    let mut chain: Vec<(String, usize)> = Vec::new();
    let mut hour: Vec<(u32, usize)> = Vec::new();
    let mut i: usize = 0;
    while i < n
        invariant
            n == records@.len(),
            rv == records_view(records@),
            i <= n,
            counts_view(dest@) == tally(destinations(rv.take(i as int))),
            counts_view(proto@) == tally(protocols(rv.take(i as int))),
            counts_view(port@) == tally(ports(rv.take(i as int))),
            counts_view(chain@) == tally(chains(rv.take(i as int))),
            counts_view(hour@) == tally(hours(rv.take(i as int))),
        decreases n - i,
    {
        let rec = &records[i];
        let ghost pre = rv.take(i as int);
        let ghost post = rv.take(i + 1);
        proof {
            assert(post.drop_last() =~= pre);
            assert(post.last() == rec@);
            assert(destinations(post).drop_last() =~= destinations(pre));
            assert(protocols(post).drop_last() =~= protocols(pre));
            assert(chains(post).drop_last() =~= chains(pre));
            assert(hours(post).drop_last() =~= hours(pre));
            lemma_tally(destinations(pre));
            lemma_tally(protocols(pre));
            lemma_tally(chains(pre));
            lemma_tally(hours(pre));
            lemma_tally(ports(pre));
            lemma_ports_len(pre);
        }
        count_text(&mut dest, &rec.destination_address);
        count_text(&mut proto, &rec.protocol);
        count_text(&mut chain, &rec.chain);
        let h = rec.timestamp.hour();
        count_hour(&mut hour, h);
        match rec.destination_port {
            Some(p) => {
                count_port(&mut port, p);
                assert(ports(post).drop_last() =~= ports(pre));
            },
            None => {
                assert(ports(post) =~= ports(pre));
            },
        }
        i = i + 1;
    }
    assert(rv.take(n as int) =~= rv);
    let top = sort_by_count(dest);
    AnalysisReport {
        total_count: n,
        top_destinations: top,
        protocol_distribution: proto,
        port_distribution: port,
        chain_distribution: chain,
        hourly_distribution: hour,
        records,
    }
}

/// A report over no records counts nothing.
pub proof fn lemma_empty_analysis()
    ensures
        analysis_of(seq![]).total_count == 0,
        analysis_of(seq![]).top_destinations.len() == 0,
        analysis_of(seq![]).protocol_distribution.len() == 0,
        analysis_of(seq![]).port_distribution.len() == 0,
        analysis_of(seq![]).chain_distribution.len() == 0,
        analysis_of(seq![]).hourly_distribution.len() == 0,
{
    let e: Seq<RecordView> = seq![];
    assert(destinations(e) =~= seq![]);
    assert(protocols(e) =~= seq![]);
    assert(chains(e) =~= seq![]);
    assert(hours(e) =~= seq![]);
}

/// A report over `rs` counts every record once, and its protocol counts add
/// up to the number of records.
pub proof fn lemma_total_matches_protocols(rs: Seq<RecordView>)
    ensures
        analysis_of(rs).total_count == rs.len(),
        count_sum(analysis_of(rs).protocol_distribution) == rs.len(),
{
    lemma_tally(protocols(rs));
}

/// The destinations of a report are sorted by count, highest first.
pub proof fn lemma_destinations_sorted(rs: Seq<RecordView>)
    ensures
        sorted_by_count(analysis_of(rs).top_destinations),
{
    lemma_by_count_sorted(tally(destinations(rs)));
}

} // verus!
