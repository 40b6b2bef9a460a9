//! The recent races of a group: a bounded log, newest first, and the
//! counts drawn from it.
use vstd::prelude::*;

use std::collections::VecDeque;

use crate::domain::resolve::{protocol_label, protocol_name};
use crate::domain::types::{KeyValue, ProtocolFamily};
use crate::text::str_eq;

verus! {

broadcast use vstd::std_specs::vecdeque::group_vec_dequeue_axioms;

/// `chrono::Utc::now()`, as whole seconds since the Unix epoch and the
/// nanoseconds past them. Claimed: the nanoseconds are below two billion
/// (chrono lets them pass one billion only within a leap second); nothing
/// is claimed of the time it reads.
#[verifier::external_body]
fn utc_now() -> (r: (i64, u32))
    ensures
        r.1 < 2_000_000_000,
{
    let now = chrono::Utc::now();
    (now.timestamp(), now.timestamp_subsec_nanos())
}

/// The time at which a candidate first streamed content, in milliseconds
/// after the race started.
#[derive(Debug)]
pub struct NamedMillis {
    pub name: String,
    pub millis: u64,
}

/// One finished race; it finished at `timestamp_secs` seconds and
/// `timestamp_nanos` nanoseconds after the Unix epoch (UTC).
#[derive(Debug)]
pub struct RaceRecord {
    pub id: u64,
    pub timestamp_secs: i64,
    pub timestamp_nanos: u32,
    pub group_id: String,
    pub protocol: ProtocolFamily,
    pub winner: Option<String>,
    pub duration_ms: u64,
    pub buffer_events: u64,
    pub participants: Vec<String>,
    pub first_content_times_ms: Vec<NamedMillis>,
    pub penalty_applied: bool,
    pub errors: Vec<KeyValue>,
}

/// The abstract value of a race record (its time stamp aside).
pub struct RecordView {
    pub id: u64,
    /// When the race was recorded: seconds since the Unix epoch and
    /// nanoseconds past them.
    pub timestamp: (i64, u32),
    pub group_id: Seq<char>,
    pub protocol: ProtocolFamily,
    pub winner: Option<Seq<char>>,
    pub duration_ms: u64,
    pub buffer_events: u64,
    pub participants: Seq<Seq<char>>,
    pub first_content_times_ms: Seq<(Seq<char>, u64)>,
    pub penalty_applied: bool,
    pub errors: Seq<(Seq<char>, Seq<char>)>,
}

impl View for RaceRecord {
    type V = RecordView;

    open spec fn view(&self) -> RecordView {
        RecordView {
            id: self.id,
            timestamp: (self.timestamp_secs, self.timestamp_nanos),
            group_id: self.group_id@,
            protocol: self.protocol,
            winner: match self.winner {
                Some(w) => Some(w@),
                None => None,
            },
            duration_ms: self.duration_ms,
            buffer_events: self.buffer_events,
            participants: self.participants@.map_values(|s: String| s@),
            first_content_times_ms: self.first_content_times_ms@.map_values(
                |n: NamedMillis| (n.name@, n.millis),
            ),
            penalty_applied: self.penalty_applied,
            errors: self.errors@.map_values(|e: KeyValue| (e.key@, e.value@)),
        }
    }
}

/// The number of races a name won, and the number of races a protocol ran.
#[derive(Debug)]
pub struct NameCount {
    pub name: String,
    pub count: u64,
}

/// The counts of the races of one protocol.
#[derive(Debug)]
pub struct ProtocolStatsSnapshot {
    pub protocol: String,
    pub total: u64,
    pub wins: Vec<NameCount>,
    pub total_race_duration_ms: u128,
    pub total_buffer_events: u128,
    pub all_failed_count: u64,
}

/// The counts of the recent races; averages are the totals divided by the
/// number of races.
#[derive(Debug)]
pub struct RaceStatsSnapshot {
    pub total_races: u64,
    pub winner_distribution: Vec<NameCount>,
    pub protocol_distribution: Vec<NameCount>,
    pub by_protocol: Vec<ProtocolStatsSnapshot>,
    pub total_race_duration_ms: u128,
    pub total_buffer_events: u128,
}

/// The recent races of a group, newest first, at most `max_records` of
/// them.
pub struct RaceStats {
    records: VecDeque<RaceRecord>,
    next_id: u64,
    max_records: usize,
}

/// The default number of races kept.
pub const DEFAULT_MAX_RECORDS: usize = 200;

/// The newest `limit` records of `s`.
pub open spec fn keep_newest(s: Seq<RecordView>, limit: nat) -> Seq<RecordView> {
    if s.len() <= limit {
        s
    } else {
        s.take(limit as int)
    }
}

/// The record that `add` makes.
pub open spec fn new_record(
    id: u64,
    timestamp: (i64, u32),
    group_id: Seq<char>,
    protocol: ProtocolFamily,
    winner: Option<Seq<char>>,
    duration_ms: u64,
    buffer_events: u64,
    participants: Seq<Seq<char>>,
    first_content_times_ms: Seq<(Seq<char>, u64)>,
    penalty_applied: bool,
    errors: Seq<(Seq<char>, Seq<char>)>,
) -> RecordView {
    RecordView {
        id,
        timestamp,
        group_id,
        protocol,
        winner,
        duration_ms,
        buffer_events,
        participants,
        first_content_times_ms,
        penalty_applied,
        errors,
    }
}

impl RaceStats {
    /// The kept records, newest first.
    pub closed spec fn records(&self) -> Seq<RecordView> {
        self.records@.map_values(|r: RaceRecord| r@)
    }

    /// The id the next record gets.
    pub closed spec fn spec_next_id(&self) -> u64 {
        self.next_id
    }

    /// How many records are kept.
    pub closed spec fn limit(&self) -> nat {
        self.max_records as nat
    }

    /// At most `limit` records, their ids decreasing from the newest and
    /// all below the next id.
    pub closed spec fn wf(&self) -> bool {
        &&& self.records@.len() <= self.max_records
        &&& forall|i: int, j: int|
            0 <= i < j < self.records@.len() ==> (#[trigger] self.records@[i]).id > (
            #[trigger] self.records@[j]).id
        &&& forall|i: int|
            0 <= i < self.records@.len() ==> (#[trigger] self.records@[i]).id < self.next_id
    }

    /// An empty log keeping at most `max_records` races; ids start at 1.
    pub fn new(max_records: usize) -> (r: Self)
        ensures
            r.wf(),
            r.records().len() == 0,
            r.spec_next_id() == 1,
            r.limit() == max_records,
    {
        let r = RaceStats { records: VecDeque::new(), next_id: 1, max_records };
        assert(r.records() =~= Seq::<RecordView>::empty());
        r
    }

    /// The id the next record gets.
    pub fn next_id(&self) -> (r: u64)
        ensures
            r == self.spec_next_id(),
    {
        self.next_id
    }

    /// Records a finished race as the newest, under the next id and stamped
    /// with the time of the call, and drops the oldest records beyond the
    /// limit.
    pub fn add(
        &mut self,
        group_id: String,
        protocol: ProtocolFamily,
        winner: Option<String>,
        duration_ms: u64,
        buffer_events: u64,
        participants: Vec<String>,
        first_content_times_ms: Vec<NamedMillis>,
        penalty_applied: bool,
        errors: Vec<KeyValue>,
    )
        requires
            old(self).wf(),
            old(self).spec_next_id() < u64::MAX,
        ensures
            final(self).wf(),
            final(self).spec_next_id() == old(self).spec_next_id() + 1,
            final(self).limit() == old(self).limit(),
            final(self).records().len() > 0 ==> final(self).records()[0].timestamp.1 < 2_000_000_000,
            final(self).records() == keep_newest(seq![
                new_record(
                    old(self).spec_next_id(),
                    final(self).records()[0].timestamp,
                    group_id@,
                    protocol,
                    match winner {
                        Some(w) => Some(w@),
                        None => None,
                    },
                    duration_ms,
                    buffer_events,
                    participants@.map_values(|s: String| s@),
                    first_content_times_ms@.map_values(|n: NamedMillis| (n.name@, n.millis)),
                    penalty_applied,
                    errors@.map_values(|e: KeyValue| (e.key@, e.value@)),
                ),
            ] + old(self).records(), old(self).limit()),
    {
        let (timestamp_secs, timestamp_nanos) = utc_now();
        let record = RaceRecord {
            id: self.next_id,
            timestamp_secs,
            timestamp_nanos,
            group_id,
            protocol,
            winner,
            duration_ms,
            buffer_events,
            participants,
            first_content_times_ms,
            penalty_applied,
            errors,
        };
        let ghost rv = record@;
        let ghost all = seq![rv] + old(self).records();
        self.next_id = self.next_id + 1;
        self.records.push_front(record);
        assert(self.records() =~= all);
        while self.records.len() > self.max_records
            invariant
                self.max_records == old(self).max_records,
                self.next_id == old(self).next_id + 1,
                self.records@.len() >= self.max_records || self.records@.len() == old(
                    self,
                ).records@.len() + 1,
                self.records@.len() <= old(self).records@.len() + 1,
                all == seq![rv] + old(self).records(),
                self.records() == all.take(self.records@.len() as int),
                old(self).wf(),
                rv.id == old(self).next_id,
                forall|i: int|
                    0 < i < self.records@.len() ==> (#[trigger] self.records@[i]) == old(
                        self,
                    ).records@[i - 1],
                self.records@.len() > 0 ==> self.records@[0]@ == rv,
            decreases self.records@.len(),
        {
            let _ = self.records.pop_back();
            assert(self.records() =~= all.take(self.records@.len() as int));
        }
        assert(self.records@.len() <= self.max_records);
        proof {
            let n = self.records@.len();
            if old(self).records@.len() + 1 <= old(self).max_records {
                assert(n == old(self).records@.len() + 1);
                assert(all.take(n as int) =~= all);
            }
            if all.len() > old(self).max_records {
                assert(self.records() =~= all.take(old(self).max_records as int));
            } else {
                assert(self.records() =~= all);
            }
            assert forall|i: int, j: int|
                0 <= i < j < self.records@.len() implies (#[trigger] self.records@[i]).id > (
                #[trigger] self.records@[j]).id by {
                if i == 0 {
                    assert(self.records@[0]@ == rv);
                    assert(old(self).records@[j - 1].id < old(self).next_id);
                } else {
                    assert(old(self).records@[i - 1].id > old(self).records@[j - 1].id);
                }
            }
            assert forall|i: int| 0 <= i < self.records@.len() implies (
            #[trigger] self.records@[i]).id < self.next_id by {
                if i == 0 {
                    assert(self.records@[0]@ == rv);
                } else {
                    assert(old(self).records@[i - 1].id < old(self).next_id);
                }
            }
        }
    }

    /// The kept records, newest first.
    pub fn recent_races(&self) -> (r: &VecDeque<RaceRecord>)
        ensures
            r@.map_values(|x: RaceRecord| x@) == self.records(),
    {
        &self.records
    }
}

impl Default for RaceStats {
    fn default() -> (r: Self)
        ensures
            r.wf(),
            r.records().len() == 0,
            r.spec_next_id() == 1,
            r.limit() == DEFAULT_MAX_RECORDS,
    {
        RaceStats::new(DEFAULT_MAX_RECORDS)
    }
}

/// A bounded log keeps at most its limit of records: the newest one is
/// the one just added and the others keep their order.
pub proof fn law_add_keeps_newest_first(before: Seq<RecordView>, r: RecordView, limit: nat)
    requires
        limit > 0,
    ensures
        keep_newest(seq![r] + before, limit).len() <= limit,
        keep_newest(seq![r] + before, limit).len() == if before.len() + 1 <= limit {
            before.len() + 1
        } else {
            limit
        },
        keep_newest(seq![r] + before, limit)[0] == r,
        forall|i: int|
            1 <= i < keep_newest(seq![r] + before, limit).len() ==> keep_newest(
                seq![r] + before,
                limit,
            )[i] == before[i - 1],
{
}


// ---------------------------------------------------------------------------
// Counts
// ---------------------------------------------------------------------------

/// The record counts for protocol `only` (every protocol for `None`).
pub open spec fn counted(r: RecordView, only: Option<ProtocolFamily>) -> bool {
    match only {
        Some(p) => r.protocol == p,
        None => true,
    }
}

/// The number of counted records that `name` won.
pub open spec fn wins_of(rs: Seq<RecordView>, name: Seq<char>, only: Option<ProtocolFamily>) -> nat
    decreases rs.len(),
{
    if rs.len() == 0 {
        0
    } else {
        wins_of(rs.drop_last(), name, only) + if counted(rs.last(), only) && rs.last().winner == Some(
            name,
        ) {
            1nat
        } else {
            0nat
        }
    }
}

/// The number of counted records.
pub open spec fn races_of(rs: Seq<RecordView>, only: Option<ProtocolFamily>) -> nat
    decreases rs.len(),
{
    if rs.len() == 0 {
        0
    } else {
        races_of(rs.drop_last(), only) + if counted(rs.last(), only) {
            1nat
        } else {
            0nat
        }
    }
}

/// The number of counted records that nobody won.
pub open spec fn failures_of(rs: Seq<RecordView>, only: Option<ProtocolFamily>) -> nat
    decreases rs.len(),
{
    if rs.len() == 0 {
        0
    } else {
        failures_of(rs.drop_last(), only) + if counted(rs.last(), only) && rs.last().winner is None {
            1nat
        } else {
            0nat
        }
    }
}

/// The total duration of the counted records.
pub open spec fn duration_of(rs: Seq<RecordView>, only: Option<ProtocolFamily>) -> nat
    decreases rs.len(),
{
    if rs.len() == 0 {
        0
    } else {
        duration_of(rs.drop_last(), only) + if counted(rs.last(), only) {
            rs.last().duration_ms as nat
        } else {
            0nat
        }
    }
}

/// The total number of buffered events of the counted records.
pub open spec fn buffered_of(rs: Seq<RecordView>, only: Option<ProtocolFamily>) -> nat
    decreases rs.len(),
{
    if rs.len() == 0 {
        0
    } else {
        buffered_of(rs.drop_last(), only) + if counted(rs.last(), only) {
            rs.last().buffer_events as nat
        } else {
            0nat
        }
    }
}

/// The views of a list of counts.
pub open spec fn counts_view(v: Seq<NameCount>) -> Seq<(Seq<char>, u64)> {
    v.map_values(|c: NameCount| (c.name@, c.count))
}

/// `t` counts the wins among `rs`: one entry per name that won a counted
/// record, holding its number of wins, and no other entry.
pub open spec fn tallies_wins(t: Seq<(Seq<char>, u64)>, rs: Seq<RecordView>, only: Option<ProtocolFamily>) -> bool {
    &&& forall|i: int, j: int| 0 <= i < j < t.len() ==> (#[trigger] t[i]).0 != (#[trigger] t[j]).0
    &&& forall|i: int|
        0 <= i < t.len() ==> (#[trigger] t[i]).1 == wins_of(rs, t[i].0, only) && t[i].1 > 0
    &&& forall|name: Seq<char>|
        #[trigger] wins_of(rs, name, only) > 0 ==> exists|i: int| 0 <= i < t.len() && (#[trigger] t[i]).0 == name
}

proof fn lemma_counts_bounded(rs: Seq<RecordView>, name: Seq<char>, only: Option<ProtocolFamily>)
    ensures
        wins_of(rs, name, only) <= rs.len(),
        races_of(rs, only) <= rs.len(),
        failures_of(rs, only) <= rs.len(),
        duration_of(rs, only) <= rs.len() * 0xffff_ffff_ffff_ffffnat,
        buffered_of(rs, only) <= rs.len() * 0xffff_ffff_ffff_ffffnat,
    decreases rs.len(),
{
    if rs.len() > 0 {
        lemma_counts_bounded(rs.drop_last(), name, only);
        assert(rs.len() * 0xffff_ffff_ffff_ffffnat == (rs.len() - 1) * 0xffff_ffff_ffff_ffffnat
            + 0xffff_ffff_ffff_ffffnat) by (nonlinear_arith);
    }
}

/// The records of a log, in order.
fn records_view_of(v: &VecDeque<RaceRecord>) -> (r: Ghost<Seq<RecordView>>)
    ensures
        r@ == v@.map_values(|x: RaceRecord| x@),
{
    Ghost(v@.map_values(|x: RaceRecord| x@))
}

/// Position of the count of `name`.
fn find_name(t: &Vec<NameCount>, name: &str) -> (r: Option<usize>)
    ensures
        match r {
            Some(k) => k < t.len() && t@[k as int].name@ == name@,
            None => forall|j: int| 0 <= j < t.len() ==> (#[trigger] t@[j]).name@ != name@,
        },
{
    let mut k: usize = 0;
    while k < t.len()
        invariant
            k <= t.len(),
            forall|j: int| 0 <= j < k ==> (#[trigger] t@[j]).name@ != name@,
        decreases t.len() - k,
    {
        if str_eq(t[k].name.as_str(), name) {
            return Some(k);
        }
        k += 1;
    }
    None
}

/// The wins among the records counted for `only`.
fn tally_wins(records: &VecDeque<RaceRecord>, only: Option<ProtocolFamily>) -> (r: Vec<NameCount>)
    ensures
        tallies_wins(counts_view(r@), records@.map_values(|x: RaceRecord| x@), only),
{
    let ghost rs = records@.map_values(|x: RaceRecord| x@);
    let mut t: Vec<NameCount> = Vec::new();
    let mut i: usize = 0;
    while i < records.len()
        invariant
            i <= records.len(),
            rs == records@.map_values(|x: RaceRecord| x@),
            tallies_wins(counts_view(t@), rs.take(i as int), only),
        decreases records.len() - i,
    {
        let r = &records[i];
        assert(rs[i as int] == r@);
        let ghost pre = rs.take(i as int);
        let ghost post = rs.take(i + 1);
        assert(post.drop_last() =~= pre);
        assert(post.last() == r@);
        let matches = match only {
            Some(p) => r.protocol == p,
            None => true,
        };
        let ghost tv0 = counts_view(t@);
        match &r.winner {
            Some(w) => {
                if matches {
                    let found_at = find_name(&t, w.as_str());
                    proof {
                        lemma_counts_bounded(pre, w@, only);
                    }
                    if found_at.is_some() {
                        let k = found_at.unwrap();
                        assert(tv0[k as int].0 == w@);
                        assert(tv0[k as int].1 == wins_of(pre, w@, only));
                        let c = t[k].count;
                        let entry = NameCount { name: w.clone(), count: c + 1 };
                        t.set(k, entry);
                        proof {
                            let tv = counts_view(t@);
                            assert(tv =~= tv0.update(k as int, (w@, (c + 1) as u64)));
                            assert forall|name: Seq<char>| #[trigger] wins_of(post, name, only)
                                == wins_of(pre, name, only) + if name == w@ {
                                1nat
                            } else {
                                0nat
                            } by {}
                            assert forall|name: Seq<char>| #[trigger] wins_of(post, name, only) > 0
                                implies exists|j: int| 0 <= j < tv.len() && (#[trigger] tv[j]).0 == name by {
                                if name == w@ {
                                    assert(tv[k as int].0 == name);
                                } else {
                                    let j = choose|j: int| 0 <= j < tv0.len() && (#[trigger] tv0[j]).0 == name;
                                    assert(tv[j] == tv0[j]);
                                }
                            }
                        }
                    } else {
                        assert(wins_of(pre, w@, only) == 0) by {
                            if wins_of(pre, w@, only) > 0 {
                                let j = choose|j: int| 0 <= j < tv0.len() && (#[trigger] tv0[j]).0 == w@;
                                assert(t@[j].name@ == w@);
                            }
                        }
                        t.push(NameCount { name: w.clone(), count: 1 });
                        proof {
                            let tv = counts_view(t@);
                            assert(tv =~= tv0.push((w@, 1u64)));
                            assert forall|name: Seq<char>| #[trigger] wins_of(post, name, only)
                                == wins_of(pre, name, only) + if name == w@ {
                                1nat
                            } else {
                                0nat
                            } by {}
                            assert forall|name: Seq<char>| #[trigger] wins_of(post, name, only) > 0
                                implies exists|j: int| 0 <= j < tv.len() && (#[trigger] tv[j]).0 == name by {
                                if name == w@ {
                                    assert(tv[tv0.len() as int].0 == name);
                                } else {
                                    let j = choose|j: int| 0 <= j < tv0.len() && (#[trigger] tv0[j]).0 == name;
                                    assert(tv[j] == tv0[j]);
                                }
                            }
                            assert forall|a: int, b: int| 0 <= a < b < tv.len() implies (#[trigger] tv[a]).0
                                != (#[trigger] tv[b]).0 by {
                                if b == tv0.len() {
                                    assert(t@[a].name@ != w@);
                                }
                            }
                        }
                    }
                } else {
                    proof {
                        assert forall|name: Seq<char>| #[trigger] wins_of(post, name, only)
                            == wins_of(pre, name, only) by {}
                    }
                }
            },
            None => {
                proof {
                    assert forall|name: Seq<char>| #[trigger] wins_of(post, name, only) == wins_of(
                        pre,
                        name,
                        only,
                    ) by {}
                }
            },
        }
        i += 1;
    }
    assert(rs.take(records.len() as int) =~= rs);
    t
}

/// The counts of the records of protocol `p`.
fn protocol_stats(records: &VecDeque<RaceRecord>, p: ProtocolFamily) -> (r: ProtocolStatsSnapshot)
    ensures
        ({
            let rs = records@.map_values(|x: RaceRecord| x@);
            &&& r.protocol@ == protocol_name(p)
            &&& r.total == races_of(rs, Some(p))
            &&& tallies_wins(counts_view(r.wins@), rs, Some(p))
            &&& r.total_race_duration_ms == duration_of(rs, Some(p))
            &&& r.total_buffer_events == buffered_of(rs, Some(p))
            &&& r.all_failed_count == failures_of(rs, Some(p))
        }),
{
    let ghost rs = records@.map_values(|x: RaceRecord| x@);
    let mut total: u64 = 0;
    let mut failed: u64 = 0;
    let mut duration: u128 = 0;
    let mut buffered: u128 = 0;
    let mut i: usize = 0;
    while i < records.len()
        invariant
            i <= records.len(),
            rs == records@.map_values(|x: RaceRecord| x@),
            total == races_of(rs.take(i as int), Some(p)),
            failed == failures_of(rs.take(i as int), Some(p)),
            duration == duration_of(rs.take(i as int), Some(p)),
            buffered == buffered_of(rs.take(i as int), Some(p)),
        decreases records.len() - i,
    {
        let r = &records[i];
        assert(rs[i as int] == r@);
        let ghost pre = rs.take(i as int);
        let ghost post = rs.take(i + 1);
        assert(post.drop_last() =~= pre);
        proof {
            lemma_counts_bounded(pre, seq![], Some(p));
            assert(pre.len() == i);
            assert(i * 0xffff_ffff_ffff_ffffnat + 0xffff_ffff_ffff_ffffnat < 0x1_0000_0000_0000_0000_0000_0000_0000_0000nat)
                by (nonlinear_arith)
                requires
                    i < 0x1_0000_0000_0000_0000nat,
            ;
        }
        if r.protocol == p {
            total = total + 1;
            duration = duration + r.duration_ms as u128;
            buffered = buffered + r.buffer_events as u128;
            if r.winner.is_none() {
                failed = failed + 1;
            }
        }
        i += 1;
    }
    assert(rs.take(records.len() as int) =~= rs);
    ProtocolStatsSnapshot {
        protocol: protocol_label(p).to_string(),
        total,
        wins: tally_wins(records, Some(p)),
        total_race_duration_ms: duration,
        total_buffer_events: buffered,
        all_failed_count: failed,
    }
}

/// The protocols in the order of their labels.
pub open spec fn protocols_by_label() -> Seq<ProtocolFamily> {
    seq![ProtocolFamily::Anthropic, ProtocolFamily::Google, ProtocolFamily::OpenAi]
}

/// The protocols that ran at least one of `rs`, in the order of their
/// labels.
pub open spec fn protocols_present(rs: Seq<RecordView>) -> Seq<ProtocolFamily> {
    protocols_by_label().filter(|p: ProtocolFamily| races_of(rs, Some(p)) > 0)
}

impl RaceStats {
    /// The counts of the kept records: their number; the wins of each
    /// winner; per protocol that ran (in label order) its number of races;
    /// per such protocol its races, wins, totals and races nobody won; and
    /// the totals of durations and buffered events (averages are totals
    /// divided by the number of races).
    pub fn snapshot(&self) -> (r: RaceStatsSnapshot)
        ensures
            r.total_races == self.records().len(),
            tallies_wins(counts_view(r.winner_distribution@), self.records(), None),
            r.total_race_duration_ms == duration_of(self.records(), None),
            r.total_buffer_events == buffered_of(self.records(), None),
            counts_view(r.protocol_distribution@) == protocols_present(self.records()).map_values(
                |p: ProtocolFamily| (protocol_name(p), races_of(self.records(), Some(p)) as u64),
            ),
            r.by_protocol.len() == protocols_present(self.records()).len(),
            forall|i: int|
                0 <= i < r.by_protocol.len() ==> {
                    let p = protocols_present(self.records())[i];
                    let s = #[trigger] r.by_protocol@[i];
                    &&& s.protocol@ == protocol_name(p)
                    &&& s.total == races_of(self.records(), Some(p))
                    &&& tallies_wins(counts_view(s.wins@), self.records(), Some(p))
                    &&& s.total_race_duration_ms == duration_of(self.records(), Some(p))
                    &&& s.total_buffer_events == buffered_of(self.records(), Some(p))
                    &&& s.all_failed_count == failures_of(self.records(), Some(p))
                },
    {
        let ghost rs = self.records();
        let mut duration: u128 = 0;
        let mut buffered: u128 = 0;
        let mut i: usize = 0;
        while i < self.records.len()
            invariant
                i <= self.records.len(),
                rs == self.records@.map_values(|x: RaceRecord| x@),
                duration == duration_of(rs.take(i as int), None),
                buffered == buffered_of(rs.take(i as int), None),
            decreases self.records.len() - i,
        {
            let r = &self.records[i];
            assert(rs[i as int] == r@);
            let ghost pre = rs.take(i as int);
            assert(rs.take(i + 1).drop_last() =~= pre);
            proof {
                lemma_counts_bounded(pre, seq![], None);
                assert(i * 0xffff_ffff_ffff_ffffnat + 0xffff_ffff_ffff_ffffnat < 0x1_0000_0000_0000_0000_0000_0000_0000_0000nat)
                    by (nonlinear_arith)
                    requires
                        i < 0x1_0000_0000_0000_0000nat,
                ;
            }
            duration = duration + r.duration_ms as u128;
            buffered = buffered + r.buffer_events as u128;
            i += 1;
        }
        assert(rs.take(self.records.len() as int) =~= rs);
        let mut protocol_distribution: Vec<NameCount> = Vec::new();
        let mut by_protocol: Vec<ProtocolStatsSnapshot> = Vec::new();
        let order = [ProtocolFamily::Anthropic, ProtocolFamily::Google, ProtocolFamily::OpenAi];
        let mut k: usize = 0;
        while k < 3
            invariant
                k <= 3,
                order@ == protocols_by_label(),
                rs == self.records@.map_values(|x: RaceRecord| x@),
                counts_view(protocol_distribution@) == protocols_by_label().take(k as int).filter(
                    |p: ProtocolFamily| races_of(rs, Some(p)) > 0,
                ).map_values(|p: ProtocolFamily| (protocol_name(p), races_of(rs, Some(p)) as u64)),
                by_protocol.len() == protocols_by_label().take(k as int).filter(
                    |p: ProtocolFamily| races_of(rs, Some(p)) > 0,
                ).len(),
                forall|i: int|
                    0 <= i < by_protocol.len() ==> {
                        let p = protocols_by_label().take(k as int).filter(
                            |p: ProtocolFamily| races_of(rs, Some(p)) > 0,
                        )[i];
                        let s = #[trigger] by_protocol@[i];
                        &&& s.protocol@ == protocol_name(p)
                        &&& s.total == races_of(rs, Some(p))
                        &&& tallies_wins(counts_view(s.wins@), rs, Some(p))
                        &&& s.total_race_duration_ms == duration_of(rs, Some(p))
                        &&& s.total_buffer_events == buffered_of(rs, Some(p))
                        &&& s.all_failed_count == failures_of(rs, Some(p))
                    },
            decreases 3 - k,
        {
            let p = order[k];
            let stats = protocol_stats(&self.records, p);
            let ghost f = |q: ProtocolFamily| races_of(rs, Some(q)) > 0;
            let ghost g = |q: ProtocolFamily| (protocol_name(q), races_of(rs, Some(q)) as u64);
            proof {
                let pre = protocols_by_label().take(k as int);
                let post = protocols_by_label().take(k + 1);
                assert(post =~= pre.push(p));
                broadcast use vstd::seq_lib::group_filter_ensures;

                assert(post.filter(f) == if f(p) {
                    pre.filter(f).push(p)
                } else {
                    pre.filter(f)
                }) by {
                    assert(post.drop_last() =~= pre);
                    reveal_with_fuel(Seq::<_>::filter, 2);
                }
            }
            if stats.total > 0 {
                let label = protocol_label(p).to_string();
                let count = stats.total;
                let ghost before = counts_view(protocol_distribution@);
                protocol_distribution.push(NameCount { name: label, count });
                by_protocol.push(stats);
                proof {
                    let pre = protocols_by_label().take(k as int).filter(f);
                    assert(counts_view(protocol_distribution@) =~= before.push(g(p)));
                    assert(pre.push(p).map_values(g) =~= pre.map_values(g).push(g(p)));
                }
            }
            k += 1;
        }
        proof {
            assert(protocols_by_label().take(3) =~= protocols_by_label());
        }
        RaceStatsSnapshot {
            total_races: self.records.len() as u64,
            winner_distribution: tally_wins(&self.records, None),
            protocol_distribution,
            by_protocol,
            total_race_duration_ms: duration,
            total_buffer_events: buffered,
        }
    }
}

} // verus!
