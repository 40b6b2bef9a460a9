//! The decisions of a race: which candidate wins, when to look again, how
//! the shared buffer is accounted, and what is reported when all fail.
//!
//! Times are nanoseconds since the race started; a candidate's response
//! protection window is its `response_protection_timeout_ms`.
use vstd::prelude::*;

use crate::domain::types::{
    CandidateView, KeyValue, RaceCandidate, RaceKey, RaceTargetEndpoint,
};
use crate::text::push_str;

verus! {

/// Default limit on events buffered across all candidates of a race.
pub const MAX_BUFFER_EVENTS: usize = 100_000;

/// Default limit on bytes buffered across all candidates of a race.
pub const MAX_BUFFER_BYTES: usize = 16777216;

/// Default time a candidate may wait for room in its queue before a winner
/// is chosen.
pub const BUFFER_BACKPRESSURE_TIMEOUT_MS: u64 = 100;

/// Limits applied while a race buffers the candidates' events.
#[derive(Debug, Clone, Copy, PartialEq, Eq, Structural)]
pub struct RaceExecutionSettings {
    pub max_buffer_events: usize,
    pub max_buffer_bytes: usize,
    pub buffer_backpressure_timeout_ms: u64,
}

impl Default for RaceExecutionSettings {
    fn default() -> (r: Self)
        ensures
            r == (RaceExecutionSettings {
                max_buffer_events: MAX_BUFFER_EVENTS,
                max_buffer_bytes: MAX_BUFFER_BYTES,
                buffer_backpressure_timeout_ms: BUFFER_BACKPRESSURE_TIMEOUT_MS,
            }),
    {
        RaceExecutionSettings {
            max_buffer_events: MAX_BUFFER_EVENTS,
            max_buffer_bytes: MAX_BUFFER_BYTES,
            buffer_backpressure_timeout_ms: BUFFER_BACKPRESSURE_TIMEOUT_MS,
        }
    }
}

/// Which closing events a candidate's stream has already carried.
#[derive(Debug, Clone, Copy, PartialEq, Eq, Structural)]
pub struct ProtocolFlags {
    pub emitted_done: bool,
    pub emitted_finish: bool,
    pub emitted_message_delta: bool,
    pub emitted_message_stop: bool,
}

impl Default for ProtocolFlags {
    fn default() -> (r: Self)
        ensures
            !r.emitted_done && !r.emitted_finish && !r.emitted_message_delta
                && !r.emitted_message_stop,
    {
        ProtocolFlags {
            emitted_done: false,
            emitted_finish: false,
            emitted_message_delta: false,
            emitted_message_stop: false,
        }
    }
}

/// A candidate's weight at the start of a race; the weights are IEEE-754
/// bit patterns.
#[derive(Debug, PartialEq, Eq)]
pub struct CandidateWeightSnapshot {
    pub initial_weight_bits: u64,
    pub effective_weight_bits: u64,
    pub weight_deviation_bits: u64,
    pub status: String,
}

impl Clone for CandidateWeightSnapshot {
    fn clone(&self) -> (r: Self)
        ensures
            r == *self,
    {
        CandidateWeightSnapshot {
            initial_weight_bits: self.initial_weight_bits,
            effective_weight_bits: self.effective_weight_bits,
            weight_deviation_bits: self.weight_deviation_bits,
            status: self.status.clone(),
        }
    }
}

/// A candidate that takes part in a race, with the key it will use.
#[derive(Debug)]
pub struct RaceParticipant {
    pub candidate: RaceCandidate,
    pub endpoint: RaceTargetEndpoint,
    pub selected_key: RaceKey,
    pub masked_key: String,
}

/// What a race knows of one candidate while it runs.
#[derive(Debug)]
pub struct CandidateState {
    pub candidate: RaceCandidate,
    pub launched_at: Option<u128>,
    pub first_content_at: Option<u128>,
    pub winner_selected: bool,
    pub failed: bool,
    pub ended: bool,
    pub error: Option<String>,
    pub buffered_count: usize,
    pub buffered_bytes: usize,
    pub api_key_masked: String,
    pub relative_delay_ns: u128,
    pub weight_snapshot: CandidateWeightSnapshot,
    pub protocol_flags: ProtocolFlags,
    pub protocol_open_blocks: Vec<usize>,
}

impl CandidateState {
    /// The state of a candidate that has not been launched yet.
    pub fn new(
        candidate: RaceCandidate,
        api_key_masked: String,
        relative_delay_ns: u128,
        weight_snapshot: CandidateWeightSnapshot,
    ) -> (r: Self)
        ensures
            r.candidate == candidate,
            r.api_key_masked == api_key_masked,
            r.relative_delay_ns == relative_delay_ns,
            r.weight_snapshot == weight_snapshot,
            r.launched_at.is_none(),
            r.first_content_at.is_none(),
            !r.winner_selected && !r.failed && !r.ended,
            r.error.is_none(),
            r.buffered_count == 0 && r.buffered_bytes == 0,
            r.protocol_flags == (ProtocolFlags {
                emitted_done: false,
                emitted_finish: false,
                emitted_message_delta: false,
                emitted_message_stop: false,
            }),
            r.protocol_open_blocks@.len() == 0,
    {
        CandidateState {
            candidate,
            launched_at: None,
            first_content_at: None,
            winner_selected: false,
            failed: false,
            ended: false,
            error: None,
            buffered_count: 0,
            buffered_bytes: 0,
            api_key_masked,
            relative_delay_ns,
            weight_snapshot,
            protocol_flags: ProtocolFlags::default(),
            protocol_open_blocks: Vec::new(),
        }
    }
}

/// The error text recorded when the shared event budget overflows.
pub open spec fn buffer_overflow_text() -> Seq<char> {
    "buffer overflow"@
}

/// The error text recorded when the shared byte budget overflows.
pub open spec fn buffer_bytes_overflow_text() -> Seq<char> {
    "buffer bytes overflow"@
}

/// A candidate has content a client could be given: it produced content and
/// was not dropped for overflowing the event budget.
pub open spec fn usable(first_content_at: Option<u128>, error: Option<Seq<char>>) -> bool {
    first_content_at.is_some() && error != Some(buffer_overflow_text())
}

/// The view of an optional string.
pub open spec fn opt_chars(o: Option<String>) -> Option<Seq<char>> {
    match o {
        Some(s) => Some(s@),
        None => None,
    }
}

/// Whether a candidate has usable content.
pub fn has_usable_content(state: &CandidateState) -> (r: bool)
    ensures
        r == usable(state.first_content_at, opt_chars(state.error)),
{
    if state.first_content_at.is_none() {
        return false;
    }
    match &state.error {
        None => true,
        Some(e) => {
            let overflow = String::from_str("buffer overflow");
            !(*e == overflow)
        },
    }
}

/// What the winner search reads of one candidate, in ranking order.
#[derive(Debug)]
pub struct CandidateLoopSnapshot {
    pub name: String,
    pub launched_at: Option<u128>,
    pub first_content_at: Option<u128>,
    pub failed: bool,
    pub ended: bool,
    pub usable: bool,
}

/// The winner-search snapshot of a candidate state.
pub fn loop_snapshot(state: &CandidateState) -> (r: CandidateLoopSnapshot)
    ensures
        r.name == state.candidate.name,
        r.launched_at == state.launched_at,
        r.first_content_at == state.first_content_at,
        r.failed == state.failed,
        r.ended == state.ended,
        r.usable == usable(state.first_content_at, opt_chars(state.error)),
{
    CandidateLoopSnapshot {
        name: state.candidate.name.clone(),
        launched_at: state.launched_at,
        first_content_at: state.first_content_at,
        failed: state.failed,
        ended: state.ended,
        usable: has_usable_content(state),
    }
}

/// The length of a protection window given in milliseconds, in
/// nanoseconds.
pub open spec fn window_ns(timeout_ms: u64) -> int {
    timeout_ms * 1_000_000
}

/// Time elapsed from `since` to `now`, zero when `since` is later.
pub open spec fn elapsed_ns(now: u128, since: u128) -> int {
    if now >= since {
        now - since
    } else {
        0
    }
}

/// Candidate `j` (ranked higher) still protects its lead at `now`: it has
/// not failed, it has been launched, and its protection window since launch
/// has not run out.
pub open spec fn protects(timeouts: Seq<u64>, snaps: Seq<CandidateLoopSnapshot>, j: int, now: u128) -> bool {
    &&& !snaps[j].failed
    &&& snaps[j].launched_at.is_some()
    &&& elapsed_ns(now, snaps[j].launched_at.unwrap()) < window_ns(timeouts[j])
}

/// Some candidate ranked above `i` still protects its lead at `now`.
pub open spec fn still_protected(timeouts: Seq<u64>, snaps: Seq<CandidateLoopSnapshot>, i: int, now: u128) -> bool {
    exists|j: int|
        0 <= j < i && j < timeouts.len() && j < snaps.len() && protects(timeouts, snaps, j, now)
}

/// Whether a candidate ranked above `candidate_index` is still within its
/// response protection window at `now`.
pub fn higher_priority_candidate_still_protected(
    timeouts_ms: &Vec<u64>,
    snapshots: &Vec<CandidateLoopSnapshot>,
    candidate_index: usize,
    now: u128,
) -> (r: bool)
    ensures
        r == still_protected(timeouts_ms@, snapshots@, candidate_index as int, now),
{
    let mut j: usize = 0;
    while j < candidate_index && j < timeouts_ms.len() && j < snapshots.len()
        invariant
            j <= candidate_index,
            j <= timeouts_ms.len(),
            j <= snapshots.len(),
            forall|k: int| 0 <= k < j ==> !protects(timeouts_ms@, snapshots@, k, now),
        decreases candidate_index - j,
    {
        let s = &snapshots[j];
        if !s.failed {
            if let Some(launched_at) = s.launched_at {
                let elapsed: u128 = if now >= launched_at {
                    now - launched_at
                } else {
                    0
                };
                let window: u128 = (timeouts_ms[j] as u128) * 1_000_000u128;
                if elapsed < window {
                    assert(protects(timeouts_ms@, snapshots@, j as int, now));
                    return true;
                }
            }
        }
        j += 1;
    }
    false
}

/// Candidate `i` could win at `now`: it is not failed without usable
/// content, it produced content, and no higher-ranked candidate still
/// protects its lead.
pub open spec fn can_win(timeouts: Seq<u64>, snaps: Seq<CandidateLoopSnapshot>, i: int, now: u128) -> bool {
    &&& !(snaps[i].failed && !snaps[i].usable)
    &&& snaps[i].first_content_at.is_some()
    &&& !still_protected(timeouts, snaps, i, now)
}

/// The winner at `now`: the highest-ranked candidate that could win.
pub fn winner_from_snapshots(
    timeouts_ms: &Vec<u64>,
    snapshots: &Vec<CandidateLoopSnapshot>,
    now: u128,
) -> (r: Option<usize>)
    ensures
        match r {
            Some(i) => i < snapshots.len() && can_win(timeouts_ms@, snapshots@, i as int, now)
                && forall|k: int| 0 <= k < i ==> !can_win(timeouts_ms@, snapshots@, k, now),
            None => forall|k: int|
                0 <= k < snapshots.len() ==> !can_win(timeouts_ms@, snapshots@, k, now),
        },
{
    let mut i: usize = 0;
    while i < snapshots.len()
        invariant
            i <= snapshots.len(),
            forall|k: int| 0 <= k < i ==> !can_win(timeouts_ms@, snapshots@, k, now),
        decreases snapshots.len() - i,
    {
        let s = &snapshots[i];
        if !(s.failed && !s.usable) && s.first_content_at.is_some()
            && !higher_priority_candidate_still_protected(timeouts_ms, snapshots, i, now) {
            return Some(i);
        }
        i += 1;
    }
    None
}

/// The highest-ranked candidate with usable content.
pub fn first_usable_candidate(snapshots: &Vec<CandidateLoopSnapshot>) -> (r: Option<usize>)
    ensures
        match r {
            Some(i) => i < snapshots.len() && snapshots@[i as int].usable && forall|k: int|
                0 <= k < i ==> !snapshots@[k].usable,
            None => forall|k: int| 0 <= k < snapshots.len() ==> !snapshots@[k].usable,
        },
{
    let mut i: usize = 0;
    while i < snapshots.len()
        invariant
            i <= snapshots.len(),
            forall|k: int| 0 <= k < i ==> !snapshots@[k].usable,
        decreases snapshots.len() - i,
    {
        if snapshots[i].usable {
            return Some(i);
        }
        i += 1;
    }
    None
}

/// A candidate `i` waiting on the lead of candidate `j` ranked above it:
/// `i` has content and is not failed without usable content, `j` protects
/// its lead.
pub open spec fn waits_on(timeouts: Seq<u64>, snaps: Seq<CandidateLoopSnapshot>, i: int, j: int, now: u128) -> bool {
    &&& 0 <= j < i < snaps.len()
    &&& j < timeouts.len()
    &&& !(snaps[i].failed && !snaps[i].usable)
    &&& snaps[i].first_content_at.is_some()
    &&& protects(timeouts, snaps, j, now)
}

/// How long until candidate `j`'s protection window runs out.
pub open spec fn remaining_window(timeouts: Seq<u64>, snaps: Seq<CandidateLoopSnapshot>, j: int, now: u128) -> int {
    window_ns(timeouts[j]) - elapsed_ns(now, snaps[j].launched_at.unwrap())
}

/// `d` is the earliest moment, from `now`, at which a protection window
/// that holds back a candidate with content runs out.
pub open spec fn earliest_release(timeouts: Seq<u64>, snaps: Seq<CandidateLoopSnapshot>, now: u128, d: int) -> bool {
    &&& exists|i: int, j: int|
        waits_on(timeouts, snaps, i, j, now) && remaining_window(timeouts, snaps, j, now) == d
    &&& forall|i: int, j: int|
        waits_on(timeouts, snaps, i, j, now) ==> d <= remaining_window(timeouts, snaps, j, now)
}

/// When to look for a winner again: the earliest moment at which a
/// protection window that holds back a candidate with content runs out;
/// `None` when no candidate with content is held back.
pub fn next_winner_recheck_delay(
    timeouts_ms: &Vec<u64>,
    snapshots: &Vec<CandidateLoopSnapshot>,
    now: u128,
) -> (r: Option<u128>)
    ensures
        match r {
            Some(d) => earliest_release(timeouts_ms@, snapshots@, now, d as int),
            None => forall|i: int, j: int| !waits_on(timeouts_ms@, snapshots@, i, j, now),
        },
{
    let ghost ts = timeouts_ms@;
    let ghost ss = snapshots@;
    let mut next: Option<u128> = None;
    let mut i: usize = 0;
    while i < snapshots.len()
        invariant
            i <= snapshots.len(),
            ts == timeouts_ms@,
            ss == snapshots@,
            match next {
                Some(d) => (exists|a: int, b: int|
                    a < i && waits_on(ts, ss, a, b, now) && remaining_window(ts, ss, b, now) == d)
                    && forall|a: int, b: int|
                    a < i && waits_on(ts, ss, a, b, now) ==> d <= remaining_window(ts, ss, b, now),
                None => forall|a: int, b: int| a < i ==> !waits_on(ts, ss, a, b, now),
            },
        decreases snapshots.len() - i,
    {
        let s = &snapshots[i];
        if !(s.failed && !s.usable) && s.first_content_at.is_some() {
            let mut j: usize = 0;
            while j < i && j < timeouts_ms.len()
                invariant
                    i < snapshots.len(),
                    j <= i,
                    j <= timeouts_ms.len(),
                    ts == timeouts_ms@,
                    ss == snapshots@,
                    !(ss[i as int].failed && !ss[i as int].usable),
                    ss[i as int].first_content_at.is_some(),
                    match next {
                        Some(d) => (exists|a: int, b: int|
                            (a < i || (a == i && b < j)) && waits_on(ts, ss, a, b, now)
                                && remaining_window(ts, ss, b, now) == d) && forall|a: int, b: int|
                            (a < i || (a == i && b < j)) && waits_on(ts, ss, a, b, now) ==> d
                                <= remaining_window(ts, ss, b, now),
                        None => forall|a: int, b: int|
                            (a < i || (a == i && b < j)) ==> !waits_on(ts, ss, a, b, now),
                    },
                decreases i - j,
            {
                let h = &snapshots[j];
                if !h.failed {
                    if let Some(launched_at) = h.launched_at {
                        let elapsed: u128 = if now >= launched_at {
                            now - launched_at
                        } else {
                            0
                        };
                        let window: u128 = (timeouts_ms[j] as u128) * 1_000_000u128;
                        if elapsed < window {
                            let remaining = window - elapsed;
                            assert(waits_on(ts, ss, i as int, j as int, now));
                            assert(remaining_window(ts, ss, j as int, now) == remaining);
                            next = match next {
                                Some(current) => if remaining < current {
                                    Some(remaining)
                                } else {
                                    Some(current)
                                },
                                None => Some(remaining),
                            };
                        }
                    }
                }
                j += 1;
            }
            proof {
                assert forall|b: int| j <= b && waits_on(ts, ss, i as int, b, now) implies false by {
                }
            }
        }
        i += 1;
    }
    next
}

/// The longest a race waits for a winner, in milliseconds: the group's
/// limit when it has one, else three times the largest protection timeout
/// of its candidates (one second when it has none).
pub open spec fn max_wait_ms(limit: Option<u64>, timeouts: Seq<u64>) -> int {
    match limit {
        Some(ms) => ms as int,
        None => 3 * (if timeouts.len() == 0 {
            1000
        } else {
            seq_max(timeouts)
        }),
    }
}

/// The largest element of a non-empty sequence.
pub open spec fn seq_max(s: Seq<u64>) -> int
    decreases s.len(),
{
    if s.len() == 0 {
        0
    } else if s.len() == 1 {
        s[0] as int
    } else {
        let m = seq_max(s.drop_last());
        if s.last() > m {
            s.last() as int
        } else {
            m
        }
    }
}

/// The longest a race waits for a winner, in milliseconds.
pub fn race_max_wait_ms(limit: Option<u64>, timeouts_ms: &Vec<u64>) -> (r: u64)
    requires
        limit.is_none() ==> max_wait_ms(limit, timeouts_ms@) <= u64::MAX,
    ensures
        r == max_wait_ms(limit, timeouts_ms@),
{
    match limit {
        Some(ms) => ms,
        None => {
            if timeouts_ms.len() == 0 {
                return 3000;
            }
            let mut m: u64 = timeouts_ms[0];
            let mut i: usize = 1;
            while i < timeouts_ms.len()
                invariant
                    1 <= i <= timeouts_ms.len(),
                    m == seq_max(timeouts_ms@.subrange(0, i as int)),
                decreases timeouts_ms.len() - i,
            {
                assert(timeouts_ms@.subrange(0, i + 1).drop_last() =~= timeouts_ms@.subrange(
                    0,
                    i as int,
                ));
                if timeouts_ms[i] > m {
                    m = timeouts_ms[i];
                }
                i += 1;
            }
            assert(timeouts_ms@.subrange(0, timeouts_ms.len() as int) =~= timeouts_ms@);
            m * 3
        },
    }
}

/// What the winner search does next.
#[derive(Debug, PartialEq, Eq)]
pub enum WinnerDecision {
    /// The candidate at this ranking position wins.
    Winner(usize),
    /// No candidate can win: the race has failed.
    AllFailed,
    /// Look again after this many nanoseconds, or sooner if a candidate
    /// reports progress.
    Wait(u128),
}

/// Every candidate has been launched and has ended, and none has usable
/// content.
pub open spec fn all_done_without_content(snaps: Seq<CandidateLoopSnapshot>) -> bool {
    &&& forall|i: int| 0 <= i < snaps.len() ==> snaps[i].launched_at.is_some()
    &&& forall|i: int| 0 <= i < snaps.len() ==> snaps[i].ended
    &&& forall|i: int| 0 <= i < snaps.len() ==> !snaps[i].usable
}

/// One step of the winner search at `now`, with `max_ns` the longest the
/// race may run. Past the limit, the best usable candidate wins or the race
/// fails. Before it, a candidate that can win wins; a race whose candidates
/// have all ended without content fails; otherwise the search waits until
/// the next protection window that holds back a candidate with content runs
/// out, but never past the limit.
pub open spec fn winner_step(timeouts: Seq<u64>, snaps: Seq<CandidateLoopSnapshot>, now: u128, max_ns: u128) -> WinnerDecision {
    if now > max_ns {
        if exists|i: int| 0 <= i < snaps.len() && snaps[i].usable {
            WinnerDecision::Winner(
                (choose|i: int|
                    0 <= i < snaps.len() && snaps[i].usable && forall|k: int|
                        0 <= k < i ==> !snaps[k].usable) as usize,
            )
        } else {
            WinnerDecision::AllFailed
        }
    } else if exists|i: int| 0 <= i < snaps.len() && can_win(timeouts, snaps, i, now) {
        WinnerDecision::Winner(
            (choose|i: int|
                0 <= i < snaps.len() && can_win(timeouts, snaps, i, now) && forall|k: int|
                    0 <= k < i ==> !can_win(timeouts, snaps, k, now)) as usize,
        )
    } else if all_done_without_content(snaps) {
        WinnerDecision::AllFailed
    } else {
        let remaining = max_ns - now;
        if exists|i: int, j: int| waits_on(timeouts, snaps, i, j, now) {
            let d = choose|d: int| #[trigger] earliest_release(timeouts, snaps, now, d);
            WinnerDecision::Wait(
                if d < remaining {
                    d as u128
                } else {
                    remaining as u128
                },
            )
        } else {
            WinnerDecision::Wait(remaining as u128)
        }
    }
}

/// Decides the next step of the winner search at `now` (nanoseconds since
/// the race started), given the protection timeouts and snapshots of the
/// candidates in ranking order and the race's time limit.
pub fn decide_winner(
    timeouts_ms: &Vec<u64>,
    snapshots: &Vec<CandidateLoopSnapshot>,
    now: u128,
    max_ns: u128,
) -> (r: WinnerDecision)
    ensures
        r == winner_step(timeouts_ms@, snapshots@, now, max_ns),
{
    let ghost ts = timeouts_ms@;
    let ghost ss = snapshots@;
    if now > max_ns {
        match first_usable_candidate(snapshots) {
            Some(i) => {
                proof {
                    let c = choose|c: int|
                        0 <= c < ss.len() && ss[c].usable && forall|k: int|
                            0 <= k < c ==> !ss[k].usable;
                    if c < i {
                    } else if c > i {
                    }
                    assert(c == i);
                }
                return WinnerDecision::Winner(i);
            },
            None => return WinnerDecision::AllFailed,
        }
    }
    match winner_from_snapshots(timeouts_ms, snapshots, now) {
        Some(i) => {
            proof {
                let c = choose|c: int|
                    0 <= c < ss.len() && can_win(ts, ss, c, now) && forall|k: int|
                        0 <= k < c ==> !can_win(ts, ss, k, now);
                if c < i {
                } else if c > i {
                }
                assert(c == i);
            }
            return WinnerDecision::Winner(i);
        },
        None => {},
    }
    let mut all_launched = true;
    let mut all_done = true;
    let mut any_usable = false;
    let mut i: usize = 0;
    while i < snapshots.len()
        invariant
            i <= snapshots.len(),
            all_launched == forall|k: int| 0 <= k < i ==> ss[k].launched_at.is_some(),
            all_done == forall|k: int| 0 <= k < i ==> ss[k].ended,
            any_usable == exists|k: int| 0 <= k < i && ss[k].usable,
            ss == snapshots@,
        decreases snapshots.len() - i,
    {
        let s = &snapshots[i];
        if s.launched_at.is_none() {
            all_launched = false;
        }
        if !s.ended {
            all_done = false;
        }
        if s.usable {
            any_usable = true;
        }
        i += 1;
    }
    if all_launched && all_done && !any_usable {
        return WinnerDecision::AllFailed;
    }
    let remaining = max_ns - now;
    match next_winner_recheck_delay(timeouts_ms, snapshots, now) {
        Some(d) => {
            proof {
                let c = choose|d: int| #[trigger] earliest_release(ts, ss, now, d);
                assert(earliest_release(ts, ss, now, d as int));
                assert(c == d) by {
                    let (a, b) = choose|a: int, b: int|
                        waits_on(ts, ss, a, b, now) && remaining_window(ts, ss, b, now) == c;
                    let (a2, b2) = choose|a: int, b: int|
                        waits_on(ts, ss, a, b, now) && remaining_window(ts, ss, b, now) == d;
                }
            }
            if d < remaining {
                WinnerDecision::Wait(d)
            } else {
                WinnerDecision::Wait(remaining)
            }
        },
        None => WinnerDecision::Wait(remaining),
    }
}

/// What queuing one event did.
#[derive(Debug, Clone, Copy, PartialEq, Eq, Structural)]
pub struct QueueOutcome {
    /// The candidate may keep sending events.
    pub accepted: bool,
    /// The winner search should look again.
    pub notify: bool,
}

/// Records that an event could not be handed to the candidate's queue: a
/// candidate that has not won is marked failed with `error`; the candidate's
/// stream has ended either way.
pub fn record_send_failure(state: &mut CandidateState, error: String)
    ensures
        final(state).ended,
        !old(state).winner_selected ==> final(state).failed && final(state).error == Some(error),
        old(state).winner_selected ==> final(state).failed == old(state).failed
            && final(state).error == old(state).error,
        final(state).winner_selected == old(state).winner_selected,
        final(state).first_content_at == old(state).first_content_at,
        final(state).launched_at == old(state).launched_at,
        final(state).buffered_count == old(state).buffered_count,
        final(state).buffered_bytes == old(state).buffered_bytes,
{
    if !state.winner_selected {
        state.failed = true;
        state.error = Some(error);
    }
    state.ended = true;
}

/// Records an event that was queued. Its first content marks when the
/// candidate produced content. Before a winner is chosen the event counts
/// against the race's shared budgets: `shared_before` holds the race-wide
/// event and byte totals before this event; when either total passes its
/// limit, the candidate is dropped as failed and may send nothing more.
pub fn record_queued_event(
    state: &mut CandidateState,
    has_content: bool,
    now: u128,
    event_len: usize,
    shared_before: Option<(usize, usize)>,
    settings: RaceExecutionSettings,
) -> (r: QueueOutcome)
    requires
        shared_before.is_some() == !old(state).winner_selected,
        shared_before matches Some((events, bytes)) ==> events < usize::MAX && bytes + event_len
            <= usize::MAX && old(state).buffered_count < usize::MAX && old(state).buffered_bytes
            + event_len <= usize::MAX,
    ensures
        final(state).first_content_at == if has_content && old(state).first_content_at.is_none() {
            Some(now)
        } else {
            old(state).first_content_at
        },
        final(state).winner_selected == old(state).winner_selected,
        final(state).launched_at == old(state).launched_at,
        match shared_before {
            None => {
                &&& r.accepted
                &&& r.notify == (has_content && old(state).first_content_at.is_none())
                &&& final(state).buffered_count == old(state).buffered_count
                &&& final(state).buffered_bytes == old(state).buffered_bytes
                &&& final(state).failed == old(state).failed
                &&& final(state).ended == old(state).ended
                &&& final(state).error == old(state).error
            },
            Some((events, bytes)) => {
                let over_events = events + 1 > settings.max_buffer_events;
                let over_bytes = bytes + event_len > settings.max_buffer_bytes;
                &&& final(state).buffered_count == old(state).buffered_count + 1
                &&& final(state).buffered_bytes == old(state).buffered_bytes + event_len
                &&& r.accepted == !(over_events || over_bytes)
                &&& (over_events || over_bytes) ==> {
                    &&& final(state).failed
                    &&& final(state).ended
                    &&& r.notify
                    &&& opt_chars(final(state).error) == Some(
                        if over_events {
                            buffer_overflow_text()
                        } else {
                            buffer_bytes_overflow_text()
                        },
                    )
                }
                &&& !(over_events || over_bytes) ==> {
                    &&& r.notify == (has_content && old(state).first_content_at.is_none())
                    &&& final(state).failed == old(state).failed
                    &&& final(state).ended == old(state).ended
                    &&& final(state).error == old(state).error
                }
            },
        },
{
    let mut notify = false;
    if has_content && state.first_content_at.is_none() {
        state.first_content_at = Some(now);
        notify = true;
    }
    match shared_before {
        None => QueueOutcome { accepted: true, notify },
        Some((events, bytes)) => {
            state.buffered_count = state.buffered_count + 1;
            state.buffered_bytes = state.buffered_bytes + event_len;
            let total = events + 1;
            let total_bytes = bytes + event_len;
            if total > settings.max_buffer_events || total_bytes > settings.max_buffer_bytes {
                state.failed = true;
                state.error = Some(
                    if total > settings.max_buffer_events {
                        String::from_str("buffer overflow")
                    } else {
                        String::from_str("buffer bytes overflow")
                    },
                );
                state.ended = true;
                return QueueOutcome { accepted: false, notify: true };
            }
            QueueOutcome { accepted: true, notify }
        },
    }
}

/// What the failure report reads of one candidate.
#[derive(Debug)]
pub struct ErrorProbe {
    pub name: String,
    pub failed: bool,
    pub error: Option<String>,
}

/// The reason reported for a candidate: its error, else `no content`.
pub open spec fn reason(p: ErrorProbe) -> Seq<char> {
    match p.error {
        Some(e) => e@,
        None => "no content"@,
    }
}

/// A candidate has something to report: it failed or recorded an error.
pub open spec fn has_failure(p: ErrorProbe) -> bool {
    p.failed || p.error.is_some()
}

/// The reported failures of the first `k` probes, in order.
pub open spec fn failures_prefix(ps: Seq<ErrorProbe>, k: int) -> Seq<(Seq<char>, Seq<char>)>
    decreases k,
{
    if k <= 0 {
        seq![]
    } else if has_failure(ps[k - 1]) {
        failures_prefix(ps, k - 1).push((ps[k - 1].name@, reason(ps[k - 1])))
    } else {
        failures_prefix(ps, k - 1)
    }
}

/// The per-candidate reasons reported when a race ends: every candidate
/// that failed or recorded an error with its reason; when there is none,
/// every candidate with `no content`.
pub open spec fn race_errors(ps: Seq<ErrorProbe>) -> Seq<(Seq<char>, Seq<char>)> {
    let failures = failures_prefix(ps, ps.len() as int);
    if failures.len() > 0 {
        failures
    } else {
        ps.map_values(|p: ErrorProbe| (p.name@, "no content"@))
    }
}

/// The views of a list of key-value entries.
pub open spec fn entries_view(v: Seq<KeyValue>) -> Seq<(Seq<char>, Seq<char>)> {
    v.map_values(|e: KeyValue| (e.key@, e.value@))
}

/// `a` comes before `b` in the order of `String`: character by character,
/// a proper prefix first.
pub open spec fn name_lt(a: Seq<char>, b: Seq<char>) -> bool
    decreases a.len(),
{
    if a.len() == 0 {
        b.len() > 0
    } else if b.len() == 0 {
        false
    } else if a[0] != b[0] {
        (a[0] as u32) < (b[0] as u32)
    } else {
        name_lt(a.drop_first(), b.drop_first())
    }
}

/// The probes' names are distinct and ascending, as the keys of a map
/// ordered by name are.
pub open spec fn names_ascending(ps: Seq<ErrorProbe>) -> bool {
    forall|i: int, j: int| 0 <= i < j < ps.len() ==> name_lt(#[trigger] ps[i].name@, #[trigger] ps[j].name@)
}

proof fn lemma_failures_ascending(ps: Seq<ErrorProbe>, k: int)
    requires
        names_ascending(ps),
        0 <= k <= ps.len(),
    ensures
        forall|t: int| 0 <= t < failures_prefix(ps, k).len() ==> exists|j: int|
            0 <= j < k && (#[trigger] failures_prefix(ps, k)[t]).0 == ps[j].name@,
        forall|t: int, u: int|
            0 <= t < u < failures_prefix(ps, k).len() ==> name_lt(
                (#[trigger] failures_prefix(ps, k)[t]).0,
                (#[trigger] failures_prefix(ps, k)[u]).0,
            ),
    decreases k,
{
    if k > 0 {
        lemma_failures_ascending(ps, k - 1);
        let prev = failures_prefix(ps, k - 1);
        if has_failure(ps[k - 1]) {
            let cur = failures_prefix(ps, k);
            assert(cur == prev.push((ps[k - 1].name@, reason(ps[k - 1]))));
            assert forall|t: int| 0 <= t < cur.len() implies exists|j: int|
                0 <= j < k && (#[trigger] cur[t]).0 == ps[j].name@ by {
                if t < prev.len() {
                    assert(cur[t] == prev[t]);
                    let j = choose|j: int| 0 <= j < k - 1 && (#[trigger] prev[t]).0 == ps[j].name@;
                    assert(0 <= j < k && cur[t].0 == ps[j].name@);
                } else {
                    assert(cur[t].0 == ps[k - 1].name@);
                }
            }
            assert forall|t: int, u: int| 0 <= t < u < cur.len() implies name_lt(
                (#[trigger] cur[t]).0,
                (#[trigger] cur[u]).0,
            ) by {
                assert(cur[t] == prev[t]);
                if u < prev.len() {
                    assert(cur[u] == prev[u]);
                } else {
                    let j = choose|j: int| 0 <= j < k - 1 && (#[trigger] prev[t]).0 == ps[j].name@;
                    assert(name_lt(ps[j].name@, ps[k - 1].name@));
                }
            }
        }
    }
}

/// The per-candidate reasons reported when a race ends, ordered by
/// candidate name (the probes come in that order).
pub fn collect_errors(probes: &Vec<ErrorProbe>) -> (r: Vec<KeyValue>)
    requires
        names_ascending(probes@),
    ensures
        entries_view(r@) == race_errors(probes@),
        forall|t: int, u: int| 0 <= t < u < r@.len() ==> name_lt((#[trigger] r@[t]).key@, (#[trigger] r@[u]).key@),
{
    proof {
        lemma_failures_ascending(probes@, probes@.len() as int);
    }
    let ghost ps = probes@;
    let mut out: Vec<KeyValue> = Vec::new();
    let mut i: usize = 0;
    while i < probes.len()
        invariant
            i <= probes.len(),
            ps == probes@,
            entries_view(out@) == failures_prefix(ps, i as int),
        decreases probes.len() - i,
    {
        let p = &probes[i];
        if p.failed || p.error.is_some() {
            let value = match &p.error {
                Some(e) => e.clone(),
                None => String::from_str("no content"),
            };
            let ghost before = out@;
            out.push(KeyValue { key: p.name.clone(), value });
            assert(entries_view(out@) =~= entries_view(before).push((ps[i as int].name@, reason(ps[i as int]))));
        }
        i += 1;
    }
    if out.len() == 0 {
        let mut j: usize = 0;
        while j < probes.len()
            invariant
                j <= probes.len(),
                ps == probes@,
                entries_view(out@) == ps.subrange(0, j as int).map_values(
                    |p: ErrorProbe| (p.name@, "no content"@),
                ),
            decreases probes.len() - j,
        {
            let ghost before = out@;
            let nc = String::from_str("no content");
            assert(nc@ == "no content"@);
            out.push(KeyValue { key: probes[j].name.clone(), value: nc });
            assert(entries_view(out@) =~= entries_view(before).push((ps[j as int].name@, "no content"@)));
            assert(ps.subrange(0, j + 1).map_values(|p: ErrorProbe| (p.name@, "no content"@)) =~= ps.subrange(0, j as int).map_values(|p: ErrorProbe| (p.name@, "no content"@)).push((ps[j as int].name@, "no content"@)));
            assert(entries_view(out@) =~= ps.subrange(0, j + 1).map_values(
                |p: ErrorProbe| (p.name@, "no content"@),
            ));
            j += 1;
        }
        assert(ps.subrange(0, ps.len() as int) =~= ps);
    }
    proof {
        let ev = entries_view(out@);
        assert forall|t: int, u: int| 0 <= t < u < out@.len() implies name_lt(
            (#[trigger] out@[t]).key@,
            (#[trigger] out@[u]).key@,
        ) by {
            assert(ev[t].0 == out@[t].key@ && ev[u].0 == out@[u].key@);
            if failures_prefix(ps, ps.len() as int).len() > 0 {
                assert(ev[t] == failures_prefix(ps, ps.len() as int)[t]);
                assert(ev[u] == failures_prefix(ps, ps.len() as int)[u]);
            } else {
                assert(name_lt(ps[t].name@, ps[u].name@));
            }
        }
    }
    out
}


proof fn lemma_seq_max(s: Seq<u64>)
    requires
        s.len() > 0,
    ensures
        forall|i: int| 0 <= i < s.len() ==> seq_max(s) >= s[i],
        exists|i: int| 0 <= i < s.len() && seq_max(s) == s[i],
    decreases s.len(),
{
    if s.len() == 1 {
        assert(seq_max(s) == s[0]);
    } else {
        let d = s.drop_last();
        lemma_seq_max(d);
        assert forall|i: int| 0 <= i < s.len() implies seq_max(s) >= s[i] by {
            if i < d.len() {
                assert(d[i] == s[i]);
            }
        }
        if s.last() > seq_max(d) {
            assert(seq_max(s) == s[s.len() - 1]);
        } else {
            let i = choose|i: int| 0 <= i < d.len() && seq_max(d) == d[i];
            assert(seq_max(s) == s[i]);
        }
    }
}

/// The longest a race waits: the group's limit when it has one; without a
/// limit, three seconds when there is no candidate, else three times the
/// largest protection timeout of the candidates (at least three times each
/// timeout, and three times one of them).
pub proof fn law_max_wait(limit: Option<u64>, timeouts: Seq<u64>)
    ensures
        limit matches Some(ms) ==> max_wait_ms(limit, timeouts) == ms,
        limit is None && timeouts.len() == 0 ==> max_wait_ms(limit, timeouts) == 3000,
        limit is None && timeouts.len() > 0 ==> (forall|i: int|
            0 <= i < timeouts.len() ==> max_wait_ms(limit, timeouts) >= 3 * timeouts[i]) && exists|i: int|
            0 <= i < timeouts.len() && max_wait_ms(limit, timeouts) == 3 * timeouts[i],
{
    if limit is None && timeouts.len() > 0 {
        lemma_seq_max(timeouts);
        let i = choose|i: int| 0 <= i < timeouts.len() && seq_max(timeouts) == timeouts[i];
        assert(max_wait_ms(limit, timeouts) == 3 * timeouts[i]);
    }
}


/// The winner search never crowns a candidate over the protection of a
/// higher-ranked one: before the time limit, a winner has produced content,
/// has not failed without usable content, and every higher-ranked candidate
/// that has been launched and has not failed has run at least its
/// protection timeout. Past the limit, the highest-ranked candidate with
/// usable content wins, and the race fails exactly when none has any. A race
/// fails before the limit only once every candidate has been launched and
/// ended without usable content, and the search waits only before the
/// limit.
pub proof fn law_winner_step(timeouts: Seq<u64>, snaps: Seq<CandidateLoopSnapshot>, now: u128, max_ns: u128)
    requires
        snaps.len() <= usize::MAX,
    ensures
        now <= max_ns ==> (winner_step(timeouts, snaps, now, max_ns) matches WinnerDecision::Winner(w) ==> {
            &&& w < snaps.len()
            &&& snaps[w as int].first_content_at is Some
            &&& !(snaps[w as int].failed && !snaps[w as int].usable)
            &&& forall|j: int|
                0 <= j < w && j < timeouts.len() && !(#[trigger] snaps[j]).failed && snaps[j].launched_at
                    is Some ==> (if now >= snaps[j].launched_at.unwrap() {
                    now - snaps[j].launched_at.unwrap()
                } else {
                    0
                }) >= timeouts[j] * 1_000_000
        }),
        now > max_ns ==> (winner_step(timeouts, snaps, now, max_ns) matches WinnerDecision::Winner(w) ==> w
            < snaps.len() && snaps[w as int].usable && forall|k: int| 0 <= k < w ==> !(#[trigger] snaps[k]).usable),
        now > max_ns ==> (winner_step(timeouts, snaps, now, max_ns) == WinnerDecision::AllFailed <==> forall|k: int|
            0 <= k < snaps.len() ==> !(#[trigger] snaps[k]).usable),
        now <= max_ns && winner_step(timeouts, snaps, now, max_ns) == WinnerDecision::AllFailed ==> forall|k: int|
            0 <= k < snaps.len() ==> (#[trigger] snaps[k]).launched_at is Some && snaps[k].ended && !snaps[k].usable,
        winner_step(timeouts, snaps, now, max_ns) is Wait ==> now <= max_ns,
{
    if now > max_ns {
        if exists|i: int| 0 <= i < snaps.len() && snaps[i].usable {
            let c = choose|i: int|
                0 <= i < snaps.len() && snaps[i].usable && forall|k: int| 0 <= k < i ==> !snaps[k].usable;
            assert(exists|i: int|
                0 <= i < snaps.len() && snaps[i].usable && forall|k: int| 0 <= k < i ==> !snaps[k].usable) by {
                lemma_first_usable_exists(snaps);
            }
            assert((c as usize) as int == c);
        }
    } else if exists|i: int| 0 <= i < snaps.len() && can_win(timeouts, snaps, i, now) {
        let c = choose|i: int|
            0 <= i < snaps.len() && can_win(timeouts, snaps, i, now) && forall|k: int|
                0 <= k < i ==> !can_win(timeouts, snaps, k, now);
        assert(exists|i: int|
            0 <= i < snaps.len() && can_win(timeouts, snaps, i, now) && forall|k: int|
                0 <= k < i ==> !can_win(timeouts, snaps, k, now)) by {
            lemma_first_winnable_exists(timeouts, snaps, now);
        }
        assert((c as usize) as int == c);
        assert forall|j: int|
            0 <= j < c && j < timeouts.len() && !(#[trigger] snaps[j]).failed && snaps[j].launched_at
                is Some implies (if now >= snaps[j].launched_at.unwrap() {
            now - snaps[j].launched_at.unwrap()
        } else {
            0
        }) >= timeouts[j] * 1_000_000 by {
            assert(!protects(timeouts, snaps, j, now));
        }
    }
}

proof fn lemma_first_usable_exists(snaps: Seq<CandidateLoopSnapshot>)
    requires
        exists|i: int| 0 <= i < snaps.len() && snaps[i].usable,
    ensures
        exists|i: int| 0 <= i < snaps.len() && snaps[i].usable && forall|k: int| 0 <= k < i ==> !snaps[k].usable,
    decreases snaps.len(),
{
    let d = snaps.drop_last();
    if exists|i: int| 0 <= i < d.len() && d[i].usable {
        lemma_first_usable_exists(d);
        let i = choose|i: int| 0 <= i < d.len() && d[i].usable && forall|k: int| 0 <= k < i ==> !d[k].usable;
        assert forall|k: int| 0 <= k < i implies !snaps[k].usable by {
            assert(d[k] == snaps[k]);
        }
        assert(d[i] == snaps[i]);
    } else {
        let i = snaps.len() - 1;
        assert forall|k: int| 0 <= k < i implies !snaps[k].usable by {
            assert(d[k] == snaps[k]);
        }
        let j = choose|j: int| 0 <= j < snaps.len() && snaps[j].usable;
        if j < i {
            assert(d[j] == snaps[j]);
        }
        assert(snaps[i].usable);
    }
}

proof fn lemma_first_winnable_exists(timeouts: Seq<u64>, snaps: Seq<CandidateLoopSnapshot>, now: u128)
    requires
        exists|i: int| 0 <= i < snaps.len() && can_win(timeouts, snaps, i, now),
    ensures
        exists|i: int|
            0 <= i < snaps.len() && can_win(timeouts, snaps, i, now) && forall|k: int|
                0 <= k < i ==> !can_win(timeouts, snaps, k, now),
{
    let w = choose|i: int| 0 <= i < snaps.len() && can_win(timeouts, snaps, i, now);
    lemma_least_winnable(timeouts, snaps, now, w);
}

proof fn lemma_least_winnable(timeouts: Seq<u64>, snaps: Seq<CandidateLoopSnapshot>, now: u128, w: int)
    requires
        0 <= w < snaps.len(),
        can_win(timeouts, snaps, w, now),
    ensures
        exists|i: int|
            0 <= i < snaps.len() && can_win(timeouts, snaps, i, now) && forall|k: int|
                0 <= k < i ==> !can_win(timeouts, snaps, k, now),
    decreases w,
{
    if exists|k: int| 0 <= k < w && can_win(timeouts, snaps, k, now) {
        let k = choose|k: int| 0 <= k < w && can_win(timeouts, snaps, k, now);
        lemma_least_winnable(timeouts, snaps, now, k);
    } else {
        assert(forall|k: int| 0 <= k < w ==> !can_win(timeouts, snaps, k, now));
    }
}

} // verus!
