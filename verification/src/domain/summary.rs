//! Listing summaries of models, groups and key pools.
use vstd::prelude::*;

use crate::domain::types::{
    candidates_view, endpoints_view, keys_view, CandidateView, EndpointView, KeyView,
    ProtocolFamily, RaceCandidate, RaceGroup, RaceGroupSummary, RaceKey, RaceKeyPool,
    RaceKeyPoolSummary, RaceModelDescriptor, RaceModelSummary, RaceTargetEndpoint,
};
use crate::domain::validate::{
    count_enabled_candidates, count_enabled_keys, enabled_candidate_count, enabled_key_count,
    protocol_index,
};
use crate::text::chars_of;

verus! {

// ---------------------------------------------------------------------------
// Ordering of strings
// ---------------------------------------------------------------------------

/// `a` sorts strictly before `b`, comparing characters by code point (the
/// order of `String`).
pub open spec fn lex_lt(a: Seq<char>, b: Seq<char>) -> bool
    decreases a.len(),
{
    if a.len() == 0 {
        b.len() > 0
    } else if b.len() == 0 {
        false
    } else if a[0] != b[0] {
        a[0] < b[0]
    } else {
        lex_lt(a.drop_first(), b.drop_first())
    }
}

pub proof fn lemma_lex_irreflexive(a: Seq<char>)
    ensures
        !lex_lt(a, a),
    decreases a.len(),
{
    if a.len() > 0 {
        lemma_lex_irreflexive(a.drop_first());
    }
}

pub proof fn lemma_lex_transitive(a: Seq<char>, b: Seq<char>, c: Seq<char>)
    requires
        lex_lt(a, b),
        lex_lt(b, c),
    ensures
        lex_lt(a, c),
    decreases a.len(),
{
    if a.len() > 0 && b.len() > 0 && c.len() > 0 {
        if a[0] == b[0] && b[0] == c[0] {
            lemma_lex_transitive(a.drop_first(), b.drop_first(), c.drop_first());
        }
    }
}

pub proof fn lemma_lex_total(a: Seq<char>, b: Seq<char>)
    ensures
        a == b || lex_lt(a, b) || lex_lt(b, a),
    decreases a.len(),
{
    if a.len() > 0 && b.len() > 0 {
        if a[0] == b[0] {
            lemma_lex_total(a.drop_first(), b.drop_first());
            if a.drop_first() == b.drop_first() {
                assert(a =~= seq![a[0]] + a.drop_first());
                assert(b =~= seq![b[0]] + b.drop_first());
            }
        }
    } else if a.len() == 0 && b.len() == 0 {
        assert(a =~= b);
    }
}

proof fn lemma_lex_skip(a: Seq<char>, b: Seq<char>, i: int)
    requires
        0 <= i <= a.len(),
        i <= b.len(),
        a.subrange(0, i) == b.subrange(0, i),
    ensures
        lex_lt(a, b) == lex_lt(a.subrange(i, a.len() as int), b.subrange(i, b.len() as int)),
    decreases i,
{
    if i > 0 {
        assert(a[0] == a.subrange(0, i)[0]);
        assert(b[0] == b.subrange(0, i)[0]);
        assert(a.drop_first().subrange(0, i - 1) =~= a.subrange(0, i).drop_first());
        assert(b.drop_first().subrange(0, i - 1) =~= b.subrange(0, i).drop_first());
        lemma_lex_skip(a.drop_first(), b.drop_first(), i - 1);
        assert(a.drop_first().subrange(i - 1, a.len() - 1) =~= a.subrange(i, a.len() as int));
        assert(b.drop_first().subrange(i - 1, b.len() - 1) =~= b.subrange(i, b.len() as int));
    } else {
        assert(a.subrange(0, a.len() as int) =~= a);
        assert(b.subrange(0, b.len() as int) =~= b);
    }
}

/// Whether `a` sorts strictly before `b`.
pub fn chars_lt(a: &Vec<char>, b: &Vec<char>) -> (r: bool)
    ensures
        r == lex_lt(a@, b@),
{
    let mut i: usize = 0;
    while i < a.len() && i < b.len() && a[i] == b[i]
        invariant
            i <= a.len(),
            i <= b.len(),
            a@.subrange(0, i as int) == b@.subrange(0, i as int),
        decreases a.len() - i,
    {
        assert(a@.subrange(0, i + 1) =~= a@.subrange(0, i as int).push(a@[i as int]));
        assert(b@.subrange(0, i + 1) =~= b@.subrange(0, i as int).push(b@[i as int]));
        i += 1;
    }
    proof {
        lemma_lex_skip(a@, b@, i as int);
    }
    let ghost sa = a@.subrange(i as int, a@.len() as int);
    let ghost sb = b@.subrange(i as int, b@.len() as int);
    if i == a.len() {
        assert(sa.len() == 0);
        i < b.len()
    } else if i == b.len() {
        false
    } else {
        assert(sa[0] == a@[i as int] && sb[0] == b@[i as int]);
        a[i] < b[i]
    }
}

/// `s` is strictly increasing: sorted and without duplicates.
pub open spec fn strictly_sorted(s: Seq<Seq<char>>) -> bool {
    forall|i: int, j: int| 0 <= i < j < s.len() ==> lex_lt(#[trigger] s[i], #[trigger] s[j])
}

/// The views of a list of strings.
pub open spec fn strings_view(v: Seq<String>) -> Seq<Seq<char>> {
    v.map_values(|s: String| s@)
}

/// Whether the string `a` sorts strictly before the characters `b`.
fn string_lt(a: &String, b: &Vec<char>) -> (r: bool)
    ensures
        r == lex_lt(a@, b@),
{
    let ac = chars_of(a.as_str());
    chars_lt(&ac, b)
}

/// Inserts `x` into the strictly sorted list `v`, unless present.
fn insert_sorted_unique(v: &mut Vec<String>, x: String)
    requires
        strictly_sorted(strings_view(old(v)@)),
    ensures
        strictly_sorted(strings_view(final(v)@)),
        strings_view(final(v)@).to_set() == strings_view(old(v)@).to_set().insert(x@),
{
    let xc = chars_of(x.as_str());
    let ghost sv = strings_view(v@);
    let mut i: usize = 0;
    while i < v.len() && string_lt(&v[i], &xc)
        invariant
            i <= v.len(),
            sv == strings_view(v@),
            strictly_sorted(sv),
            xc@ == x@,
            forall|j: int| 0 <= j < i ==> lex_lt(#[trigger] sv[j], x@),
        decreases v.len() - i,
    {
        i += 1;
    }
    // Every element before `i` is below `x`; the one at `i`, if any, is not.
    if i < v.len() {
        let vc = chars_of(v[i].as_str());
        assert(sv[i as int] == vc@);
        if !chars_lt(&xc, &vc) {
            proof {
                lemma_lex_total(vc@, xc@);
            }
            assert(sv[i as int] == x@);
            assert(sv.to_set().insert(x@) =~= sv.to_set()) by {
                assert(sv.to_set().contains(sv[i as int]));
            }
            return;
        }
    }
    proof {
        if i < v.len() {
            lemma_lex_total(sv[i as int], x@);
        }
    }
    v.insert(i, x);
    proof {
        let nv = strings_view(v@);
        assert(nv =~= sv.insert(i as int, xc@));
        assert forall|a: int, b: int| 0 <= a < b < nv.len() implies lex_lt(
            #[trigger] nv[a],
            #[trigger] nv[b],
        ) by {
            if b == i {
                assert(nv[a] == sv[a]);
            } else if a == i {
                assert(nv[b] == sv[b - 1]);
                if b - 1 > i {
                    lemma_lex_transitive(xc@, sv[i as int], sv[b - 1]);
                }
            } else if a < i && b > i {
                assert(nv[a] == sv[a]);
                assert(nv[b] == sv[b - 1]);
            } else if a > i {
                assert(nv[a] == sv[a - 1]);
                assert(nv[b] == sv[b - 1]);
            } else {
                assert(nv[a] == sv[a]);
                assert(nv[b] == sv[b]);
            }
        }
        assert(nv.to_set() =~= sv.to_set().insert(x@)) by {
            assert forall|e: Seq<char>| nv.to_set().contains(e) implies sv.to_set().insert(
                x@,
            ).contains(e) by {
                let k = choose|k: int| 0 <= k < nv.len() && nv[k] == e;
                if k < i {
                    assert(sv[k] == e);
                } else if k > i {
                    assert(sv[k - 1] == e);
                }
            }
            assert forall|e: Seq<char>| sv.to_set().insert(x@).contains(e) implies nv.to_set().contains(
                e,
            ) by {
                if e == x@ {
                    assert(nv[i as int] == e);
                } else {
                    let k = choose|k: int| 0 <= k < sv.len() && sv[k] == e;
                    if k < i {
                        assert(nv[k] == e);
                    } else {
                        assert(nv[k + 1] == e);
                    }
                }
            }
        }
    }
}

// ---------------------------------------------------------------------------
// Protocol family lists
// ---------------------------------------------------------------------------

/// The protocol families in their declared order.
pub open spec fn all_protocols() -> Seq<ProtocolFamily> {
    seq![ProtocolFamily::OpenAi, ProtocolFamily::Anthropic, ProtocolFamily::Google]
}

/// The members of `present`, in declared order, each once: what sorting
/// and deduplicating a list of protocol families gives.
pub open spec fn sorted_protocols(present: Set<ProtocolFamily>) -> Seq<ProtocolFamily> {
    all_protocols().filter(|p: ProtocolFamily| present.contains(p))
}

/// A protocol family is listed exactly when it is present.
pub proof fn lemma_sorted_protocols_contains(present: Set<ProtocolFamily>, p: ProtocolFamily)
    ensures
        sorted_protocols(present).contains(p) == present.contains(p),
{
    let pred = |q: ProtocolFamily| present.contains(q);
    broadcast use vstd::seq_lib::group_filter_ensures;

    if present.contains(p) {
        let i: int = match p {
            ProtocolFamily::OpenAi => 0,
            ProtocolFamily::Anthropic => 1,
            ProtocolFamily::Google => 2,
        };
        assert(all_protocols()[i] == p);
        assert(all_protocols().filter(pred).contains(p));
    }
}

/// Builds the sorted, duplicate-free list of the protocol families marked
/// in `seen` (indexed by `protocol_index`).
pub fn protocols_from_flags(seen: &[bool; 3]) -> (r: Vec<ProtocolFamily>)
    ensures
        r@ == sorted_protocols(
            Set::new(|p: ProtocolFamily| seen@[protocol_index(p) as int]),
        ),
{
    let ghost present = Set::new(|p: ProtocolFamily| seen@[protocol_index(p) as int]);
    let mut out: Vec<ProtocolFamily> = Vec::new();
    if seen[0] {
        out.push(ProtocolFamily::OpenAi);
    }
    if seen[1] {
        out.push(ProtocolFamily::Anthropic);
    }
    if seen[2] {
        out.push(ProtocolFamily::Google);
    }
    proof {
        let pred = |p: ProtocolFamily| present.contains(p);
        let all = all_protocols();
        reveal_with_fuel(Seq::<_>::filter, 4);
        assert(all.drop_last().drop_last().drop_last() =~= Seq::<ProtocolFamily>::empty());
        assert(all.drop_last().drop_last() =~= seq![ProtocolFamily::OpenAi]);
        assert(all.drop_last() =~= seq![ProtocolFamily::OpenAi, ProtocolFamily::Anthropic]);
        assert(present.contains(ProtocolFamily::OpenAi) == seen@[0]);
        assert(present.contains(ProtocolFamily::Anthropic) == seen@[1]);
        assert(present.contains(ProtocolFamily::Google) == seen@[2]);
        assert(out@ =~= all.filter(pred));
    }
    out
}

/// The protocol families of the enabled endpoints of `eps`.
pub open spec fn enabled_protocol_set(eps: Seq<EndpointView>) -> Set<ProtocolFamily> {
    Set::new(
        |p: ProtocolFamily| exists|i: int| 0 <= i < eps.len() && eps[i].enabled && eps[i].protocol_family == p,
    )
}

/// Marks in `seen` the protocol family of every enabled endpoint of `eps`.
pub fn mark_enabled_protocols(seen: &mut [bool; 3], eps: &Vec<RaceTargetEndpoint>)
    ensures
        forall|p: ProtocolFamily|
            #![trigger protocol_index(p)]
            final(seen)@[protocol_index(p) as int] == (old(seen)@[protocol_index(p) as int]
                || enabled_protocol_set(endpoints_view(eps@)).contains(p)),
{
    let ghost ev = endpoints_view(eps@);
    let mut i: usize = 0;
    while i < eps.len()
        invariant
            i <= eps.len(),
            ev == endpoints_view(eps@),
            forall|p: ProtocolFamily|
                #![trigger protocol_index(p)]
                seen@[protocol_index(p) as int] == (old(seen)@[protocol_index(p) as int] || exists|
                    j: int,
                | 0 <= j < i && ev[j].enabled && ev[j].protocol_family == p),
        decreases eps.len() - i,
    {
        let e = &eps[i];
        assert(ev[i as int] == e@);
        if e.enabled {
            let slot: usize = match e.protocol_family {
                ProtocolFamily::OpenAi => 0,
                ProtocolFamily::Anthropic => 1,
                ProtocolFamily::Google => 2,
            };
            seen[slot] = true;
        }
        proof {
            assert forall|p: ProtocolFamily|
                #![trigger protocol_index(p)]
                seen@[protocol_index(p) as int] == (old(seen)@[protocol_index(p) as int] || exists|
                    j: int,
                | 0 <= j < i + 1 && ev[j].enabled && ev[j].protocol_family == p) by {
                if e.enabled && p == e.protocol_family {
                    assert(ev[i as int].enabled && ev[i as int].protocol_family == p);
                }
            }
        }
        i += 1;
    }
}

// ---------------------------------------------------------------------------
// Summaries
// ---------------------------------------------------------------------------

/// The key pool ids of the enabled endpoints of `eps`.
pub open spec fn enabled_key_pool_set(eps: Seq<EndpointView>) -> Set<Seq<char>> {
    Set::new(
        |id: Seq<char>| exists|i: int| 0 <= i < eps.len() && eps[i].enabled && eps[i].key_pool_id == id,
    )
}

impl RaceModelDescriptor {
    /// The model's listing summary: its identity, the protocol families of
    /// its enabled endpoints, and the key pool ids they use, each sorted and
    /// without duplicates.
    pub fn summary(&self) -> (r: RaceModelSummary)
        ensures
            r.id == self.id,
            r.display_name == self.display_name,
            r.upstream_model == self.upstream_model,
            r.enabled == self.enabled,
            r.protocol_families@ == sorted_protocols(
                enabled_protocol_set(endpoints_view(self.endpoints@)),
            ),
            strictly_sorted(strings_view(r.key_pool_ids@)),
            strings_view(r.key_pool_ids@).to_set() == enabled_key_pool_set(
                endpoints_view(self.endpoints@),
            ),
    {
        let ghost ev = endpoints_view(self.endpoints@);
        let mut seen: [bool; 3] = [false, false, false];
        mark_enabled_protocols(&mut seen, &self.endpoints);
        let protocol_families = protocols_from_flags(&seen);
        proof {
            assert(Set::new(|p: ProtocolFamily| seen@[protocol_index(p) as int]) =~= enabled_protocol_set(ev));
        }
        let mut key_pool_ids: Vec<String> = Vec::new();
        let mut i: usize = 0;
        assert(strings_view(key_pool_ids@).to_set() =~= Set::<Seq<char>>::empty());
        while i < self.endpoints.len()
            invariant
                i <= self.endpoints.len(),
                ev == endpoints_view(self.endpoints@),
                strictly_sorted(strings_view(key_pool_ids@)),
                strings_view(key_pool_ids@).to_set() == Set::new(
                    |id: Seq<char>|
                        exists|j: int| 0 <= j < i && ev[j].enabled && ev[j].key_pool_id == id,
                ),
            decreases self.endpoints.len() - i,
        {
            let e = &self.endpoints[i];
            assert(ev[i as int] == e@);
            let ghost before = strings_view(key_pool_ids@).to_set();
            if e.enabled {
                insert_sorted_unique(&mut key_pool_ids, e.key_pool_id.clone());
            }
            proof {
                assert(strings_view(key_pool_ids@).to_set() =~= Set::new(
                    |id: Seq<char>|
                        exists|j: int| 0 <= j < i + 1 && ev[j].enabled && ev[j].key_pool_id == id,
                )) by {
                    assert forall|id: Seq<char>| #![auto] (exists|j: int|
                        0 <= j < i + 1 && ev[j].enabled && ev[j].key_pool_id == id) implies strings_view(
                        key_pool_ids@,
                    ).to_set().contains(id) by {
                        let j = choose|j: int|
                            0 <= j < i + 1 && ev[j].enabled && ev[j].key_pool_id == id;
                        if j < i {
                            assert(before.contains(id));
                        }
                    }
                }
            }
            i += 1;
        }
        proof {
            assert(strings_view(key_pool_ids@).to_set() =~= enabled_key_pool_set(ev));
        }
        RaceModelSummary {
            id: self.id.clone(),
            display_name: self.display_name.clone(),
            upstream_model: self.upstream_model.clone(),
            enabled: self.enabled,
            protocol_families,
            key_pool_ids,
        }
    }
}

/// The protocol families of the enabled inline endpoint overrides of any of
/// `cs`.
pub open spec fn inline_protocol_set(cs: Seq<CandidateView>) -> Set<ProtocolFamily> {
    Set::new(
        |p: ProtocolFamily|
            exists|i: int| 0 <= i < cs.len() && enabled_protocol_set(cs[i].inline_endpoint_overrides).contains(p),
    )
}

impl RaceGroup {
    /// The group's listing summary: its identity, candidate counts, the
    /// protocol families of its candidates' enabled inline overrides (sorted,
    /// without duplicates), and its candidate names in order.
    pub fn summary(&self) -> (r: RaceGroupSummary)
        ensures
            r.id == self.id,
            r.display_name == self.display_name,
            r.enabled == self.enabled,
            r.candidate_count == self.candidates.len(),
            r.enabled_candidate_count == enabled_candidate_count(candidates_view(self.candidates@)),
            r.protocol_families@ == sorted_protocols(
                inline_protocol_set(candidates_view(self.candidates@)),
            ),
            strings_view(r.candidate_names@) == candidates_view(self.candidates@).map_values(
                |c: CandidateView| c.name,
            ),
    {
        let ghost cv = candidates_view(self.candidates@);
        let mut seen: [bool; 3] = [false, false, false];
        let mut names: Vec<String> = Vec::new();
        let mut i: usize = 0;
        while i < self.candidates.len()
            invariant
                i <= self.candidates.len(),
                cv == candidates_view(self.candidates@),
                forall|p: ProtocolFamily|
                    #![trigger protocol_index(p)]
                    seen@[protocol_index(p) as int] == exists|j: int|
                        0 <= j < i && enabled_protocol_set(cv[j].inline_endpoint_overrides).contains(p),
                strings_view(names@) == cv.subrange(0, i as int).map_values(|c: CandidateView| c.name),
            decreases self.candidates.len() - i,
        {
            let c = &self.candidates[i];
            assert(cv[i as int] == c@);
            let ghost before = seen@;
            let ghost names_before = names@;
            mark_enabled_protocols(&mut seen, &c.inline_endpoint_overrides);
            let nm = c.name.clone();
            names.push(nm);
            proof {
                assert forall|p: ProtocolFamily|
                    #![trigger protocol_index(p)]
                    seen@[protocol_index(p) as int] == exists|j: int|
                        0 <= j < i + 1 && enabled_protocol_set(cv[j].inline_endpoint_overrides).contains(p) by {
                    if enabled_protocol_set(cv[i as int].inline_endpoint_overrides).contains(p) {
                        assert(0 <= i < i + 1);
                    }
                }
                assert(strings_view(names@) =~= strings_view(names_before).push(c.name@));
                assert(cv.subrange(0, i + 1).map_values(|c: CandidateView| c.name) =~= cv.subrange(
                    0,
                    i as int,
                ).map_values(|c: CandidateView| c.name).push(cv[i as int].name));
            }
            i += 1;
        }
        let protocol_families = protocols_from_flags(&seen);
        proof {
            assert(Set::new(|p: ProtocolFamily| seen@[protocol_index(p) as int]) =~= inline_protocol_set(cv));
            assert(cv.subrange(0, cv.len() as int) =~= cv);
        }
        RaceGroupSummary {
            id: self.id.clone(),
            display_name: self.display_name.clone(),
            enabled: self.enabled,
            candidate_count: self.candidates.len(),
            enabled_candidate_count: count_enabled_candidates(&self.candidates),
            protocol_families,
            candidate_names: names,
        }
    }
}

impl RaceKeyPool {
    /// The pool's listing summary: identity, strategies and key counts.
    pub fn summary(&self) -> (r: RaceKeyPoolSummary)
        ensures
            r.id == self.id,
            r.display_name == self.display_name,
            r.enabled == self.enabled,
            r.auth_strategy == self.auth_strategy,
            r.selection_strategy == self.selection_strategy,
            r.total_keys == self.keys.len(),
            r.enabled_keys == enabled_key_count(keys_view(self.keys@)),
    {
        RaceKeyPoolSummary {
            id: self.id.clone(),
            display_name: self.display_name.clone(),
            enabled: self.enabled,
            auth_strategy: self.auth_strategy.clone(),
            selection_strategy: self.selection_strategy,
            total_keys: self.keys.len(),
            enabled_keys: count_enabled_keys(&self.keys),
        }
    }
}

} // verus!
