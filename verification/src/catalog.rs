//! The configuration catalog that the gateway serves from: groups, models
//! and key pools keyed by id, an index of models by upstream model, and
//! the race settings. What a read gives back is what the last write put
//! there.
use vstd::prelude::*;

use crate::domain::types::{
    candidates_view, GroupView, KeyPoolView, KeyValue, ModelView, RaceCandidate, RaceGroup,
    RaceKeyPool, RaceModelDescriptor, RaceSettings,
};
use crate::text::{str_eq, trim, trim_str};

verus! {

/// A value stored in the catalog under an id.
pub trait CatalogEntry: Sized + View {
    /// The id of a stored value.
    spec fn entry_id(v: Self::V) -> Seq<char>;

    /// The value's id.
    fn id_str(&self) -> (r: &str)
        ensures
            r@ == Self::entry_id(self@),
    ;

    /// A copy of the value.
    fn duplicate(&self) -> (r: Self)
        ensures
            r@ == self@,
    ;
}

impl CatalogEntry for RaceGroup {
    open spec fn entry_id(v: GroupView) -> Seq<char> {
        v.id
    }

    fn id_str(&self) -> (r: &str) {
        self.id.as_str()
    }

    fn duplicate(&self) -> (r: Self) {
        RaceGroup {
            id: self.id.clone(),
            display_name: self.display_name.clone(),
            fallback_ratio_bits: self.fallback_ratio_bits,
            decay_factor_bits: self.decay_factor_bits,
            penalty_rate_bits: self.penalty_rate_bits,
            recovery_rate_bits: self.recovery_rate_bits,
            race_max_wait_time_ms: self.race_max_wait_time_ms,
            enabled: self.enabled,
            candidates: clone_candidates(&self.candidates),
        }
    }
}

impl CatalogEntry for RaceModelDescriptor {
    open spec fn entry_id(v: ModelView) -> Seq<char> {
        v.id
    }

    fn id_str(&self) -> (r: &str) {
        self.id.as_str()
    }

    fn duplicate(&self) -> (r: Self) {
        self.clone()
    }
}

impl CatalogEntry for RaceKeyPool {
    open spec fn entry_id(v: KeyPoolView) -> Seq<char> {
        v.id
    }

    fn id_str(&self) -> (r: &str) {
        self.id.as_str()
    }

    fn duplicate(&self) -> (r: Self) {
        let mut keys: Vec<crate::domain::types::RaceKey> = Vec::new();
        let mut i: usize = 0;
        while i < self.keys.len()
            invariant
                i <= self.keys.len(),
                keys.len() == i,
                forall|k: int| 0 <= k < i ==> (#[trigger] keys@[k])@ == self.keys@[k]@,
            decreases self.keys.len() - i,
        {
            keys.push(self.keys[i].clone());
            i += 1;
        }
        let r = RaceKeyPool {
            id: self.id.clone(),
            display_name: self.display_name.clone(),
            auth_strategy: self.auth_strategy.clone(),
            selection_strategy: self.selection_strategy,
            enabled: self.enabled,
            keys,
        };
        assert(r@.keys =~= self@.keys);
        r
    }
}

/// Copies a list of candidates.
pub fn clone_candidates(v: &Vec<RaceCandidate>) -> (r: Vec<RaceCandidate>)
    ensures
        candidates_view(r@) == candidates_view(v@),
{
    let mut out: Vec<RaceCandidate> = Vec::new();
    let mut i: usize = 0;
    while i < v.len()
        invariant
            i <= v.len(),
            out.len() == i,
            forall|k: int| 0 <= k < i ==> (#[trigger] out@[k])@ == v@[k]@,
        decreases v.len() - i,
    {
        out.push(v[i].clone());
        i += 1;
    }
    assert(candidates_view(out@) =~= candidates_view(v@));
    out
}

/// Values stored by id; no two share an id.
pub struct EntryTable<T: CatalogEntry> {
    items: Vec<T>,
}

/// Some item of `s` has the id `k`.
pub open spec fn has_id<T: CatalogEntry>(s: Seq<T>, k: Seq<char>) -> bool {
    exists|i: int| 0 <= i < s.len() && T::entry_id((#[trigger] s[i])@) == k
}

/// No two items of `s` share an id.
pub open spec fn ids_unique<T: CatalogEntry>(s: Seq<T>) -> bool {
    forall|i: int, j: int|
        0 <= i < s.len() && 0 <= j < s.len() && i != j ==> T::entry_id((#[trigger] s[i])@)
            != T::entry_id((#[trigger] s[j])@)
}

/// The items of `s` keyed by id.
pub open spec fn keyed<T: CatalogEntry>(s: Seq<T>) -> Map<Seq<char>, T::V> {
    Map::new(
        |k: Seq<char>| has_id(s, k),
        |k: Seq<char>| s[choose|i: int| 0 <= i < s.len() && T::entry_id((#[trigger] s[i])@) == k]@,
    )
}

proof fn lemma_keyed_at<T: CatalogEntry>(s: Seq<T>, i: int)
    requires
        ids_unique(s),
        0 <= i < s.len(),
    ensures
        keyed(s).dom().contains(T::entry_id(s[i]@)),
        keyed(s)[T::entry_id(s[i]@)] == s[i]@,
{
    let k = T::entry_id(s[i]@);
    assert(has_id(s, k));
    let c = choose|j: int| 0 <= j < s.len() && T::entry_id((#[trigger] s[j])@) == k;
    assert(c == i);
}

impl<T: CatalogEntry> EntryTable<T> {
    /// No two stored values share an id.
    pub closed spec fn wf(&self) -> bool {
        ids_unique(self.items@)
    }

    /// The stored values by id.
    pub closed spec fn entries(&self) -> Map<Seq<char>, T::V> {
        keyed(self.items@)
    }

    /// The stored values in storage order.
    pub closed spec fn values(&self) -> Seq<T::V> {
        self.items@.map_values(|t: T| t@)
    }

    /// An empty table.
    pub fn new() -> (r: Self)
        ensures
            r.wf(),
            r.entries() == Map::<Seq<char>, T::V>::empty(),
            r.values().len() == 0,
    {
        let r = EntryTable { items: Vec::new() };
        assert(r.entries() =~= Map::<Seq<char>, T::V>::empty());
        assert(r.values() =~= Seq::<T::V>::empty());
        r
    }

    fn index_of(&self, id: &str) -> (r: Option<usize>)
        requires
            self.wf(),
        ensures
            match r {
                Some(i) => i < self.items.len() && T::entry_id(self.items@[i as int]@) == id@,
                None => !has_id(self.items@, id@),
            },
    {
        let mut i: usize = 0;
        while i < self.items.len()
            invariant
                i <= self.items.len(),
                forall|j: int| 0 <= j < i ==> T::entry_id((#[trigger] self.items@[j])@) != id@,
            decreases self.items.len() - i,
        {
            if str_eq(self.items[i].id_str(), id) {
                return Some(i);
            }
            i += 1;
        }
        None
    }

    /// A copy of the value stored under `id`, if any.
    pub fn get(&self, id: &str) -> (r: Option<T>)
        requires
            self.wf(),
        ensures
            match r {
                Some(v) => self.entries().dom().contains(id@) && v@ == self.entries()[id@]
                    && T::entry_id(v@) == id@,
                None => !self.entries().dom().contains(id@),
            },
    {
        match self.index_of(id) {
            Some(i) => {
                proof {
                    lemma_keyed_at(self.items@, i as int);
                }
                Some(self.items[i].duplicate())
            },
            None => None,
        }
    }

    /// Stores `v` under its id, replacing what was stored there; returns
    /// what was replaced.
    pub fn put(&mut self, v: T) -> (r: Option<T>)
        requires
            old(self).wf(),
        ensures
            final(self).wf(),
            final(self).entries() == old(self).entries().insert(T::entry_id(v@), v@),
            match r {
                Some(p) => old(self).entries().dom().contains(T::entry_id(v@)) && p@ == old(
                    self,
                ).entries()[T::entry_id(v@)],
                None => !old(self).entries().dom().contains(T::entry_id(v@)),
            },
    {
        let ghost s0 = self.items@;
        let ghost k = T::entry_id(v@);
        match self.index_of(v.id_str()) {
            Some(i) => {
                proof {
                    lemma_keyed_at(s0, i as int);
                }
                let mut v = v;
                std::mem::swap(&mut self.items[i], &mut v);
                let ghost s1 = self.items@;
                assert(s1 == s0.update(i as int, s1[i as int]));
                proof {
                    assert forall|a: int, b: int|
                        0 <= a < s1.len() && 0 <= b < s1.len() && a != b implies T::entry_id(
                            (#[trigger] s1[a])@,
                        ) != T::entry_id((#[trigger] s1[b])@) by {
                        if a != i && b != i {
                            assert(s1[a] == s0[a] && s1[b] == s0[b]);
                        } else if a == i {
                            assert(s1[b] == s0[b]);
                        } else {
                            assert(s1[a] == s0[a]);
                        }
                    }
                    assert forall|key: Seq<char>| #[trigger] has_id(s1, key) == (has_id(s0, key)
                        || key == k) by {
                        if has_id(s0, key) {
                            let j = choose|j: int| 0 <= j < s0.len() && T::entry_id((#[trigger] s0[j])@) == key;
                            if j != i {
                                assert(s1[j] == s0[j]);
                            } else {
                                assert(T::entry_id(s1[i as int]@) == key);
                            }
                        }
                        if key == k {
                            assert(T::entry_id(s1[i as int]@) == key);
                        }
                        if has_id(s1, key) {
                            let j = choose|j: int| 0 <= j < s1.len() && T::entry_id((#[trigger] s1[j])@) == key;
                            if j != i {
                                assert(s1[j] == s0[j]);
                            }
                        }
                    }
                    assert forall|key: Seq<char>| #[trigger] keyed(s1).dom().contains(key) implies keyed(
                        s1,
                    )[key] == keyed(s0).insert(k, s1[i as int]@)[key] by {
                        let j = choose|j: int| 0 <= j < s1.len() && T::entry_id((#[trigger] s1[j])@) == key;
                        lemma_keyed_at(s1, j);
                        if j != i {
                            assert(s1[j] == s0[j]);
                            lemma_keyed_at(s0, j);
                        }
                    }
                    assert(keyed(s1) =~= keyed(s0).insert(k, s1[i as int]@));
                }
                Some(v)
            },
            None => {
                self.items.push(v);
                let ghost s1 = self.items@;
                proof {
                    assert forall|a: int, b: int|
                        0 <= a < s1.len() && 0 <= b < s1.len() && a != b implies T::entry_id(
                            (#[trigger] s1[a])@,
                        ) != T::entry_id((#[trigger] s1[b])@) by {
                        if a < s0.len() && b < s0.len() {
                            assert(s1[a] == s0[a] && s1[b] == s0[b]);
                        } else if a < s0.len() {
                            assert(s1[a] == s0[a]);
                        } else {
                            assert(s1[b] == s0[b]);
                        }
                    }
                    assert forall|key: Seq<char>| #[trigger] has_id(s1, key) == (has_id(s0, key)
                        || key == k) by {
                        if has_id(s0, key) {
                            let j = choose|j: int| 0 <= j < s0.len() && T::entry_id((#[trigger] s0[j])@) == key;
                            assert(s1[j] == s0[j]);
                        }
                        if key == k {
                            assert(T::entry_id(s1[s0.len() as int]@) == key);
                        }
                        if has_id(s1, key) {
                            let j = choose|j: int| 0 <= j < s1.len() && T::entry_id((#[trigger] s1[j])@) == key;
                            if j < s0.len() {
                                assert(s1[j] == s0[j]);
                            }
                        }
                    }
                    assert forall|key: Seq<char>| #[trigger] keyed(s1).dom().contains(key) implies keyed(
                        s1,
                    )[key] == keyed(s0).insert(k, v@)[key] by {
                        let j = choose|j: int| 0 <= j < s1.len() && T::entry_id((#[trigger] s1[j])@) == key;
                        lemma_keyed_at(s1, j);
                        if j < s0.len() {
                            assert(s1[j] == s0[j]);
                            lemma_keyed_at(s0, j);
                        }
                    }
                    assert(keyed(s1) =~= keyed(s0).insert(k, v@));
                }
                None
            },
        }
    }

    /// Removes the value stored under `id`; returns it.
    pub fn delete(&mut self, id: &str) -> (r: Option<T>)
        requires
            old(self).wf(),
        ensures
            final(self).wf(),
            final(self).entries() == old(self).entries().remove(id@),
            match r {
                Some(p) => old(self).entries().dom().contains(id@) && p@ == old(self).entries()[id@],
                None => !old(self).entries().dom().contains(id@),
            },
    {
        let ghost s0 = self.items@;
        match self.index_of(id) {
            Some(i) => {
                proof {
                    lemma_keyed_at(s0, i as int);
                }
                let removed = self.items.remove(i);
                let ghost s1 = self.items@;
                proof {
                    assert(forall|j: int| 0 <= j < i ==> s1[j] == s0[j]);
                    assert(forall|j: int| i <= j < s1.len() ==> s1[j] == s0[j + 1]);
                    assert forall|a: int, b: int|
                        0 <= a < s1.len() && 0 <= b < s1.len() && a != b implies T::entry_id(
                            (#[trigger] s1[a])@,
                        ) != T::entry_id((#[trigger] s1[b])@) by {
                        let a0 = if a < i {
                            a
                        } else {
                            a + 1
                        };
                        let b0 = if b < i {
                            b
                        } else {
                            b + 1
                        };
                        assert(s1[a] == s0[a0] && s1[b] == s0[b0]);
                    }
                    assert forall|key: Seq<char>| #[trigger] has_id(s1, key) == (has_id(s0, key)
                        && key != id@) by {
                        if has_id(s0, key) && key != id@ {
                            let j = choose|j: int| 0 <= j < s0.len() && T::entry_id((#[trigger] s0[j])@) == key;
                            assert(j != i);
                            if j < i {
                                assert(s1[j] == s0[j]);
                            } else {
                                assert(s1[j - 1] == s0[j]);
                            }
                        }
                        if has_id(s1, key) {
                            let j = choose|j: int| 0 <= j < s1.len() && T::entry_id((#[trigger] s1[j])@) == key;
                            let j0 = if j < i {
                                j
                            } else {
                                j + 1
                            };
                            assert(s1[j] == s0[j0]);
                            assert(j0 != i);
                        }
                    }
                    assert forall|key: Seq<char>| #[trigger] keyed(s1).dom().contains(key) implies keyed(
                        s1,
                    )[key] == keyed(s0).remove(id@)[key] by {
                        let j = choose|j: int| 0 <= j < s1.len() && T::entry_id((#[trigger] s1[j])@) == key;
                        lemma_keyed_at(s1, j);
                        let j0 = if j < i {
                            j
                        } else {
                            j + 1
                        };
                        assert(s1[j] == s0[j0]);
                        lemma_keyed_at(s0, j0);
                    }
                    assert(keyed(s1) =~= keyed(s0).remove(id@));
                }
                Some(removed)
            },
            None => {
                assert(keyed(s0) =~= keyed(s0).remove(id@));
                None
            },
        }
    }

    /// Copies of every stored value, in storage order.
    pub fn list(&self) -> (r: Vec<T>)
        requires
            self.wf(),
        ensures
            r@.map_values(|t: T| t@) == self.values(),
    {
        let mut out: Vec<T> = Vec::new();
        let mut i: usize = 0;
        while i < self.items.len()
            invariant
                i <= self.items.len(),
                out.len() == i,
                forall|k: int| 0 <= k < i ==> (#[trigger] out@[k])@ == self.items@[k]@,
            decreases self.items.len() - i,
        {
            out.push(self.items[i].duplicate());
            i += 1;
        }
        assert(out@.map_values(|t: T| t@) =~= self.values());
        out
    }

    /// The stored values, in storage order, without copying.
    pub fn as_vec(&self) -> (r: &Vec<T>)
        ensures
            r@.map_values(|t: T| t@) == self.values(),
    {
        assert(self.items@.map_values(|t: T| t@) =~= self.values());
        &self.items
    }

    /// The listed values are exactly the stored ones.
    pub proof fn lemma_values_are_entries(&self)
        requires
            self.wf(),
        ensures
            forall|i: int|
                0 <= i < self.values().len() ==> self.entries().dom().contains(
                    T::entry_id(#[trigger] self.values()[i]),
                ) && self.entries()[T::entry_id(self.values()[i])] == self.values()[i],
            forall|k: Seq<char>|
                #[trigger] self.entries().dom().contains(k) ==> exists|i: int|
                    0 <= i < self.values().len() && T::entry_id(#[trigger] self.values()[i]) == k,
    {
        assert forall|i: int| 0 <= i < self.values().len() implies self.entries().dom().contains(
            T::entry_id(#[trigger] self.values()[i]),
        ) && self.entries()[T::entry_id(self.values()[i])] == self.values()[i] by {
            lemma_keyed_at(self.items@, i);
        }
        assert forall|k: Seq<char>| #[trigger] self.entries().dom().contains(k) implies exists|i: int|
            0 <= i < self.values().len() && T::entry_id(#[trigger] self.values()[i]) == k by {
            let j = choose|j: int|
                0 <= j < self.items@.len() && T::entry_id((#[trigger] self.items@[j])@) == k;
            assert(self.values()[j] == self.items@[j]@);
        }
    }
}


impl View for KeyValue {
    type V = (Seq<char>, Seq<char>);

    open spec fn view(&self) -> (Seq<char>, Seq<char>) {
        (self.key@, self.value@)
    }
}

impl CatalogEntry for KeyValue {
    open spec fn entry_id(v: (Seq<char>, Seq<char>)) -> Seq<char> {
        v.0
    }

    fn id_str(&self) -> (r: &str) {
        self.key.as_str()
    }

    fn duplicate(&self) -> (r: Self) {
        self.clone()
    }
}

impl<T: CatalogEntry> EntryTable<T> {
    /// The stored values, in storage order.
    pub fn into_vec(self) -> (r: Vec<T>)
        requires
            self.wf(),
        ensures
            ids_unique(r@),
            keyed(r@) == self.entries(),
            r@.map_values(|t: T| t@) == self.values(),
    {
        assert(self.items@.map_values(|t: T| t@) =~= self.values());
        self.items
    }
}

/// The abstract value of the catalog.
pub struct CacheView {
    pub groups: Map<Seq<char>, GroupView>,
    pub models: Map<Seq<char>, ModelView>,
    pub upstream_index: Map<Seq<char>, (Seq<char>, Seq<char>)>,
    pub key_pools: Map<Seq<char>, KeyPoolView>,
    pub settings: RaceSettings,
}

/// The configuration the gateway serves from.
pub struct ConfigSnapshotCache {
    groups: EntryTable<RaceGroup>,
    models: EntryTable<RaceModelDescriptor>,
    model_ids_by_upstream_model: EntryTable<KeyValue>,
    key_pools: EntryTable<RaceKeyPool>,
    settings: RaceSettings,
}

/// The upstream index after model `m` is stored in place of `previous`:
/// the previous model's upstream model leaves the index, then `m`'s
/// upstream model points at `m`.
pub open spec fn index_after_put(
    index: Map<Seq<char>, (Seq<char>, Seq<char>)>,
    previous: Option<ModelView>,
    m: ModelView,
) -> Map<Seq<char>, (Seq<char>, Seq<char>)> {
    let base = match previous {
        Some(p) => index.remove(p.upstream_model),
        None => index,
    };
    base.insert(m.upstream_model, (m.upstream_model, m.id))
}

/// The model a candidate reaches: the one it names by id when the catalog
/// has it; else, for a non-blank upstream model, the model the upstream
/// index points to.
pub open spec fn reached_model(c: crate::domain::types::CandidateView, v: CacheView) -> Option<
    Seq<char>,
> {
    match c.model_id {
        Some(id) => if v.models.dom().contains(id) {
            Some(id)
        } else {
            None
        },
        None => {
            let up = trim(c.upstream_model);
            if up.len() > 0 && v.upstream_index.dom().contains(up) && v.models.dom().contains(
                v.upstream_index[up].1,
            ) {
                Some(v.upstream_index[up].1)
            } else {
                None
            }
        },
    }
}

/// The ids of the models that the candidates reach.
pub open spec fn reached_models(cs: Seq<crate::domain::types::CandidateView>, v: CacheView) -> Set<
    Seq<char>,
> {
    Set::new(|id: Seq<char>| exists|i: int| 0 <= i < cs.len() && reached_model(cs[i], v) == Some(id))
}

/// The candidates of all groups, in order.
pub open spec fn all_candidates(gs: Seq<RaceGroup>) -> Seq<RaceCandidate>
    decreases gs.len(),
{
    if gs.len() == 0 {
        seq![]
    } else {
        all_candidates(gs.drop_last()) + gs.last().candidates@
    }
}

impl View for ConfigSnapshotCache {
    type V = CacheView;

    closed spec fn view(&self) -> CacheView {
        CacheView {
            groups: self.groups.entries(),
            models: self.models.entries(),
            upstream_index: self.model_ids_by_upstream_model.entries(),
            key_pools: self.key_pools.entries(),
            settings: self.settings,
        }
    }
}

impl ConfigSnapshotCache {
    /// The tables are keyed by id without duplicates.
    pub closed spec fn wf(&self) -> bool {
        &&& self.groups.wf()
        &&& self.models.wf()
        &&& self.model_ids_by_upstream_model.wf()
        &&& self.key_pools.wf()
    }

    /// An empty catalog with the given settings.
    pub fn new(settings: RaceSettings) -> (r: Self)
        ensures
            r.wf(),
            r@.groups == Map::<Seq<char>, GroupView>::empty(),
            r@.models == Map::<Seq<char>, ModelView>::empty(),
            r@.upstream_index == Map::<Seq<char>, (Seq<char>, Seq<char>)>::empty(),
            r@.key_pools == Map::<Seq<char>, KeyPoolView>::empty(),
            r@.settings == settings,
    {
        ConfigSnapshotCache {
            groups: EntryTable::new(),
            models: EntryTable::new(),
            model_ids_by_upstream_model: EntryTable::new(),
            key_pools: EntryTable::new(),
            settings,
        }
    }

    /// A copy of group `group_id`, if the catalog has it.
    pub fn get_group(&self, group_id: &str) -> (r: Option<RaceGroup>)
        requires
            self.wf(),
        ensures
            match r {
                Some(g) => self@.groups.dom().contains(group_id@) && g@ == self@.groups[group_id@],
                None => !self@.groups.dom().contains(group_id@),
            },
    {
        self.groups.get(group_id)
    }

    /// Stores a group under its id, replacing the one stored there.
    pub fn put_group(&mut self, group: RaceGroup)
        requires
            old(self).wf(),
        ensures
            final(self).wf(),
            final(self)@ == (CacheView { groups: old(self)@.groups.insert(group@.id, group@), ..old(self)@ }),
    {
        let _ = self.groups.put(group);
    }

    /// Removes group `group_id`.
    pub fn delete_group(&mut self, group_id: &str)
        requires
            old(self).wf(),
        ensures
            final(self).wf(),
            final(self)@ == (CacheView { groups: old(self)@.groups.remove(group_id@), ..old(self)@ }),
    {
        let _ = self.groups.delete(group_id);
    }

    /// Copies of every group.
    pub fn list_groups(&self) -> (r: Vec<RaceGroup>)
        requires
            self.wf(),
        ensures
            forall|i: int|
                0 <= i < r.len() ==> self@.groups.dom().contains((#[trigger] r@[i])@.id)
                    && self@.groups[r@[i]@.id] == r@[i]@,
            forall|id: Seq<char>|
                #[trigger] self@.groups.dom().contains(id) ==> exists|i: int|
                    0 <= i < r.len() && (#[trigger] r@[i])@.id == id,
            ids_unique(r@),
    {
        let r = self.groups.list();
        proof {
            self.groups.lemma_values_are_entries();
            assert forall|i: int| 0 <= i < r.len() implies self@.groups.dom().contains(
                (#[trigger] r@[i])@.id,
            ) && self@.groups[r@[i]@.id] == r@[i]@ by {
                assert(r@[i]@ == self.groups.values()[i]);
            }
            assert forall|id: Seq<char>| #[trigger] self@.groups.dom().contains(id) implies exists|i: int|
                0 <= i < r.len() && (#[trigger] r@[i])@.id == id by {
                let i = choose|i: int|
                    0 <= i < self.groups.values().len() && #[trigger] self.groups.values()[i].id == id;
                assert(r@[i]@ == self.groups.values()[i]);
            }
            assert forall|i: int, j: int|
                0 <= i < r@.len() && 0 <= j < r@.len() && i != j implies (#[trigger] r@[i])@.id
                    != (#[trigger] r@[j])@.id by {
                assert(r@[i]@ == self.groups.values()[i]);
                assert(r@[j]@ == self.groups.values()[j]);
                if r@[i]@.id == r@[j]@.id {
                    assert(self@.groups[r@[i]@.id] == r@[i]@);
                    assert(self@.groups[r@[j]@.id] == r@[j]@);
                }
            }
        }
        r
    }

    /// A copy of model `model_id`, if the catalog has it.
    pub fn get_model(&self, model_id: &str) -> (r: Option<RaceModelDescriptor>)
        requires
            self.wf(),
        ensures
            match r {
                Some(m) => self@.models.dom().contains(model_id@) && m@ == self@.models[model_id@],
                None => !self@.models.dom().contains(model_id@),
            },
    {
        self.models.get(model_id)
    }

    /// Stores a model under its id, replacing the one stored there, and
    /// points its upstream model at it (the replaced model's upstream model
    /// leaves the index first).
    pub fn put_model(&mut self, model: RaceModelDescriptor)
        requires
            old(self).wf(),
        ensures
            final(self).wf(),
            final(self)@ == (CacheView {
                models: old(self)@.models.insert(model@.id, model@),
                upstream_index: index_after_put(
                    old(self)@.upstream_index,
                    if old(self)@.models.dom().contains(model@.id) {
                        Some(old(self)@.models[model@.id])
                    } else {
                        None
                    },
                    model@,
                ),
                ..old(self)@
            }),
    {
        let entry = KeyValue { key: model.upstream_model.clone(), value: model.id.clone() };
        let previous = self.models.put(model);
        match previous {
            Some(p) => {
                let _ = self.model_ids_by_upstream_model.delete(p.upstream_model.as_str());
            },
            None => {},
        }
        let _ = self.model_ids_by_upstream_model.put(entry);
    }

    /// Removes model `model_id`, and its upstream model from the index.
    pub fn delete_model(&mut self, model_id: &str)
        requires
            old(self).wf(),
        ensures
            final(self).wf(),
            final(self)@ == (CacheView {
                models: old(self)@.models.remove(model_id@),
                upstream_index: if old(self)@.models.dom().contains(model_id@) {
                    old(self)@.upstream_index.remove(old(self)@.models[model_id@].upstream_model)
                } else {
                    old(self)@.upstream_index
                },
                ..old(self)@
            }),
    {
        let removed = self.models.delete(model_id);
        match removed {
            Some(m) => {
                let _ = self.model_ids_by_upstream_model.delete(m.upstream_model.as_str());
            },
            None => {},
        }
    }

    /// Copies of every model.
    pub fn list_models(&self) -> (r: Vec<RaceModelDescriptor>)
        requires
            self.wf(),
        ensures
            forall|i: int|
                0 <= i < r.len() ==> self@.models.dom().contains((#[trigger] r@[i])@.id)
                    && self@.models[r@[i]@.id] == r@[i]@,
            forall|id: Seq<char>|
                #[trigger] self@.models.dom().contains(id) ==> exists|i: int|
                    0 <= i < r.len() && (#[trigger] r@[i])@.id == id,
            ids_unique(r@),
    {
        let r = self.models.list();
        proof {
            self.models.lemma_values_are_entries();
            assert forall|i: int| 0 <= i < r.len() implies self@.models.dom().contains(
                (#[trigger] r@[i])@.id,
            ) && self@.models[r@[i]@.id] == r@[i]@ by {
                assert(r@[i]@ == self.models.values()[i]);
            }
            assert forall|id: Seq<char>| #[trigger] self@.models.dom().contains(id) implies exists|i: int|
                0 <= i < r.len() && (#[trigger] r@[i])@.id == id by {
                let i = choose|i: int|
                    0 <= i < self.models.values().len() && #[trigger] self.models.values()[i].id == id;
                assert(r@[i]@ == self.models.values()[i]);
            }
            assert forall|i: int, j: int|
                0 <= i < r@.len() && 0 <= j < r@.len() && i != j implies (#[trigger] r@[i])@.id
                    != (#[trigger] r@[j])@.id by {
                assert(r@[i]@ == self.models.values()[i]);
                assert(r@[j]@ == self.models.values()[j]);
            }
        }
        r
    }

    /// A copy of key pool `key_pool_id`, if the catalog has it.
    pub fn get_key_pool(&self, key_pool_id: &str) -> (r: Option<RaceKeyPool>)
        requires
            self.wf(),
        ensures
            match r {
                Some(p) => self@.key_pools.dom().contains(key_pool_id@) && p@
                    == self@.key_pools[key_pool_id@] && p.id@ == key_pool_id@,
                None => !self@.key_pools.dom().contains(key_pool_id@),
            },
    {
        self.key_pools.get(key_pool_id)
    }

    /// Stores a key pool under its id, replacing the one stored there.
    pub fn put_key_pool(&mut self, key_pool: RaceKeyPool)
        requires
            old(self).wf(),
        ensures
            final(self).wf(),
            final(self)@ == (CacheView {
                key_pools: old(self)@.key_pools.insert(key_pool@.id, key_pool@),
                ..old(self)@
            }),
    {
        let _ = self.key_pools.put(key_pool);
    }

    /// Removes key pool `key_pool_id`.
    pub fn delete_key_pool(&mut self, key_pool_id: &str)
        requires
            old(self).wf(),
        ensures
            final(self).wf(),
            final(self)@ == (CacheView {
                key_pools: old(self)@.key_pools.remove(key_pool_id@),
                ..old(self)@
            }),
    {
        let _ = self.key_pools.delete(key_pool_id);
    }

    /// Copies of every key pool.
    pub fn list_key_pools(&self) -> (r: Vec<RaceKeyPool>)
        requires
            self.wf(),
        ensures
            forall|i: int|
                0 <= i < r.len() ==> self@.key_pools.dom().contains((#[trigger] r@[i])@.id)
                    && self@.key_pools[r@[i]@.id] == r@[i]@,
            forall|id: Seq<char>|
                #[trigger] self@.key_pools.dom().contains(id) ==> exists|i: int|
                    0 <= i < r.len() && (#[trigger] r@[i])@.id == id,
            ids_unique(r@),
    {
        let r = self.key_pools.list();
        proof {
            self.key_pools.lemma_values_are_entries();
            assert forall|i: int| 0 <= i < r.len() implies self@.key_pools.dom().contains(
                (#[trigger] r@[i])@.id,
            ) && self@.key_pools[r@[i]@.id] == r@[i]@ by {
                assert(r@[i]@ == self.key_pools.values()[i]);
            }
            assert forall|id: Seq<char>| #[trigger] self@.key_pools.dom().contains(id) implies exists|i: int|
                0 <= i < r.len() && (#[trigger] r@[i])@.id == id by {
                let i = choose|i: int|
                    0 <= i < self.key_pools.values().len() && #[trigger] self.key_pools.values()[i].id
                        == id;
                assert(r@[i]@ == self.key_pools.values()[i]);
            }
            assert forall|i: int, j: int|
                0 <= i < r@.len() && 0 <= j < r@.len() && i != j implies (#[trigger] r@[i])@.id
                    != (#[trigger] r@[j])@.id by {
                assert(r@[i]@ == self.key_pools.values()[i]);
                assert(r@[j]@ == self.key_pools.values()[j]);
            }
        }
        r
    }

    /// The race settings.
    pub fn get_settings(&self) -> (r: RaceSettings)
        ensures
            r == self@.settings,
    {
        self.settings
    }

    /// Replaces the race settings.
    pub fn put_settings(&mut self, settings: RaceSettings)
        ensures
            final(self)@ == (CacheView { settings: settings, ..old(self)@ }),
            final(self).wf() == old(self).wf(),
    {
        self.settings = settings;
    }
}


impl ConfigSnapshotCache {
    /// The models that `candidates` reach (see `reached_model`), each once.
    pub fn models_for_candidates(&self, candidates: &Vec<RaceCandidate>) -> (r: Vec<
        RaceModelDescriptor,
    >)
        requires
            self.wf(),
        ensures
            ids_unique(r@),
            keyed(r@) == self@.models.restrict(reached_models(candidates_view(candidates@), self@)),
    {
        let ghost cv = candidates_view(candidates@);
        let mut table: EntryTable<RaceModelDescriptor> = EntryTable::new();
        let mut i: usize = 0;
        proof {
            assert(reached_models(cv.subrange(0, 0), self@) =~= Set::<Seq<char>>::empty());
            assert(self@.models.restrict(Set::<Seq<char>>::empty()) =~= Map::<
                Seq<char>,
                ModelView,
            >::empty());
        }
        while i < candidates.len()
            invariant
                i <= candidates.len(),
                self.wf(),
                cv == candidates_view(candidates@),
                table.wf(),
                table.entries() == self@.models.restrict(
                    reached_models(cv.subrange(0, i as int), self@),
                ),
            decreases candidates.len() - i,
        {
            let c = &candidates[i];
            assert(cv[i as int] == c@);
            let ghost before = reached_models(cv.subrange(0, i as int), self@);
            let ghost after = reached_models(cv.subrange(0, i + 1), self@);
            let found: Option<RaceModelDescriptor> = match &c.model_id {
                Some(mid) => self.models.get(mid.as_str()),
                None => {
                    let up = trim_str(c.upstream_model.as_str());
                    if up.as_str().unicode_len() == 0 {
                        None
                    } else {
                        match self.model_ids_by_upstream_model.get(up.as_str()) {
                            Some(kv) => self.models.get(kv.value.as_str()),
                            None => None,
                        }
                    }
                },
            };
            proof {
                let pre = cv.subrange(0, i as int);
                let post = cv.subrange(0, i + 1);
                assert forall|id: Seq<char>| #[trigger] after.contains(id) == (before.contains(id)
                    || reached_model(cv[i as int], self@) == Some(id)) by {
                    if before.contains(id) {
                        let j = choose|j: int|
                            0 <= j < pre.len() && reached_model(#[trigger] pre[j], self@) == Some(id);
                        assert(post[j] == pre[j]);
                    }
                    if reached_model(cv[i as int], self@) == Some(id) {
                        assert(post[i as int] == cv[i as int]);
                    }
                    if after.contains(id) {
                        let j = choose|j: int|
                            0 <= j < post.len() && reached_model(#[trigger] post[j], self@) == Some(id);
                        if j < i {
                            assert(post[j] == pre[j]);
                        }
                    }
                }
            }
            match found {
                Some(m) => {
                    assert(reached_model(cv[i as int], self@) == Some(m@.id));
                    let _ = table.put(m);
                    assert(table.entries() =~= self@.models.restrict(after));
                },
                None => {
                    assert(reached_model(cv[i as int], self@).is_none());
                    assert(table.entries() =~= self@.models.restrict(after));
                },
            }
            i += 1;
        }
        assert(cv.subrange(0, candidates.len() as int) =~= cv);
        table.into_vec()
    }
}


/// The values of `s` stored in order, each under its id: a later value
/// replaces an earlier one with the same id.
pub open spec fn stored_in_order<T: CatalogEntry>(s: Seq<T>) -> Map<Seq<char>, T::V>
    decreases s.len(),
{
    if s.len() == 0 {
        Map::empty()
    } else {
        stored_in_order(s.drop_last()).insert(T::entry_id(s.last()@), s.last()@)
    }
}

/// The upstream index points every upstream model of the catalog's models
/// at one model that has it, and holds nothing else.
pub open spec fn index_covers_models(v: CacheView) -> bool {
    &&& forall|u: Seq<char>|
        #[trigger] v.upstream_index.dom().contains(u) <==> exists|id: Seq<char>|
            v.models.dom().contains(id) && (#[trigger] v.models[id]).upstream_model == u
    &&& forall|u: Seq<char>|
        #[trigger] v.upstream_index.dom().contains(u) ==> {
            &&& v.upstream_index[u].0 == u
            &&& v.models.dom().contains(v.upstream_index[u].1)
            &&& v.models[v.upstream_index[u].1].upstream_model == u
        }
}

impl<T: CatalogEntry> EntryTable<T> {
    /// Stores the values in order (a later value replaces an earlier one
    /// with the same id).
    pub fn put_all(&mut self, values: Vec<T>)
        requires
            old(self).wf(),
        ensures
            final(self).wf(),
            final(self).entries() == old(self).entries().union_prefer_right(stored_in_order(values@)),
    {
        let ghost start = self.entries();
        let ghost vs = values@;
        let n0 = values.len();
        let mut values = values;
        let mut rest: Vec<T> = Vec::new();
        // Reverse so that popping yields the values in order.
        while values.len() > 0
            invariant
                rest@ + values@.reverse() == vs.reverse(),
            decreases values.len(),
        {
            let v = values.pop().unwrap();
            let ghost before = values@;
            rest.push(v);
            proof {
                assert(values@.push(v).reverse() =~= seq![v] + values@.reverse());
            }
        }
        assert(rest@ =~= vs.reverse());
        let ghost n = vs.len();
        let mut k: usize = 0;
        while rest.len() > 0
            invariant
                self.wf(),
                rest@ == vs.reverse().subrange(0, n - k),
                k <= n,
                n == vs.len(),
                n == n0,
                self.entries() == start.union_prefer_right(stored_in_order(vs.subrange(0, k as int))),
            decreases rest.len(),
        {
            let v = rest.pop().unwrap();
            assert(v == vs[k as int]);
            let _ = self.put(v);
            proof {
                assert(vs.subrange(0, k + 1).drop_last() =~= vs.subrange(0, k as int));
                assert(self.entries() =~= start.union_prefer_right(
                    stored_in_order(vs.subrange(0, k + 1)),
                ));
            }
            k += 1;
        }
        assert(vs.subrange(0, n as int) =~= vs);
    }
}

impl ConfigSnapshotCache {
    /// Points each stored model's upstream model at it, model by model in
    /// storage order, over an empty index.
    fn rebuild_index(&mut self)
        requires
            old(self).wf(),
        ensures
            final(self).wf(),
            final(self)@ == (CacheView { upstream_index: final(self)@.upstream_index, ..old(self)@ }),
            index_covers_models(final(self)@),
    {
        let mut index: EntryTable<KeyValue> = EntryTable::new();
        let models = self.models.as_vec();
        let ghost mv = models@.map_values(|m: RaceModelDescriptor| m@);
        proof {
            self.models.lemma_values_are_entries();
        }
        let mut i: usize = 0;
        while i < models.len()
            invariant
                i <= models.len(),
                index.wf(),
                mv == models@.map_values(|m: RaceModelDescriptor| m@),
                forall|u: Seq<char>|
                    #[trigger] index.entries().dom().contains(u) <==> exists|j: int|
                        0 <= j < i && (#[trigger] mv[j]).upstream_model == u,
                forall|u: Seq<char>|
                    #[trigger] index.entries().dom().contains(u) ==> exists|j: int|
                        0 <= j < i && (#[trigger] mv[j]).upstream_model == u && index.entries()[u]
                            == (u, mv[j].id),
            decreases models.len() - i,
        {
            let m = &models[i];
            assert(mv[i as int] == m@);
            let kv = KeyValue { key: m.upstream_model.clone(), value: m.id.clone() };
            let ghost before = index.entries();
            let _ = index.put(kv);
            proof {
                assert forall|u: Seq<char>| #[trigger] index.entries().dom().contains(u) <==> exists|j: int|
                    0 <= j < i + 1 && (#[trigger] mv[j]).upstream_model == u by {
                    if u == mv[i as int].upstream_model {
                        assert(0 <= i < i + 1);
                    }
                }
                assert forall|u: Seq<char>| #[trigger] index.entries().dom().contains(u) implies exists|j: int|
                    0 <= j < i + 1 && (#[trigger] mv[j]).upstream_model == u && index.entries()[u]
                        == (u, mv[j].id) by {
                    if u == mv[i as int].upstream_model {
                        assert(index.entries()[u] == (u, mv[i as int].id));
                    } else {
                        assert(before.dom().contains(u));
                        let j = choose|j: int|
                            0 <= j < i && (#[trigger] mv[j]).upstream_model == u && before[u] == (
                                u,
                                mv[j].id,
                            );
                    }
                }
            }
            i += 1;
        }
        self.model_ids_by_upstream_model = index;
        proof {
            let v = self@;
            assert forall|u: Seq<char>| #[trigger] v.upstream_index.dom().contains(u) <==> exists|id: Seq<char>|
                v.models.dom().contains(id) && (#[trigger] v.models[id]).upstream_model == u by {
                if v.upstream_index.dom().contains(u) {
                    let j = choose|j: int| 0 <= j < mv.len() && (#[trigger] mv[j]).upstream_model == u;
                    assert(self.models.values()[j] == mv[j]);
                    assert(v.models[mv[j].id] == mv[j]);
                }
                if exists|id: Seq<char>|
                    v.models.dom().contains(id) && (#[trigger] v.models[id]).upstream_model == u {
                    let id = choose|id: Seq<char>|
                        v.models.dom().contains(id) && (#[trigger] v.models[id]).upstream_model == u;
                    let j = choose|j: int|
                        0 <= j < self.models.values().len() && #[trigger] self.models.values()[j].id
                            == id;
                    assert(mv[j] == self.models.values()[j]);
                    assert(v.models[id] == mv[j]);
                }
            }
            assert forall|u: Seq<char>| #[trigger] v.upstream_index.dom().contains(u) implies {
                &&& v.upstream_index[u].0 == u
                &&& v.models.dom().contains(v.upstream_index[u].1)
                &&& v.models[v.upstream_index[u].1].upstream_model == u
            } by {
                let j = choose|j: int|
                    0 <= j < mv.len() && (#[trigger] mv[j]).upstream_model == u && v.upstream_index[u]
                        == (u, mv[j].id);
                assert(self.models.values()[j] == mv[j]);
            }
        }
    }

    /// A catalog holding the loaded configuration: groups, models and key
    /// pools each stored in order under their id (a later one replaces an
    /// earlier one with the same id), the upstream index built from the
    /// stored models, and the settings.
    pub fn load(
        groups: Vec<RaceGroup>,
        models: Vec<RaceModelDescriptor>,
        key_pools: Vec<RaceKeyPool>,
        settings: RaceSettings,
    ) -> (r: Self)
        ensures
            r.wf(),
            r@.groups == stored_in_order(groups@),
            r@.models == stored_in_order(models@),
            r@.key_pools == stored_in_order(key_pools@),
            r@.settings == settings,
            index_covers_models(r@),
    {
        let mut cache = ConfigSnapshotCache::new(settings);
        cache.groups.put_all(groups);
        cache.models.put_all(models);
        cache.key_pools.put_all(key_pools);
        cache.rebuild_index();
        assert(cache@.groups =~= stored_in_order(groups@));
        assert(cache@.models =~= stored_in_order(models@));
        assert(cache@.key_pools =~= stored_in_order(key_pools@));
        cache
    }

    /// The models that the candidates of `groups` reach, each once.
    pub fn models_for_groups(&self, groups: &Vec<RaceGroup>) -> (r: Vec<RaceModelDescriptor>)
        requires
            self.wf(),
        ensures
            ids_unique(r@),
            keyed(r@) == self@.models.restrict(
                reached_models(candidates_view(all_candidates(groups@)), self@),
            ),
    {
        let mut candidates: Vec<RaceCandidate> = Vec::new();
        let mut i: usize = 0;
        while i < groups.len()
            invariant
                i <= groups.len(),
                candidates_view(candidates@) == candidates_view(
                    all_candidates(groups@.subrange(0, i as int)),
                ),
            decreases groups.len() - i,
        {
            let mut more = clone_candidates(&groups[i].candidates);
            let ghost before = candidates@;
            let ghost more0 = more@;
            candidates.append(&mut more);
            proof {
                let a = all_candidates(groups@.subrange(0, i as int));
                assert(groups@.subrange(0, i + 1).drop_last() =~= groups@.subrange(0, i as int));
                assert(all_candidates(groups@.subrange(0, i + 1)) == a + groups@[i as int].candidates@);
                assert(candidates_view(a + groups@[i as int].candidates@) =~= candidates_view(a)
                    + candidates_view(groups@[i as int].candidates@));
                assert(candidates_view(before + more0) =~= candidates_view(before) + candidates_view(
                    more0,
                ));
                assert(candidates_view(candidates@) =~= candidates_view(
                    all_candidates(groups@.subrange(0, i + 1)),
                ));
            }
            i += 1;
        }
        assert(groups@.subrange(0, groups.len() as int) =~= groups@);
        let r = self.models_for_candidates(&candidates);
        assert(reached_models(candidates_view(candidates@), self@) =~= reached_models(
            candidates_view(all_candidates(groups@)),
            self@,
        ));
        r
    }
}


/// Storing a group and then reading its id gives the stored group back;
/// every other group reads as before.
pub proof fn law_group_read_after_put(before: CacheView, g: GroupView, id: Seq<char>)
    ensures
        ({
            let after = CacheView { groups: before.groups.insert(g.id, g), ..before };
            &&& after.groups.dom().contains(g.id)
            &&& after.groups[g.id] == g
            &&& id != g.id ==> after.groups.dom().contains(id) == before.groups.dom().contains(id)
                && after.groups[id] == before.groups[id]
            &&& after.models == before.models && after.key_pools == before.key_pools
        }),
{
}

/// Deleting a group makes its id read as absent; every other group reads
/// as before.
pub proof fn law_group_read_after_delete(before: CacheView, deleted: Seq<char>, id: Seq<char>)
    ensures
        ({
            let after = CacheView { groups: before.groups.remove(deleted), ..before };
            &&& !after.groups.dom().contains(deleted)
            &&& id != deleted ==> after.groups.dom().contains(id) == before.groups.dom().contains(id)
                && after.groups[id] == before.groups[id]
        }),
{
}

/// Storing a model and then reading its id gives the stored model back,
/// and its upstream model then points at it; every other model reads as
/// before.
pub proof fn law_model_read_after_put(before: CacheView, m: ModelView, id: Seq<char>)
    ensures
        ({
            let previous = if before.models.dom().contains(m.id) {
                Some(before.models[m.id])
            } else {
                None
            };
            let after = CacheView {
                models: before.models.insert(m.id, m),
                upstream_index: index_after_put(before.upstream_index, previous, m),
                ..before
            };
            &&& after.models.dom().contains(m.id)
            &&& after.models[m.id] == m
            &&& after.upstream_index.dom().contains(m.upstream_model)
            &&& after.upstream_index[m.upstream_model] == (m.upstream_model, m.id)
            &&& id != m.id ==> after.models.dom().contains(id) == before.models.dom().contains(id)
                && after.models[id] == before.models[id]
        }),
{
}

/// Deleting a model makes its id read as absent and takes its upstream
/// model out of the index.
pub proof fn law_model_read_after_delete(before: CacheView, deleted: Seq<char>)
    requires
        before.models.dom().contains(deleted),
    ensures
        ({
            let after = CacheView {
                models: before.models.remove(deleted),
                upstream_index: before.upstream_index.remove(before.models[deleted].upstream_model),
                ..before
            };
            &&& !after.models.dom().contains(deleted)
            &&& !after.upstream_index.dom().contains(before.models[deleted].upstream_model)
        }),
{
}

/// Storing a key pool and then reading its id gives the stored pool back;
/// every other pool reads as before.
pub proof fn law_key_pool_read_after_put(before: CacheView, p: KeyPoolView, id: Seq<char>)
    ensures
        ({
            let after = CacheView { key_pools: before.key_pools.insert(p.id, p), ..before };
            &&& after.key_pools.dom().contains(p.id)
            &&& after.key_pools[p.id] == p
            &&& id != p.id ==> after.key_pools.dom().contains(id) == before.key_pools.dom().contains(
                id,
            ) && after.key_pools[id] == before.key_pools[id]
        }),
{
}

/// A catalog loaded with distinct ids holds each loaded value under its id.
pub proof fn law_load_keeps_distinct_entries<T: CatalogEntry>(s: Seq<T>, i: int)
    requires
        ids_unique(s),
        0 <= i < s.len(),
    ensures
        stored_in_order(s).dom().contains(T::entry_id(s[i]@)),
        stored_in_order(s)[T::entry_id(s[i]@)] == s[i]@,
    decreases s.len(),
{
    if i < s.len() - 1 {
        let d = s.drop_last();
        assert forall|a: int, b: int|
            0 <= a < d.len() && 0 <= b < d.len() && a != b implies T::entry_id((#[trigger] d[a])@)
                != T::entry_id((#[trigger] d[b])@) by {
            assert(d[a] == s[a] && d[b] == s[b]);
        }
        law_load_keeps_distinct_entries(d, i);
        assert(d[i] == s[i]);
        assert(T::entry_id(s.last()@) != T::entry_id(s[i]@));
    }
}

} // verus!
