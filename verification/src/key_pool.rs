//! Picking a credential out of a key pool, and masked views of a pool.
use vstd::prelude::*;

use rand::rngs::StdRng;
use rand::seq::SliceRandom;
use rand::{Rng, SeedableRng};

use crate::domain::types::{keys_view, KeyView, RaceKey, RaceKeyPool};
use crate::group::diagnostics::{boundary_at, mask_key, masked};
use crate::text::{is_blank, push_str, str_is_blank, trim};

verus! {

/// The enabled keys of a pool with a secret, masked for display.
#[derive(Debug, PartialEq, Eq)]
pub struct KeyPoolSnapshot {
    pub key_count: usize,
    pub masked_keys: Vec<String>,
}

/// A key can be handed out: it is enabled and its secret is not blank.
pub open spec fn usable_key(k: KeyView) -> bool {
    k.enabled && !is_blank(k.secret)
}

/// Indices of the usable keys among the first `n` keys, in order.
pub open spec fn usable_key_indices(ks: Seq<KeyView>, n: int) -> Seq<int>
    decreases n,
{
    if n <= 0 {
        seq![]
    } else if usable_key(ks[n - 1]) {
        usable_key_indices(ks, n - 1).push(n - 1)
    } else {
        usable_key_indices(ks, n - 1)
    }
}

proof fn lemma_usable_key_indices(ks: Seq<KeyView>, n: int)
    requires
        0 <= n <= ks.len(),
    ensures
        forall|i: int|
            0 <= i < usable_key_indices(ks, n).len() ==> {
                let k = #[trigger] usable_key_indices(ks, n)[i];
                0 <= k < n && usable_key(ks[k])
            },
        forall|k: int| 0 <= k < n && usable_key(ks[k]) ==> usable_key_indices(ks, n).contains(k),
    decreases n,
{
    if n > 0 {
        lemma_usable_key_indices(ks, n - 1);
        let prev = usable_key_indices(ks, n - 1);
        let cur = usable_key_indices(ks, n);
        assert forall|i: int| 0 <= i < cur.len() implies {
            let k = #[trigger] cur[i];
            0 <= k < n && usable_key(ks[k])
        } by {
            if i < prev.len() {
                assert(cur[i] == prev[i]);
            }
        }
        if usable_key(ks[n - 1]) {
            assert(cur[prev.len() as int] == n - 1);
        }
        assert forall|k: int| 0 <= k < n && usable_key(ks[k]) implies cur.contains(k) by {
            if k < n - 1 {
                assert(prev.contains(k));
                let j = choose|j: int| 0 <= j < prev.len() && prev[j] == k;
                assert(cur[j] == k);
            } else {
                assert(cur[prev.len() as int] == n - 1);
            }
        }
    }
}

/// Indices of the keys of `keys` that can be handed out, in order.
pub fn usable_keys(keys: &Vec<RaceKey>) -> (r: Vec<usize>)
    ensures
        r@.map_values(|x: usize| x as int) == usable_key_indices(keys_view(keys@), keys@.len() as int),
{
    let ghost kv = keys_view(keys@);
    let mut out: Vec<usize> = Vec::new();
    let mut i: usize = 0;
    while i < keys.len()
        invariant
            i <= keys.len(),
            kv == keys_view(keys@),
            out@.map_values(|x: usize| x as int) == usable_key_indices(kv, i as int),
        decreases keys.len() - i,
    {
        assert(kv[i as int] == keys@[i as int]@);
        let ghost before = out@;
        if keys[i].enabled && !str_is_blank(keys[i].secret.as_str()) {
            out.push(i);
            assert(out@.map_values(|x: usize| x as int) =~= before.map_values(|x: usize| x as int).push(i as int));
        }
        i += 1;
    }
    out
}

/// Why no key could be picked.
#[derive(Debug, PartialEq, Eq)]
pub enum KeyPoolError {
    /// The pool is disabled.
    Disabled { pool: String },
    /// The pool holds no enabled key with a secret.
    NoEnabledKey { pool: String },
}

impl KeyPoolError {
    /// The human-readable message of the error.
    pub fn message(&self) -> (r: String)
        ensures
            r@ == match self {
                KeyPoolError::Disabled { pool } => "key pool '"@ + pool@ + "' is disabled"@,
                KeyPoolError::NoEnabledKey { pool } => "key pool '"@ + pool@
                    + "' does not contain any enabled key"@,
            },
    {
        let mut out = String::new();
        match self {
            KeyPoolError::Disabled { pool } => {
                push_str(&mut out, "key pool '");
                push_str(&mut out, pool.as_str());
                push_str(&mut out, "' is disabled");
            },
            KeyPoolError::NoEnabledKey { pool } => {
                push_str(&mut out, "key pool '");
                push_str(&mut out, pool.as_str());
                push_str(&mut out, "' does not contain any enabled key");
            },
        }
        out
    }
}

/// The element that `rand`'s `StdRng`, seeded with `seed`, picks out of
/// `items` (`SliceRandom::choose`).
pub uninterp spec fn seeded_choice(items: Seq<usize>, seed: u64) -> usize;

/// Picks one of `items` with `rand`'s `StdRng` seeded with `seed`
/// (`SliceRandom::choose`). Claimed: the pick is one of `items`, and it is
/// determined by `items` and `seed` (named `seeded_choice`); which element
/// the generator picks is not stated.
#[verifier::external_body]
fn choose_seeded(items: &Vec<usize>, seed: u64) -> (r: usize)
    requires
        items@.len() > 0,
    ensures
        r == seeded_choice(items@, seed),
        items@.contains(r),
{
    let mut rng = StdRng::seed_from_u64(seed);
    *items.choose(&mut rng).expect("items is not empty")
}

/// A uniformly random index below `len` from `rand`'s thread-local
/// generator (`Rng::gen_range`). Claimed: the index is below `len`.
#[verifier::external_body]
fn random_index(len: usize) -> (r: usize)
    requires
        len > 0,
    ensures
        r < len,
{
    rand::thread_rng().gen_range(0..len)
}

/// The key of `pool` at position `pick` among its usable keys; the pick is
/// made by a random source.
pub fn key_at_pick<'a>(pool: &'a RaceKeyPool, usable: &Vec<usize>, pick: usize) -> (r: &'a RaceKey)
    requires
        usable@.map_values(|x: usize| x as int) == usable_key_indices(keys_view(pool.keys@), pool.keys@.len() as int),
        pick < usable@.len(),
    ensures
        *r == pool.keys@[usable@[pick as int] as int],
        exists|i: int| 0 <= i < pool.keys@.len() && *r == pool.keys@[i] && usable_key(pool.keys@[i]@),
{
    proof {
        lemma_usable_key_indices(keys_view(pool.keys@), pool.keys@.len() as int);
    }
    let i = usable[pick];
    assert(usable@.map_values(|x: usize| x as int)[pick as int] == i as int);
    assert(keys_view(pool.keys@)[i as int] == pool.keys@[i as int]@);
    &pool.keys[i]
}

/// The positions of the usable keys of `ks`, in order.
pub open spec fn usable_positions(ks: Seq<KeyView>) -> Seq<usize> {
    usable_key_indices(ks, ks.len() as int).map_values(|i: int| i as usize)
}

/// Picks the key used for an upstream request.
pub trait KeyPoolSelector {
    /// Picks a usable key of `pool`; a seed makes the pick repeatable.
    fn select_key<'a>(&self, pool: &'a RaceKeyPool, request_seed: Option<u64>) -> (r: Result<
        &'a RaceKey,
        KeyPoolError,
    >)
        ensures
            !pool.enabled ==> r == Err::<&'a RaceKey, KeyPoolError>(
                KeyPoolError::Disabled { pool: pool.id },
            ),
            pool.enabled && usable_key_indices(keys_view(pool.keys@), pool.keys@.len() as int).len()
                == 0 ==> r == Err::<&'a RaceKey, KeyPoolError>(
                KeyPoolError::NoEnabledKey { pool: pool.id },
            ),
            pool.enabled && usable_key_indices(keys_view(pool.keys@), pool.keys@.len() as int).len()
                > 0 ==> r.is_ok() && exists|i: int|
                0 <= i < pool.keys@.len() && *r.unwrap() == pool.keys@[i] && usable_key(
                    pool.keys@[i]@,
                ),
            pool.enabled && usable_key_indices(keys_view(pool.keys@), pool.keys@.len() as int).len()
                > 0 ==> match request_seed {
                Some(seed) => *r.unwrap() == pool.keys@[seeded_choice(
                    usable_positions(keys_view(pool.keys@)),
                    seed,
                ) as int],
                None => true,
            },
    ;
}

/// Picks a usable key uniformly at random.
#[derive(Debug, Default, Clone, Copy)]
pub struct RandomKeyPoolSelector;

impl KeyPoolSelector for RandomKeyPoolSelector {
    fn select_key<'a>(&self, pool: &'a RaceKeyPool, request_seed: Option<u64>) -> (r: Result<
        &'a RaceKey,
        KeyPoolError,
    >) {
        if !pool.enabled {
            return Err(KeyPoolError::Disabled { pool: pool.id.clone() });
        }
        let usable = usable_keys(&pool.keys);
        proof {
            lemma_usable_key_indices(keys_view(pool.keys@), pool.keys@.len() as int);
            assert(usable@ =~= usable_positions(keys_view(pool.keys@))) by {
                let ints = usable@.map_values(|x: usize| x as int);
                assert forall|j: int| 0 <= j < usable@.len() implies usable@[j] == usable_positions(
                    keys_view(pool.keys@),
                )[j] by {
                    assert(ints[j] == usable@[j] as int);
                }
            }
        }
        if usable.len() == 0 {
            return Err(KeyPoolError::NoEnabledKey { pool: pool.id.clone() });
        }
        let pick = match request_seed {
            Some(seed) => {
                let chosen = choose_seeded(&usable, seed);
                let mut p: usize = 0;
                while p < usable.len() && usable[p] != chosen
                    invariant
                        p <= usable@.len(),
                        usable@.contains(chosen),
                        forall|q: int| 0 <= q < p ==> usable@[q] != chosen,
                    decreases usable.len() - p,
                {
                    p += 1;
                }
                assert(usable@[p as int] == chosen);
                p
            },
            None => random_index(usable.len()),
        };
        Ok(key_at_pick(pool, &usable, pick))
    }
}

/// The masked secrets of the usable keys of `ks`, in order.
pub open spec fn masked_usable(ks: Seq<KeyView>, out: Seq<Seq<char>>) -> bool {
    let idx = usable_key_indices(ks, ks.len() as int);
    &&& out.len() == idx.len()
    &&& forall|i: int| 0 <= i < out.len() ==> masked(ks[idx[i]].secret, #[trigger] out[i])
}

/// Every usable key's secret can be masked (its eighth byte falls on a
/// character boundary when it is longer).
pub open spec fn secrets_maskable(ks: Seq<KeyView>) -> bool {
    forall|i: int| 0 <= i < ks.len() && usable_key(ks[i]) ==> boundary_at(trim(#[trigger] ks[i].secret), 8)
}

/// The usable keys of a pool, with their secrets masked.
pub fn snapshot(pool: &RaceKeyPool) -> (r: KeyPoolSnapshot)
    requires
        secrets_maskable(keys_view(pool.keys@)),
    ensures
        r.key_count == r.masked_keys@.len(),
        masked_usable(keys_view(pool.keys@), r.masked_keys@.map_values(|s: String| s@)),
{
    let ghost kv = keys_view(pool.keys@);
    let mut masked_keys: Vec<String> = Vec::new();
    let mut i: usize = 0;
    while i < pool.keys.len()
        invariant
            i <= pool.keys.len(),
            kv == keys_view(pool.keys@),
            secrets_maskable(kv),
            masked_keys@.len() == usable_key_indices(kv, i as int).len(),
            forall|t: int|
                0 <= t < masked_keys@.len() ==> masked(
                    kv[usable_key_indices(kv, i as int)[t]].secret,
                    (#[trigger] masked_keys@[t])@,
                ),
        decreases pool.keys.len() - i,
    {
        let k = &pool.keys[i];
        assert(kv[i as int] == k@);
        let ghost before = masked_keys@;
        let ghost prev_idx = usable_key_indices(kv, i as int);
        if k.enabled && !str_is_blank(k.secret.as_str()) {
            assert(usable_key(kv[i as int]));
            assert(boundary_at(trim(kv[i as int].secret), 8));
            let m = mask_key(k.secret.as_str());
            masked_keys.push(m);
            proof {
                let idx = usable_key_indices(kv, i + 1);
                assert(idx == prev_idx.push(i as int));
                assert forall|t: int| 0 <= t < masked_keys@.len() implies masked(
                    kv[idx[t]].secret,
                    (#[trigger] masked_keys@[t])@,
                ) by {
                    if t < before.len() {
                        assert(masked_keys@[t] == before[t]);
                        assert(idx[t] == prev_idx[t]);
                    }
                }
            }
        }
        i += 1;
    }
    let ghost mv = masked_keys@.map_values(|s: String| s@);
    assert forall|t: int| 0 <= t < mv.len() implies masked(
        kv[usable_key_indices(kv, kv.len() as int)[t]].secret,
        #[trigger] mv[t],
    ) by {
        assert(mv[t] == masked_keys@[t]@);
    }
    KeyPoolSnapshot { key_count: masked_keys.len(), masked_keys }
}

} // verus!
