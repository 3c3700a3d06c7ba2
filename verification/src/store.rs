//! The particle store: particles under stable keys, in the order of their
//! creation.
//!
//! The keys and the storage come from a `slotmap::SlotMap`. This module
//! states what the engine relies on from it, and builds the store's own
//! guarantees on that.
use vstd::prelude::*;
use vstd::seq_lib::seq_to_set_is_finite;
use slotmap::SlotMap;
use crate::particle2d::{Particle2D, ParticleKey};
use crate::vector2d::Vector2D;

verus! {

/// The arena that holds the particles. It is opaque to the verifier: what
/// it holds is named by [`arena_entries`].
#[verifier::external_body]
pub struct Arena {
    map: SlotMap<ParticleKey, Particle2D>,
}

/// The particles an arena holds, by key.
pub uninterp spec fn arena_entries(arena: Arena) -> Map<ParticleKey, Particle2D>;

/// No particles.
pub open spec fn no_entries() -> Map<ParticleKey, Particle2D> {
    Map::empty()
}

/// `SlotMap::with_key`: a new arena holds nothing.
#[verifier::external_body]
fn arena_new() -> (arena: Arena)
    ensures
        arena_entries(arena) == no_entries(),
{
    Arena { map: SlotMap::with_key() }
}

/// `SlotMap::insert_with_key`, handed `Particle2D::new`: the arena picks a
/// key that it does not hold, stores under it the new particle made with
/// that key, and keeps every other entry. The call panics on a full arena
/// only, which cannot be one that holds fewer than `u32::MAX - 1` entries,
/// as free slots are used first.
#[verifier::external_body]
fn arena_insert(arena: &mut Arena, position: &Vector2D) -> (key: ParticleKey)
    requires
        arena_entries(*old(arena)).dom().finite(),
        arena_entries(*old(arena)).dom().len() < u32::MAX - 1,
    ensures
        !arena_entries(*old(arena)).dom().contains(key),
        arena_entries(*final(arena)) == arena_entries(*old(arena)).insert(
            key,
            Particle2D::new_spec(key, *position),
        ),
{
    arena.map.insert_with_key(|k| Particle2D::new(k, position))
}

/// `SlotMap::remove`: the entry under `key` leaves, if there is one, and
/// nothing else changes.
#[verifier::external_body]
fn arena_remove(arena: &mut Arena, key: ParticleKey)
    ensures
        arena_entries(*final(arena)) == arena_entries(*old(arena)).remove(key),
{
    arena.map.remove(key);
}

/// `SlotMap::get`: the particle under `key`, if the arena holds that key.
#[verifier::external_body]
fn arena_get(arena: &Arena, key: ParticleKey) -> (r: Option<&Particle2D>)
    ensures
        r == if arena_entries(*arena).dom().contains(key) {
            Some(&arena_entries(*arena)[key])
        } else {
            None
        },
{
    arena.map.get(key)
}

/// `SlotMap::get_mut`, written through: the entry under `key` becomes
/// `particle` if the arena holds that key; else nothing changes.
#[verifier::external_body]
fn arena_put(arena: &mut Arena, key: ParticleKey, particle: Particle2D)
    ensures
        arena_entries(*final(arena)) == if arena_entries(*old(arena)).dom().contains(key) {
            arena_entries(*old(arena)).insert(key, particle)
        } else {
            arena_entries(*old(arena))
        },
{
    if let Some(slot) = arena.map.get_mut(key) {
        *slot = particle;
    }
}

/// `SlotMap::get_disjoint_mut` on two keys, read out: both particles if
/// the arena holds both keys and the keys differ; else nothing. The arena
/// is left as it was.
#[verifier::external_body]
fn arena_pair(arena: &mut Arena, a: ParticleKey, b: ParticleKey) -> (r: Option<
    (Particle2D, Particle2D),
>)
    ensures
        r == if a != b && arena_entries(*old(arena)).dom().contains(a) && arena_entries(
            *old(arena),
        ).dom().contains(b) {
            Some((arena_entries(*old(arena))[a], arena_entries(*old(arena))[b]))
        } else {
            None
        },
        arena_entries(*final(arena)) == arena_entries(*old(arena)),
{
    match arena.map.get_disjoint_mut([a, b]) {
        Some([x, y]) => Some((*x, *y)),
        None => None,
    }
}

/// `SlotMap::clear`: afterwards the arena holds nothing.
#[verifier::external_body]
fn arena_clear(arena: &mut Arena)
    ensures
        arena_entries(*final(arena)) == no_entries(),
{
    arena.map.clear()
}

/// `==` on keys: two keys compare equal exactly when they are the same key.
#[verifier::external_body]
pub(crate) fn same_key(a: ParticleKey, b: ParticleKey) -> (r: bool)
    ensures
        r == (a == b),
{
    a == b
}

/// The walk `order` visits each key of `entries` once and no other, and
/// every particle of `entries` carries the key it is held under.
pub open spec fn keys_match(entries: Map<ParticleKey, Particle2D>, order: Seq<ParticleKey>) -> bool {
    &&& order.no_duplicates()
    &&& forall|k: ParticleKey|
        #![trigger entries.dom().contains(k)]
        #![trigger order.contains(k)]
        order.contains(k) <==> entries.dom().contains(k)
    &&& forall|k: ParticleKey| #[trigger] entries.dom().contains(k) ==> entries[k].id == k
}

/// Where a walk visits each key of a map once and no other, the map has
/// as many keys as the walk has places.
pub proof fn matched_keys_are_counted(
    entries: Map<ParticleKey, Particle2D>,
    order: Seq<ParticleKey>,
)
    requires
        keys_match(entries, order),
    ensures
        entries.dom().finite(),
        entries.dom().len() == order.len(),
{
    assert(entries.dom() =~= order.to_set());
    order.unique_seq_to_set();
    seq_to_set_is_finite(order);
}

/// The largest number of particles a store takes.
pub const STORE_LIMIT: usize = 0xffff_fffe;

/// The particles of one object, each under the key it was created with,
/// walked in the order of their creation.
pub struct ParticleStore {
    arena: Arena,
    order: Vec<ParticleKey>,
}

impl ParticleStore {
    /// The particles held, by key.
    pub closed spec fn entries(&self) -> Map<ParticleKey, Particle2D> {
        arena_entries(self.arena)
    }

    /// The keys held, in the order in which their particles were created.
    pub closed spec fn order(&self) -> Seq<ParticleKey> {
        self.order@
    }

    /// Whether the store holds a particle under `key`.
    pub open spec fn contains(&self, key: ParticleKey) -> bool {
        self.entries().dom().contains(key)
    }

    /// The store is in order: the walk visits each key held once and no
    /// other, and every particle carries the key it is held under.
    pub open spec fn wf(&self) -> bool {
        keys_match(self.entries(), self.order())
    }

    /// An empty store.
    pub fn new() -> (r: ParticleStore)
        ensures
            r.wf(),
            r.entries() == no_entries(),
            r.order().len() == 0,
    {
        ParticleStore { arena: arena_new(), order: Vec::new() }
    }

    /// The number of particles held.
    pub fn len(&self) -> (r: usize)
        ensures
            r == self.order().len(),
    {
        self.order.len()
    }

    /// Creates a particle at rest at `position`, with no force and mass
    /// one, under a key that the store does not hold. Every other particle
    /// stays, and the new one is the last in the walk.
    pub fn create(&mut self, position: &Vector2D) -> (key: ParticleKey)
        requires
            old(self).wf(),
            old(self).order().len() < STORE_LIMIT,
        ensures
            final(self).wf(),
            !old(self).contains(key),
            final(self).entries() == old(self).entries().insert(
                key,
                Particle2D::new_spec(key, *position),
            ),
            final(self).order() == old(self).order().push(key),
    {
        proof {
            matched_keys_are_counted(self.entries(), self.order());
        }
        let key = arena_insert(&mut self.arena, position);
        self.order.push(key);
        proof {
            let old_order = old(self).order();
            let new_order = self.order();
            assert(!old_order.contains(key));
            assert forall|k: ParticleKey|
                #![trigger self.entries().dom().contains(k)]
                #![trigger new_order.contains(k)]
                new_order.contains(k) <==> self.entries().dom().contains(k) by {
                assert(old(self).entries().dom().contains(k) <==> old_order.contains(k));
                if new_order.contains(k) {
                    let j = choose|j: int| 0 <= j < new_order.len() && new_order[j] == k;
                    if j < old_order.len() {
                        assert(old_order[j] == k);
                    }
                }
                if old_order.contains(k) {
                    let j = choose|j: int| 0 <= j < old_order.len() && old_order[j] == k;
                    assert(new_order[j] == k);
                }
                assert(new_order[old_order.len() as int] == key);
            }
            assert forall|k: ParticleKey| #[trigger]
                self.entries().dom().contains(k) implies self.entries()[k].id == k by {
                if k != key {
                    assert(old(self).entries().dom().contains(k));
                }
            }
            assert forall|a: int, b: int|
                0 <= a < new_order.len() && 0 <= b < new_order.len() && a != b implies new_order[a]
                != new_order[b] by {
                if a < old_order.len() {
                    assert(old_order.contains(new_order[a]));
                }
                if b < old_order.len() {
                    assert(old_order.contains(new_order[b]));
                }
            }
        }
        key
    }

    /// Discards the particle under `key`. A key that the store does not
    /// hold changes nothing. The particles that stay keep their order.
    pub fn remove(&mut self, key: ParticleKey)
        requires
            old(self).wf(),
        ensures
            final(self).wf(),
            final(self).entries() == old(self).entries().remove(key),
            !final(self).contains(key),
            !old(self).contains(key) ==> final(self).order() == old(self).order(),
            old(self).contains(key) ==> exists|i: int|
                0 <= i < old(self).order().len() && old(self).order()[i] == key
                    && #[trigger] old(self).order().remove(i) == final(self).order(),
    {
        arena_remove(&mut self.arena, key);
        let ghost after_removal = self.arena;
        let n = self.order.len();
        let mut found: Option<usize> = None;
        for i in 0..n
            invariant
                n == self.order@.len(),
                self.order@ == old(self).order@,
                self.arena == after_removal,
                match found {
                    Some(at) => at < n && self.order@[at as int] == key,
                    None => forall|j: int| 0 <= j < i ==> self.order@[j] != key,
                },
        {
            if found.is_none() && same_key(self.order[i], key) {
                found = Some(i);
            }
        }
        let ghost old_order = old(self).order();
        match found {
            Some(at) => {
                self.order.remove(at);
                proof {
                    let i = at as int;
                    let new_order = self.order();
                    assert(old_order.contains(key));
                    assert(old(self).contains(key));
                    assert(old_order.remove(i) == new_order);
                    assert forall|k: ParticleKey|
                        #![trigger self.entries().dom().contains(k)]
                        #![trigger new_order.contains(k)]
                        new_order.contains(k) <==> self.entries().dom().contains(k) by {
                        assert(old(self).entries().dom().contains(k) <==> old_order.contains(k));
                        if new_order.contains(k) {
                            let j = choose|j: int| 0 <= j < new_order.len() && new_order[j] == k;
                            let oj = if j < i {
                                j
                            } else {
                                j + 1
                            };
                            assert(old_order[oj] == k);
                            assert(old_order.contains(k));
                            assert(oj != i);
                        }
                        if self.entries().dom().contains(k) {
                            let j = choose|j: int| 0 <= j < old_order.len() && old_order[j] == k;
                            if j < i {
                                assert(new_order[j] == k);
                            } else {
                                assert(new_order[j - 1] == k);
                            }
                        }
                    }
                    assert forall|a: int, b: int|
                        0 <= a < new_order.len() && 0 <= b < new_order.len() && a
                            != b implies new_order[a] != new_order[b] by {
                        let oa = if a < i {
                            a
                        } else {
                            a + 1
                        };
                        let ob = if b < i {
                            b
                        } else {
                            b + 1
                        };
                        assert(new_order[a] == old_order[oa]);
                        assert(new_order[b] == old_order[ob]);
                    }
                }
            },
            None => {
                proof {
                    assert(!old_order.contains(key));
                    assert(!old(self).contains(key));
                    assert(self.entries() =~= old(self).entries());
                }
            },
        }
        proof {
            assert forall|k: ParticleKey| #[trigger]
                self.entries().dom().contains(k) implies self.entries()[k].id == k by {
                assert(old(self).entries().dom().contains(k));
            }
        }
    }

    /// The particle under `key`, or nothing where the store holds none.
    pub fn get(&self, key: ParticleKey) -> (r: Option<&Particle2D>)
        ensures
            r == if self.contains(key) {
                Some(&self.entries()[key])
            } else {
                None
            },
    {
        arena_get(&self.arena, key)
    }

    /// Replaces the particle under its own key. Nothing changes where the
    /// store does not hold that key.
    pub fn put(&mut self, particle: Particle2D)
        requires
            old(self).wf(),
        ensures
            final(self).wf(),
            final(self).order() == old(self).order(),
            final(self).entries() == if old(self).contains(particle.id) {
                old(self).entries().insert(particle.id, particle)
            } else {
                old(self).entries()
            },
            final(self).entries().dom() == old(self).entries().dom(),
    {
        arena_put(&mut self.arena, particle.id, particle);
        proof {
            assert(self.entries().dom() =~= old(self).entries().dom());
            assert forall|k: ParticleKey| #[trigger]
                self.entries().dom().contains(k) implies self.entries()[k].id == k by {
                assert(old(self).entries().dom().contains(k));
            }
        }
    }

    /// The particles under two keys at once: both, where the keys differ
    /// and the store holds each; else nothing.
    pub fn pair(&mut self, a: ParticleKey, b: ParticleKey) -> (r: Option<(Particle2D, Particle2D)>)
        ensures
            r == if a != b && old(self).contains(a) && old(self).contains(b) {
                Some((old(self).entries()[a], old(self).entries()[b]))
            } else {
                None
            },
            final(self).entries() == old(self).entries(),
            final(self).order() == old(self).order(),
    {
        arena_pair(&mut self.arena, a, b)
    }

    /// All particles, in the order of their creation.
    pub fn get_all(&self) -> (r: Vec<&Particle2D>)
        requires
            self.wf(),
        ensures
            r@.len() == self.order().len(),
            forall|i: int| 0 <= i < r@.len() ==> *#[trigger] r@[i] == self.entries()[self.order()[i]],
    {
        let n = self.order.len();
        let mut all: Vec<&Particle2D> = Vec::with_capacity(n);
        for i in 0..n
            invariant
                n == self.order@.len(),
                self.wf(),
                all@.len() == i,
                forall|j: int|
                    0 <= j < i ==> *#[trigger] all@[j] == self.entries()[self.order()[j]],
        {
            assert(self.order().contains(self.order()[i as int]));
            match arena_get(&self.arena, self.order[i]) {
                Some(p) => all.push(p),
                None => {},
            }
        }
        all
    }

    /// All keys, in the order in which their particles were created.
    pub fn keys(&self) -> (r: Vec<ParticleKey>)
        ensures
            r@ == self.order(),
    {
        let n = self.order.len();
        let mut all: Vec<ParticleKey> = Vec::with_capacity(n);
        for i in 0..n
            invariant
                n == self.order@.len(),
                all@ == self.order@.take(i as int),
        {
            all.push(self.order[i]);
            assert(self.order@.take(i + 1) =~= self.order@.take(i as int).push(self.order@[i as int]));
        }
        assert(self.order@.take(n as int) =~= self.order@);
        all
    }

    /// Discards every particle.
    pub fn clear(&mut self)
        ensures
            final(self).wf(),
            final(self).entries() == no_entries(),
            final(self).order().len() == 0,
    {
        arena_clear(&mut self.arena);
        self.order.clear();
    }
}

} // verus!
