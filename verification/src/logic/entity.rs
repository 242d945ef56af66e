//! Scene entities and the manager that holds those of the current scene.

use crate::logic::traits::classify::Classified;
use crate::logic::traits::item::{Identifiable, Templated};
use vstd::prelude::*;

verus! {

/// Coarse kind of a scene entity.
#[derive(Debug, Clone, Copy, PartialEq, Eq, Structural, Hash)]
pub enum EntityKind {
    Character,
    Enemy,
    Interactive,
    Npc,
    Projectile,
    Creature,
}

/// An entity of the current scene. `T` is the coordinate type (floats on the
/// wire), which the manager only stores.
#[derive(Debug, Clone)]
pub struct SceneEntity<T> {
    pub id: u64,
    pub template_id: String,
    pub kind: EntityKind,
    pub pos_x: T,
    pub pos_y: T,
    pub pos_z: T,
    /// The level data's `levelLogicId`, used as the entity's origin id.
    pub level_logic_id: u64,
    pub belong_level_script_id: i32,
}

impl<T> Classified for SceneEntity<T> {
    open spec fn spec_kind(&self) -> EntityKind {
        self.kind
    }

    fn kind(&self) -> (k: EntityKind) {
        self.kind
    }
}

impl<T> Identifiable for SceneEntity<T> {
    type Id = u64;

    open spec fn spec_id(&self) -> u64 {
        self.id
    }

    fn id(&self) -> (id: u64) {
        self.id
    }
}

impl<T> Templated for SceneEntity<T> {
    open spec fn spec_template_id(&self) -> Seq<char> {
        self.template_id@
    }

    fn template_id(&self) -> (t: &str) {
        self.template_id.as_str()
    }
}

/// `i` is the first slot holding key `id`.
pub open spec fn is_slot_of<T>(s: Seq<(u64, SceneEntity<T>)>, id: u64, i: int) -> bool {
    &&& 0 <= i < s.len()
    &&& s[i].0 == id
    &&& forall|j: int| 0 <= j < i ==> s[j].0 != id
}

/// The slot holding key `id`, if any.
pub open spec fn slot_of<T>(s: Seq<(u64, SceneEntity<T>)>, id: u64) -> Option<int> {
    if exists|i: int| is_slot_of(s, id, i) {
        Some(choose|i: int| is_slot_of(s, id, i))
    } else {
        None
    }
}

/// No key occurs twice.
pub open spec fn keys_distinct<T>(s: Seq<(u64, SceneEntity<T>)>) -> bool {
    forall|i: int, j: int| 0 <= i < j < s.len() ==> s[i].0 != s[j].0
}

/// The entities of `s`, in slot order.
pub open spec fn slot_values<T>(s: Seq<(u64, SceneEntity<T>)>) -> Seq<SceneEntity<T>> {
    s.map_values(|p: (u64, SceneEntity<T>)| p.1)
}

/// The entities of `s` of kind `kind`, in slot order.
pub open spec fn values_of_kind<T>(s: Seq<(u64, SceneEntity<T>)>, kind: EntityKind) -> Seq<SceneEntity<T>> {
    slot_values(s).filter(|e: SceneEntity<T>| e.kind == kind)
}

proof fn lemma_slot_unique<T>(s: Seq<(u64, SceneEntity<T>)>, id: u64, i: int)
    requires
        is_slot_of(s, id, i),
    ensures
        slot_of(s, id) == Some(i),
{
    let c = choose|k: int| is_slot_of(s, id, k);
    assert(c == i);
}

proof fn lemma_distinct_slot<T>(s: Seq<(u64, SceneEntity<T>)>, id: u64, i: int)
    requires
        keys_distinct(s),
        0 <= i < s.len(),
        s[i].0 == id,
    ensures
        slot_of(s, id) == Some(i),
{
    assert(is_slot_of(s, id, i));
    lemma_slot_unique(s, id, i);
}

/// The entities of the current scene, by id, and the counter monster ids are
/// handed out from (each id is 1000 plus the counter, so monsters never share
/// an id with a character).
#[derive(Debug)]
pub struct EntityManager<T> {
    entities: Vec<(u64, SceneEntity<T>)>,
    next_monster_id: u64,
}

impl<T> EntityManager<T> {
    /// The entities, each under its key, in the order they were first inserted.
    pub closed spec fn slots(&self) -> Seq<(u64, SceneEntity<T>)> {
        self.entities@
    }

    /// The monster-id counter.
    pub closed spec fn counter(&self) -> u64 {
        self.next_monster_id
    }

    /// Every key is held once.
    pub open spec fn wf(&self) -> bool {
        keys_distinct(self.slots())
    }

    /// The entity stored under `id`.
    pub open spec fn lookup(&self, id: u64) -> Option<SceneEntity<T>> {
        match slot_of(self.slots(), id) {
            Some(i) => Some(self.slots()[i].1),
            None => None,
        }
    }

    /// An empty manager whose first monster id is 1000.
    pub fn new() -> (m: Self)
        ensures
            m.wf(),
            m.slots().len() == 0,
            m.counter() == 0,
    {
        EntityManager { entities: Vec::new(), next_monster_id: 0 }
    }

    /// Hands out the next monster id, 1000 plus the counter, and advances the counter.
    pub fn next_monster_id(&mut self) -> (id: u64)
        requires
            old(self).counter() <= u64::MAX - 1000,
        ensures
            id == 1000 + old(self).counter(),
            final(self).counter() == old(self).counter() + 1,
            final(self).slots() == old(self).slots(),
    {
        let id = 1000 + self.next_monster_id;
        self.next_monster_id = self.next_monster_id + 1;
        id
    }

    /// The id the next call of `next_monster_id` would hand out.
    pub fn peek_next_monster_id(&self) -> (id: u64)
        requires
            self.counter() <= u64::MAX - 1000,
        ensures
            id == 1000 + self.counter(),
    {
        1000 + self.next_monster_id
    }

    /// Makes sure the next monster id is at least `at_least` (ids below 1000
    /// count as 1000); a counter already past it stays.
    pub fn bump_next_monster_id_to(&mut self, at_least: u64)
        ensures
            ({
                let internal = if at_least >= 1000 {
                    at_least - 1000
                } else {
                    0
                };
                final(self).counter() == if internal > old(self).counter() {
                    internal as u64
                } else {
                    old(self).counter()
                }
            }),
            final(self).slots() == old(self).slots(),
    {
        let internal = at_least.saturating_sub(1000);
        if internal > self.next_monster_id {
            self.next_monster_id = internal;
        }
    }

    fn find(&self, id: u64) -> (r: Option<usize>)
        ensures
            match r {
                Some(i) => slot_of(self.slots(), id) == Some(i as int),
                None => slot_of(self.slots(), id) is None && forall|j: int|
                    0 <= j < self.slots().len() ==> self.slots()[j].0 != id,
            },
    {
        let mut i: usize = 0;
        while i < self.entities.len()
            invariant
                i <= self.entities@.len(),
                forall|j: int| 0 <= j < i ==> self.entities@[j].0 != id,
            decreases self.entities.len() - i,
        {
            if self.entities[i].0 == id {
                proof {
                    lemma_slot_unique(self.entities@, id, i as int);
                }
                return Some(i);
            }
            i = i + 1;
        }
        None
    }

    /// Stores `entity` under its id, replacing what was stored there.
    pub fn insert(&mut self, entity: SceneEntity<T>)
        requires
            old(self).wf(),
        ensures
            final(self).wf(),
            final(self).lookup(entity.id) == Some(entity),
            forall|k: u64| k != entity.id ==> #[trigger] final(self).lookup(k) == old(self).lookup(k),
            final(self).slots().len() == old(self).slots().len() + if old(self).lookup(entity.id) is Some {
                0int
            } else {
                1int
            },
            final(self).counter() == old(self).counter(),
    {
        let id = entity.id;
        let ghost old_s = self.entities@;
        match self.find(id) {
            Some(i) => {
                self.entities.set(i, (id, entity));
                proof {
                    let s = self.entities@;
                    lemma_distinct_slot(s, id, i as int);
                    assert forall|k: u64| k != id implies #[trigger] slot_of(s, k) == slot_of(old_s, k) by {
                        if exists|j: int| is_slot_of(old_s, k, j) {
                            let j = choose|j: int| is_slot_of(old_s, k, j);
                            lemma_distinct_slot(s, k, j);
                            lemma_slot_unique(old_s, k, j);
                        } else if exists|j: int| is_slot_of(s, k, j) {
                            let j = choose|j: int| is_slot_of(s, k, j);
                            assert(is_slot_of(old_s, k, j));
                        }
                    }
                }
            },
            None => {
                self.entities.push((id, entity));
                proof {
                    let s = self.entities@;
                    assert(forall|j: int| 0 <= j < old_s.len() ==> old_s[j].0 != id);
                    lemma_distinct_slot(s, id, old_s.len() as int);
                    assert forall|k: u64| k != id implies #[trigger] slot_of(s, k) == slot_of(old_s, k) by {
                        if exists|j: int| is_slot_of(old_s, k, j) {
                            let j = choose|j: int| is_slot_of(old_s, k, j);
                            lemma_distinct_slot(s, k, j);
                            lemma_slot_unique(old_s, k, j);
                        } else if exists|j: int| is_slot_of(s, k, j) {
                            let j = choose|j: int| is_slot_of(s, k, j);
                            assert(is_slot_of(old_s, k, j));
                        }
                    }
                }
            },
        }
    }

    /// Removes and answers the entity stored under `id`.
    pub fn remove(&mut self, id: u64) -> (r: Option<SceneEntity<T>>)
        requires
            old(self).wf(),
        ensures
            final(self).wf(),
            r == old(self).lookup(id),
            final(self).lookup(id) is None,
            forall|k: u64| k != id ==> #[trigger] final(self).lookup(k) == old(self).lookup(k),
            final(self).slots().len() == old(self).slots().len() - if r is Some {
                1int
            } else {
                0int
            },
            final(self).counter() == old(self).counter(),
    {
        let ghost old_s = self.entities@;
        match self.find(id) {
            Some(i) => {
                let (_, e) = self.entities.remove(i);
                proof {
                    let s = self.entities@;
                    assert(forall|j: int| 0 <= j < s.len() ==> s[j] == if j < i {
                        old_s[j]
                    } else {
                        old_s[j + 1]
                    });
                    assert(!exists|j: int| is_slot_of(s, id, j));
                    assert forall|k: u64| k != id implies #[trigger] slot_of(s, k) == match slot_of(old_s, k) {
                        Some(j) => Some(if j < i {
                            j
                        } else {
                            j - 1
                        }),
                        None => None::<int>,
                    } by {
                        if exists|j: int| is_slot_of(old_s, k, j) {
                            let j = choose|j: int| is_slot_of(old_s, k, j);
                            lemma_slot_unique(old_s, k, j);
                            let nj = if j < i {
                                j
                            } else {
                                j - 1
                            };
                            lemma_distinct_slot(s, k, nj);
                        } else if exists|j: int| is_slot_of(s, k, j) {
                            let j = choose|j: int| is_slot_of(s, k, j);
                            let oj = if j < i {
                                j
                            } else {
                                j + 1
                            };
                            assert(old_s[oj].0 == k);
                            assert(is_slot_of(old_s, k, oj) || exists|m: int| 0 <= m < oj && old_s[m].0 == k);
                        }
                    }
                }
                Some(e)
            },
            None => None,
        }
    }

    /// The entity stored under `id`.
    pub fn get(&self, id: u64) -> (r: Option<&SceneEntity<T>>)
        ensures
            match r {
                Some(e) => self.lookup(id) == Some(*e),
                None => self.lookup(id) is None,
            },
    {
        match self.find(id) {
            Some(i) => Some(&self.entities[i].1),
            None => None,
        }
    }

    /// The entity stored under `id`, to change in place.
    pub fn get_mut(&mut self, id: u64) -> (r: Option<&mut SceneEntity<T>>)
        ensures
            match r {
                Some(e) => {
                    &&& old(self).lookup(id) == Some(*e)
                    &&& exists|i: int|
                        #![trigger old(self).slots()[i]]
                        slot_of(old(self).slots(), id) == Some(i) && final(self).slots() == old(self).slots().update(
                            i,
                            (id, *final(e)),
                        )
                },
                None => old(self).lookup(id) is None && final(self).slots() == old(self).slots(),
            },
            final(self).counter() == old(self).counter(),
    {
        match self.find(id) {
            Some(i) => Some(&mut self.entities[i].1),
            None => None,
        }
    }

    pub fn contains(&self, id: u64) -> (b: bool)
        ensures
            b == self.lookup(id) is Some,
    {
        self.find(id).is_some()
    }

    /// Number of entities.
    pub fn len(&self) -> (n: usize)
        ensures
            n == self.slots().len(),
    {
        self.entities.len()
    }

    /// Every entity, in slot order.
    pub fn iter(&self) -> (r: Vec<&SceneEntity<T>>)
        ensures
            r@.len() == self.slots().len(),
            forall|i: int| 0 <= i < r@.len() ==> *(#[trigger] r@[i]) == self.slots()[i].1,
    {
        let mut r: Vec<&SceneEntity<T>> = Vec::new();
        let mut i: usize = 0;
        while i < self.entities.len()
            invariant
                i <= self.entities@.len(),
                r@.len() == i,
                forall|j: int| 0 <= j < i ==> *(#[trigger] r@[j]) == self.entities@[j].1,
            decreases self.entities.len() - i,
        {
            r.push(&self.entities[i].1);
            i = i + 1;
        }
        r
    }

    fn of_kind(&self, kind: EntityKind) -> (r: Vec<&SceneEntity<T>>)
        ensures
            r@.map_values(|e: &SceneEntity<T>| *e) == values_of_kind(self.slots(), kind),
    {
        let ghost keep = |e: SceneEntity<T>| e.kind == kind;
        let mut r: Vec<&SceneEntity<T>> = Vec::new();
        let mut i: usize = 0;
        while i < self.entities.len()
            invariant
                i <= self.entities@.len(),
                keep == (|e: SceneEntity<T>| e.kind == kind),
                r@.map_values(|e: &SceneEntity<T>| *e) == slot_values(self.entities@.take(i as int)).filter(keep),
            decreases self.entities.len() - i,
        {
            proof {
                let s = self.entities@;
                assert(slot_values(s.take(i + 1)) =~= slot_values(s.take(i as int)).push(s[i as int].1));
                slot_values(s.take(i as int)).lemma_filter_push(s[i as int].1, keep);
            }
            if self.entities[i].1.kind == kind {
                let ghost before = r@;
                r.push(&self.entities[i].1);
                proof {
                    assert(r@.map_values(|e: &SceneEntity<T>| *e) =~= before.map_values(|e: &SceneEntity<T>| *e).push(
                        self.entities@[i as int].1,
                    ));
                }
            }
            i = i + 1;
        }
        proof {
            assert(self.entities@.take(self.entities@.len() as int) =~= self.entities@);
        }
        r
    }

    /// The enemies, in slot order.
    pub fn monsters(&self) -> (r: Vec<&SceneEntity<T>>)
        ensures
            r@.map_values(|e: &SceneEntity<T>| *e) == values_of_kind(self.slots(), EntityKind::Enemy),
    {
        self.of_kind(EntityKind::Enemy)
    }

    /// The characters, in slot order.
    pub fn characters(&self) -> (r: Vec<&SceneEntity<T>>)
        ensures
            r@.map_values(|e: &SceneEntity<T>| *e) == values_of_kind(self.slots(), EntityKind::Character),
    {
        self.of_kind(EntityKind::Character)
    }

    /// The interactives, in slot order.
    pub fn interactives(&self) -> (r: Vec<&SceneEntity<T>>)
        ensures
            r@.map_values(|e: &SceneEntity<T>| *e) == values_of_kind(self.slots(), EntityKind::Interactive),
    {
        self.of_kind(EntityKind::Interactive)
    }

    /// The NPCs, in slot order.
    pub fn npcs(&self) -> (r: Vec<&SceneEntity<T>>)
        ensures
            r@.map_values(|e: &SceneEntity<T>| *e) == values_of_kind(self.slots(), EntityKind::Npc),
    {
        self.of_kind(EntityKind::Npc)
    }

    /// Forgets every entity and restarts monster ids at 1000.
    pub fn clear(&mut self)
        ensures
            final(self).wf(),
            final(self).slots().len() == 0,
            final(self).counter() == 0,
    {
        self.entities.clear();
        self.next_monster_id = 0;
    }

    /// The keys of all entities, in slot order.
    pub fn ids(&self) -> (r: Vec<u64>)
        ensures
            r@ == self.slots().map_values(|p: (u64, SceneEntity<T>)| p.0),
    {
        let mut r: Vec<u64> = Vec::new();
        let mut i: usize = 0;
        while i < self.entities.len()
            invariant
                i <= self.entities@.len(),
                r@ == self.entities@.take(i as int).map_values(|p: (u64, SceneEntity<T>)| p.0),
            decreases self.entities.len() - i,
        {
            r.push(self.entities[i].0);
            proof {
                assert(self.entities@.take(i + 1).map_values(|p: (u64, SceneEntity<T>)| p.0) =~= self.entities@.take(
                    i as int,
                ).map_values(|p: (u64, SceneEntity<T>)| p.0).push(self.entities@[i as int].0));
            }
            i = i + 1;
        }
        proof {
            assert(self.entities@.take(self.entities@.len() as int) =~= self.entities@);
        }
        r
    }

    /// The ids of the entities of kind `kind`, in slot order.
    pub fn ids_by_kind(&self, kind: EntityKind) -> (r: Vec<u64>)
        ensures
            r@ == values_of_kind(self.slots(), kind).map_values(|e: SceneEntity<T>| e.id),
    {
        let es = self.of_kind(kind);
        let mut r: Vec<u64> = Vec::new();
        let mut i: usize = 0;
        while i < es.len()
            invariant
                i <= es@.len(),
                r@ == es@.take(i as int).map_values(|e: &SceneEntity<T>| e.id),
            decreases es.len() - i,
        {
            r.push(es[i].id);
            proof {
                assert(es@.take(i + 1).map_values(|e: &SceneEntity<T>| e.id) =~= es@.take(i as int).map_values(
                    |e: &SceneEntity<T>| e.id,
                ).push(es@[i as int].id));
            }
            i = i + 1;
        }
        proof {
            assert(es@.take(es@.len() as int) =~= es@);
            assert(r@ =~= es@.map_values(|e: &SceneEntity<T>| *e).map_values(|e: SceneEntity<T>| e.id));
        }
        r
    }
}

impl<T> Default for EntityManager<T> {
    fn default() -> (m: Self)
        ensures
            m.wf(),
            m.slots().len() == 0,
            m.counter() == 0,
    {
        EntityManager::new()
    }
}

} // verus!
