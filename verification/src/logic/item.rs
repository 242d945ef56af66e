//! Item instances and the depots that hold them.

use crate::config::item::CraftShowingType;
use crate::logic::error::LogicError;
use crate::logic::traits::container::{Container, DepotKind, IdAllocator, KeyedContainer, LockableContainerExt};
use crate::logic::traits::id::{AsU64, InstanceId};
use crate::logic::traits::item::{Attachable, Identifiable, Lockable, NewFlaggable, Owned, Templated};
use vstd::prelude::*;

verus! {

/// Id of a weapon instance in the weapon depot.
#[derive(Debug, Clone, Copy, PartialEq, Eq, Structural, Hash)]
pub struct WeaponInstId(pub u64);

/// Id of a gem instance in the gem depot.
#[derive(Debug, Clone, Copy, PartialEq, Eq, Structural, Hash)]
pub struct GemInstId(pub u64);

/// Id of an equipment instance in the equipment depot.
#[derive(Debug, Clone, Copy, PartialEq, Eq, Structural, Hash)]
pub struct EquipInstId(pub u64);

impl WeaponInstId {
    pub fn new(raw: u64) -> (id: Self)
        ensures
            id.0 == raw,
    {
        WeaponInstId(raw)
    }

    pub fn as_u64(self) -> (raw: u64)
        ensures
            raw == self.0,
    {
        self.0
    }
}

impl GemInstId {
    pub fn new(raw: u64) -> (id: Self)
        ensures
            id.0 == raw,
    {
        GemInstId(raw)
    }

    pub fn as_u64(self) -> (raw: u64)
        ensures
            raw == self.0,
    {
        self.0
    }
}

impl EquipInstId {
    pub fn new(raw: u64) -> (id: Self)
        ensures
            id.0 == raw,
    {
        EquipInstId(raw)
    }

    pub fn as_u64(self) -> (raw: u64)
        ensures
            raw == self.0,
    {
        self.0
    }
}

impl AsU64 for WeaponInstId {
    open spec fn spec_as_u64(&self) -> u64 {
        self.0
    }

    fn as_u64(&self) -> (raw: u64) {
        self.0
    }
}

impl InstanceId for WeaponInstId {
    fn new(raw: u64) -> (id: Self) {
        WeaponInstId(raw)
    }
}

impl AsU64 for GemInstId {
    open spec fn spec_as_u64(&self) -> u64 {
        self.0
    }

    fn as_u64(&self) -> (raw: u64) {
        self.0
    }
}

impl InstanceId for GemInstId {
    fn new(raw: u64) -> (id: Self) {
        GemInstId(raw)
    }
}

impl AsU64 for EquipInstId {
    open spec fn spec_as_u64(&self) -> u64 {
        self.0
    }

    fn as_u64(&self) -> (raw: u64) {
        self.0
    }
}

impl InstanceId for EquipInstId {
    fn new(raw: u64) -> (id: Self) {
        EquipInstId(raw)
    }
}


/// Loading rows whose ids are all distinct keeps them as they are.
pub proof fn lemma_weapon_loaded_distinct(rows: Seq<WeaponInstance>)
    requires
        weapon_ids(rows).no_duplicates(),
    ensures
        weapon_loaded(rows) == rows,
    decreases rows.len(),
{
    if rows.len() > 0 {
        let p = rows.drop_last();
        assert(weapon_ids(p).no_duplicates()) by {
            assert forall|a: int, b: int| 0 <= a < p.len() && 0 <= b < p.len() && a != b implies weapon_ids(p)[a] != weapon_ids(p)[b] by {
                assert(weapon_ids(rows)[a] != weapon_ids(rows)[b]);
            }
        }
        lemma_weapon_loaded_distinct(p);
        assert forall|i: int| 0 <= i < p.len() implies (#[trigger] p[i]).inst_id.0 != rows.last().inst_id.0 by {
            assert(weapon_ids(rows)[i] != weapon_ids(rows)[rows.len() - 1]);
        }
        assert(rows =~= p.push(rows.last()));
    }
}

/// Raw ids of weapon instances, in order.
pub open spec fn weapon_ids(s: Seq<WeaponInstance>) -> Seq<u64> {
    s.map_values(|w: WeaponInstance| w.inst_id.0)
}


/// A weapon with its owner dropped when it names no character of a bag of `n`
/// (object ids run from 1 to `n`).
pub open spec fn weapon_owner_checked(w: WeaponInstance, n: u64) -> WeaponInstance {
    if w.equip_char_id <= n {
        w
    } else {
        WeaponInstance { equip_char_id: 0, ..w }
    }
}

/// An equipment piece with its owner dropped when it names no character of a
/// bag of `n`.
pub open spec fn equip_owner_checked(e: EquipInstance, n: u64) -> EquipInstance {
    if e.equip_char_id <= n {
        e
    } else {
        EquipInstance { equip_char_id: 0, ..e }
    }
}

/// A gem with its weapon dropped when `weapons` holds no weapon of that id.
pub open spec fn gem_weapon_checked(g: GemInstance, weapons: Seq<WeaponInstance>) -> GemInstance {
    if g.attach_weapon_id == 0 || weapon_position(weapons, g.attach_weapon_id) is Some {
        g
    } else {
        GemInstance { attach_weapon_id: 0, ..g }
    }
}


/// `s` after loading `x`: it replaces the instance stored under its id, or
/// is appended when there is none.
pub open spec fn weapon_load_step(s: Seq<WeaponInstance>, x: WeaponInstance) -> Seq<WeaponInstance> {
    match weapon_position(s, x.inst_id.0) {
        Some(i) => s.update(i, x),
        None => s.push(x),
    }
}

/// The instances a depot holds after loading `rows` in order: one per id,
/// the last row with an id giving its instance.
pub open spec fn weapon_loaded(rows: Seq<WeaponInstance>) -> Seq<WeaponInstance>
    decreases rows.len(),
{
    if rows.len() == 0 {
        Seq::empty()
    } else {
        weapon_load_step(weapon_loaded(rows.drop_last()), rows.last())
    }
}


/// `s` after loading `x`: it replaces the instance stored under its id, or
/// is appended when there is none.
pub open spec fn gem_load_step(s: Seq<GemInstance>, x: GemInstance) -> Seq<GemInstance> {
    match gem_position(s, x.inst_id.0) {
        Some(i) => s.update(i, x),
        None => s.push(x),
    }
}

/// The instances a depot holds after loading `rows` in order: one per id,
/// the last row with an id giving its instance.
pub open spec fn gem_loaded(rows: Seq<GemInstance>) -> Seq<GemInstance>
    decreases rows.len(),
{
    if rows.len() == 0 {
        Seq::empty()
    } else {
        gem_load_step(gem_loaded(rows.drop_last()), rows.last())
    }
}


/// `s` after loading `x`: it replaces the instance stored under its id, or
/// is appended when there is none.
pub open spec fn equip_load_step(s: Seq<EquipInstance>, x: EquipInstance) -> Seq<EquipInstance> {
    match equip_position(s, x.inst_id.0) {
        Some(i) => s.update(i, x),
        None => s.push(x),
    }
}

/// The instances a depot holds after loading `rows` in order: one per id,
/// the last row with an id giving its instance.
pub open spec fn equip_loaded(rows: Seq<EquipInstance>) -> Seq<EquipInstance>
    decreases rows.len(),
{
    if rows.len() == 0 {
        Seq::empty()
    } else {
        equip_load_step(equip_loaded(rows.drop_last()), rows.last())
    }
}

/// A weapon owned by the player.
#[derive(Debug)]
pub struct WeaponInstance {
    pub inst_id: WeaponInstId,
    pub template_id: String,
    pub is_lock: bool,
    pub is_new: bool,
    pub own_time: i64,
    pub equip_char_id: u64,
    pub breakthrough_lv: u64,
}

impl WeaponInstance {
    /// A fresh, unlocked, unseen, detached instance.
    pub fn new(inst_id: WeaponInstId, template_id: String, own_time: i64) -> (inst: Self)
        ensures
            inst.inst_id == inst_id,
            inst.template_id == template_id,
            !inst.is_lock,
            inst.is_new,
            inst.own_time == own_time,
            inst.equip_char_id == 0,
            inst.breakthrough_lv == 0,
    {
        WeaponInstance {
            inst_id,
            template_id,
            is_lock: false,
            is_new: true,
            own_time,
            equip_char_id: 0,
            breakthrough_lv: 0,
        }
    }
}

impl Identifiable for WeaponInstance {
    type Id = WeaponInstId;

    open spec fn spec_id(&self) -> WeaponInstId {
        self.inst_id
    }

    fn id(&self) -> (id: WeaponInstId) {
        self.inst_id
    }
}

impl Templated for WeaponInstance {
    open spec fn spec_template_id(&self) -> Seq<char> {
        self.template_id@
    }

    fn template_id(&self) -> (t: &str) {
        self.template_id.as_str()
    }
}

impl Lockable for WeaponInstance {
    open spec fn spec_is_locked(&self) -> bool {
        self.is_lock
    }

    fn is_locked(&self) -> (b: bool) {
        self.is_lock
    }

    fn set_locked(&mut self, locked: bool) {
        self.is_lock = locked;
    }
}

impl NewFlaggable for WeaponInstance {
    open spec fn spec_is_new(&self) -> bool {
        self.is_new
    }

    fn is_new(&self) -> (b: bool) {
        self.is_new
    }

    fn set_new(&mut self, is_new: bool) {
        self.is_new = is_new;
    }
}

impl Owned for WeaponInstance {
    open spec fn spec_own_time(&self) -> i64 {
        self.own_time
    }

    fn own_time(&self) -> (t: i64) {
        self.own_time
    }
}

impl Attachable for WeaponInstance {
    open spec fn spec_attached_to(&self) -> u64 {
        self.equip_char_id
    }

    fn attached_to(&self) -> (id: u64) {
        self.equip_char_id
    }
}

/// Position of the first weapon with raw id `id`, if any.
pub open spec fn weapon_position(items: Seq<WeaponInstance>, id: u64) -> Option<int> {
    if exists|i: int| 0 <= i < items.len() && (#[trigger] items[i]).inst_id.0 == id {
        Some(choose|i: int|
            0 <= i < items.len() && (#[trigger] items[i]).inst_id.0 == id && forall|j: int|
                0 <= j < i ==> (#[trigger] items[j]).inst_id.0 != id)
    } else {
        None
    }
}

/// Read after write: when no stored weapon has the id that `add_weapon` hands out, the
/// instance it appends is the one found under that id.
pub proof fn lemma_weapon_added_is_found(before: Seq<WeaponInstance>, added: WeaponInstance)
    requires
        forall|k: int| 0 <= k < before.len() ==> (#[trigger] before[k]).inst_id.0 != added.inst_id.0,
    ensures
        weapon_position(before.push(added), added.inst_id.0) == Some(before.len() as int),
{
    let s = before.push(added);
    let id = added.inst_id.0;
    assert(s[before.len() as int].inst_id.0 == id);
    let c = choose|i: int|
        0 <= i < s.len() && (#[trigger] s[i]).inst_id.0 == id && forall|j: int|
            0 <= j < i ==> (#[trigger] s[j]).inst_id.0 != id;
    assert forall|j: int| 0 <= j < before.len() implies (#[trigger] s[j]).inst_id.0 != id by {
        assert(s[j] == before[j]);
    }
    if c < before.len() {
        assert(s[c] == before[c]);
    }
}

/// Number of locked items.
pub open spec fn weapon_locked(items: Seq<WeaponInstance>) -> nat {
    items.filter(|x: WeaponInstance| x.is_lock).len()
}

/// The player's weapon depot: instances in insertion order and the next id.
#[derive(Debug)]
pub struct WeaponDepot {
    items: Vec<WeaponInstance>,
    next_inst_id: u64,
}

impl WeaponDepot {

    /// Stores a loaded instance under its id, replacing what was stored there.
    pub fn insert_loaded(&mut self, x: WeaponInstance)
        ensures
            final(self).items_view() == weapon_load_step(old(self).items_view(), x),
            final(self).spec_next_inst_id() == old(self).spec_next_inst_id(),
    {
        match self.find(x.inst_id.0) {
            Some(i) => {
                self.items.set(i, x);
            },
            None => {
                self.items.push(x);
            },
        }
    }

    /// A depot holding the loaded `rows` (the last row with an id wins), with
    /// the next id 1; a saved counter is restored separately.
    pub fn from_loaded(rows: Vec<WeaponInstance>) -> (d: Self)
        ensures
            d.items_view() == weapon_loaded(rows@),
            d.spec_next_inst_id() == 1,
    {
        let ghost all = rows@;
        let mut pending = rows;
        let mut reversed: Vec<WeaponInstance> = Vec::new();
        while pending.len() > 0
            invariant
                pending@.len() + reversed@.len() == all.len(),
                pending@ == all.take(pending@.len() as int),
                forall|j: int| 0 <= j < reversed@.len() ==> #[trigger] reversed@[j] == all[all.len() - 1 - j],
            decreases pending@.len(),
        {
            let ghost n0 = pending@.len();
            let x = pending.pop().unwrap();
            assert(x == all[n0 - 1]);
            reversed.push(x);
            assert(pending@ =~= all.take(pending@.len() as int));
        }
        let mut d = WeaponDepot::new();
        proof {
            assert(all.take(0) =~= Seq::<WeaponInstance>::empty());
        }
        while reversed.len() > 0
            invariant
                reversed@.len() <= all.len(),
                forall|j: int| 0 <= j < reversed@.len() ==> #[trigger] reversed@[j] == all[all.len() - 1 - j],
                d.items_view() == weapon_loaded(all.take(all.len() - reversed@.len())),
                d.spec_next_inst_id() == 1,
            decreases reversed@.len(),
        {
            let ghost done = all.len() - reversed@.len();
            let x = reversed.pop().unwrap();
            assert(x == all[done]);
            proof {
                assert(all.take(done + 1).drop_last() =~= all.take(done));
            }
            d.insert_loaded(x);
        }
        assert(all.take(all.len() as int) =~= all);
        d
    }

    /// Drops the owner of every weapon whose owner is no character of a bag
    /// of `n_chars`.
    pub fn release_unknown_owners(&mut self, n_chars: u64)
        ensures
            final(self).items_view() == old(self).items_view().map_values(
                |w: WeaponInstance| weapon_owner_checked(w, n_chars),
            ),
            final(self).spec_next_inst_id() == old(self).spec_next_inst_id(),
    {
        let mut i: usize = 0;
        while i < self.items.len()
            invariant
                i <= self.items@.len(),
                self.items@.len() == old(self).items@.len(),
                self.next_inst_id == old(self).next_inst_id,
                forall|j: int| 0 <= j < i ==> #[trigger] self.items@[j] == weapon_owner_checked(old(self).items@[j], n_chars),
                forall|j: int| i <= j < self.items@.len() ==> #[trigger] self.items@[j] == old(self).items@[j],
            decreases self.items.len() - i,
        {
            if self.items[i].equip_char_id > n_chars {
                let mut w = self.items.remove(i);
                w.equip_char_id = 0;
                self.items.insert(i, w);
            }
            i = i + 1;
        }
        assert(self.items@ =~= old(self).items@.map_values(|w: WeaponInstance| weapon_owner_checked(w, n_chars)));
    }

    /// Instances in insertion order.
    pub closed spec fn items_view(&self) -> Seq<WeaponInstance> {
        self.items@
    }

    pub closed spec fn spec_next_inst_id(&self) -> u64 {
        self.next_inst_id
    }

    /// The instance stored under raw id `id`.
    pub open spec fn lookup(&self, id: u64) -> Option<WeaponInstance> {
        match weapon_position(self.items_view(), id) {
            Some(i) => Some(self.items_view()[i]),
            None => None,
        }
    }

    pub fn new() -> (d: Self)
        ensures
            d.items_view().len() == 0,
            d.spec_next_inst_id() == 1,
    {
        WeaponDepot { items: Vec::new(), next_inst_id: 1 }
    }

    /// Adds a fresh instance of `template_id` under the next id and returns that id.
    pub fn add_weapon(&mut self, template_id: String, own_time: i64) -> (id: WeaponInstId)
        requires
            old(self).spec_next_inst_id() < u64::MAX,
        ensures
            id.0 == old(self).spec_next_inst_id(),
            final(self).spec_next_inst_id() == old(self).spec_next_inst_id() + 1,
            final(self).items_view().len() == old(self).items_view().len() + 1,
            final(self).items_view().take(old(self).items_view().len() as int) == old(self).items_view(),
            final(self).items_view().last().inst_id == id,
            final(self).items_view().last().template_id == template_id,
            final(self).items_view().last().own_time == own_time,
            !final(self).items_view().last().is_lock,
            final(self).items_view().last().is_new,
            final(self).items_view().last().equip_char_id == 0,
    {
        let id = WeaponInstId::new(self.next_inst_id);
        self.next_inst_id = self.next_inst_id + 1;
        self.items.push(WeaponInstance::new(id, template_id, own_time));
        proof {
            assert(self.items@.take(old(self).items@.len() as int) =~= old(self).items@);
        }
        id
    }

    fn find(&self, id: u64) -> (r: Option<usize>)
        ensures
            match r {
                Some(i) => weapon_position(self.items_view(), id) == Some(i as int) && i
                    < self.items_view().len(),
                None => weapon_position(self.items_view(), id) is None,
            },
    {
        let mut i: usize = 0;
        while i < self.items.len()
            invariant
                i <= self.items@.len(),
                forall|j: int| 0 <= j < i ==> (#[trigger] self.items@[j]).inst_id.0 != id,
            decreases self.items.len() - i,
        {
            if self.items[i].inst_id.0 == id {
                let ghost p = weapon_position(self.items@, id);
                proof {
                    assert(self.items@[i as int].inst_id.0 == id);
                    let c = p.unwrap();
                    if c != i as int {
                        if c < i {
                            assert(self.items@[c].inst_id.0 != id);
                        } else {
                            assert(self.items@[i as int].inst_id.0 != id);
                        }
                    }
                }
                return Some(i);
            }
            i = i + 1;
        }
        None
    }

    pub fn len(&self) -> (n: usize)
        ensures
            n == self.items_view().len(),
    {
        self.items.len()
    }

    pub fn is_empty(&self) -> (b: bool)
        ensures
            b == (self.items_view().len() == 0),
    {
        self.items.len() == 0
    }

    pub fn contains(&self, id: WeaponInstId) -> (b: bool)
        ensures
            b == self.lookup(id.0) is Some,
    {
        self.find(id.0).is_some()
    }

    pub fn get(&self, id: WeaponInstId) -> (r: Option<&WeaponInstance>)
        ensures
            match r {
                Some(x) => self.lookup(id.0) == Some(*x),
                None => self.lookup(id.0) is None,
            },
    {
        match self.find(id.0) {
            Some(i) => Some(&self.items[i]),
            None => None,
        }
    }

    pub fn get_mut(&mut self, id: WeaponInstId) -> (r: Option<&mut WeaponInstance>)
        ensures
            match r {
                Some(x) => old(self).lookup(id.0) == Some(*x) && final(self).items_view()
                    == old(self).items_view().update(
                    weapon_position(old(self).items_view(), id.0).unwrap(),
                    *final(x),
                ) && final(self).spec_next_inst_id() == old(self).spec_next_inst_id(),
                None => old(self).lookup(id.0) is None && *final(self) == *old(self),
            },
    {
        match self.find(id.0) {
            Some(i) => Some(&mut self.items[i]),
            None => None,
        }
    }

    /// Sets the lock flag of the instance `id`; fails with `WeaponNotFound` when absent.
    pub fn set_lock(&mut self, id: WeaponInstId, locked: bool) -> (r: Result<(), LogicError>)
        ensures
            final(self).spec_next_inst_id() == old(self).spec_next_inst_id(),
            match r {
                Ok(()) => old(self).lookup(id.0) is Some && final(self).items_view()
                    == old(self).items_view().update(
                    weapon_position(old(self).items_view(), id.0).unwrap(),
                    WeaponInstance { is_lock: locked, ..old(self).lookup(id.0).unwrap() },
                ),
                Err(e) => old(self).lookup(id.0) is None && e == LogicError::WeaponNotFound(id)
                    && final(self).items_view() == old(self).items_view(),
            },
    {
        match self.find(id.0) {
            Some(i) => {
                self.items[i].is_lock = locked;
                Ok(())
            },
            None => Err(LogicError::WeaponNotFound(id)),
        }
    }

    /// Every instance, in insertion order.
    pub fn all_weapons(&self) -> (s: &[WeaponInstance])
        ensures
            s@ == self.items_view(),
    {
        self.items.as_slice()
    }

    pub fn next_inst_id(&self) -> (id: u64)
        ensures
            id == self.spec_next_inst_id(),
    {
        self.next_inst_id
    }

    pub fn set_next_inst_id(&mut self, id: u64)
        ensures
            final(self).spec_next_inst_id() == id,
            final(self).items_view() == old(self).items_view(),
    {
        self.next_inst_id = id;
    }
}

impl Container for WeaponDepot {
    type Item = WeaponInstance;

    open spec fn spec_len(&self) -> nat {
        self.items_view().len()
    }

    fn len(&self) -> (n: usize) {
        WeaponDepot::len(self)
    }

    fn is_empty(&self) -> (b: bool) {
        WeaponDepot::is_empty(self)
    }
}

impl KeyedContainer for WeaponDepot {
    type Key = WeaponInstId;

    open spec fn spec_lookup(&self, key: WeaponInstId) -> Option<WeaponInstance> {
        self.lookup(key.0)
    }

    open spec fn spec_replaced(&self, key: WeaponInstId, item: WeaponInstance, after: Self) -> bool {
        match weapon_position(self.items_view(), key.0) {
            Some(i) => after.items_view() == self.items_view().update(i, item)
                && after.spec_next_inst_id() == self.spec_next_inst_id(),
            None => false,
        }
    }

    fn contains_key(&self, key: WeaponInstId) -> (b: bool) {
        self.contains(key)
    }

    fn get_ref(&self, key: WeaponInstId) -> (r: Option<&WeaponInstance>) {
        self.get(key)
    }

    fn get_mut_ref(&mut self, key: WeaponInstId) -> (r: Option<&mut WeaponInstance>) {
        self.get_mut(key)
    }
}

impl DepotKind for WeaponDepot {
    open spec fn spec_depot_type() -> i32 {
        1
    }

    fn depot_type(&self) -> (t: i32) {
        1
    }
}

impl LockableContainerExt for WeaponDepot {
    open spec fn spec_locked_count(&self) -> nat {
        weapon_locked(self.items_view())
    }

    fn locked_count(&self) -> (n: usize) {
        let ghost pred = |x: WeaponInstance| x.is_lock;
        let mut n: usize = 0;
        let mut i: usize = 0;
        while i < self.items.len()
            invariant
                i <= self.items@.len(),
                pred == (|x: WeaponInstance| x.is_lock),
                n == self.items@.take(i as int).filter(pred).len(),
                n <= i,
            decreases self.items.len() - i,
        {
            proof {
                assert(self.items@.take(i + 1) == self.items@.take(i as int).push(self.items@[i as int]));
                self.items@.take(i as int).lemma_filter_push(self.items@[i as int], pred);
            }
            if self.items[i].is_lock {
                n = n + 1;
            }
            i = i + 1;
        }
        assert(self.items@.take(self.items@.len() as int) == self.items@);
        n
    }
}

impl IdAllocator for WeaponDepot {
    type Id = WeaponInstId;

    open spec fn spec_next_id(&self) -> u64 {
        self.spec_next_inst_id()
    }

    fn peek_next_id(&self) -> (id: u64) {
        self.next_inst_id()
    }

    fn bump_next_id_to(&mut self, at_least: u64) {
        if at_least > self.next_inst_id() {
            self.set_next_inst_id(at_least);
        }
    }
}

/// A weapon gem owned by the player.
#[derive(Debug)]
pub struct GemInstance {
    pub inst_id: GemInstId,
    pub template_id: String,
    pub is_lock: bool,
    pub is_new: bool,
    pub own_time: i64,
    pub attach_weapon_id: u64,
    pub craft_slot: CraftShowingType,
}

impl GemInstance {
    /// A fresh, unlocked, unseen, detached instance.
    pub fn new(inst_id: GemInstId, template_id: String, craft_slot: CraftShowingType, own_time: i64) -> (inst: Self)
        ensures
            inst.inst_id == inst_id,
            inst.template_id == template_id,
            !inst.is_lock,
            inst.is_new,
            inst.own_time == own_time,
            inst.attach_weapon_id == 0,
            inst.craft_slot == craft_slot,
    {
        GemInstance {
            inst_id,
            template_id,
            is_lock: false,
            is_new: true,
            own_time,
            attach_weapon_id: 0,
            craft_slot: craft_slot,
        }
    }
}

impl Identifiable for GemInstance {
    type Id = GemInstId;

    open spec fn spec_id(&self) -> GemInstId {
        self.inst_id
    }

    fn id(&self) -> (id: GemInstId) {
        self.inst_id
    }
}

impl Templated for GemInstance {
    open spec fn spec_template_id(&self) -> Seq<char> {
        self.template_id@
    }

    fn template_id(&self) -> (t: &str) {
        self.template_id.as_str()
    }
}

impl Lockable for GemInstance {
    open spec fn spec_is_locked(&self) -> bool {
        self.is_lock
    }

    fn is_locked(&self) -> (b: bool) {
        self.is_lock
    }

    fn set_locked(&mut self, locked: bool) {
        self.is_lock = locked;
    }
}

impl NewFlaggable for GemInstance {
    open spec fn spec_is_new(&self) -> bool {
        self.is_new
    }

    fn is_new(&self) -> (b: bool) {
        self.is_new
    }

    fn set_new(&mut self, is_new: bool) {
        self.is_new = is_new;
    }
}

impl Owned for GemInstance {
    open spec fn spec_own_time(&self) -> i64 {
        self.own_time
    }

    fn own_time(&self) -> (t: i64) {
        self.own_time
    }
}

impl Attachable for GemInstance {
    open spec fn spec_attached_to(&self) -> u64 {
        self.attach_weapon_id
    }

    fn attached_to(&self) -> (id: u64) {
        self.attach_weapon_id
    }
}

/// Position of the first weapon gem with raw id `id`, if any.
pub open spec fn gem_position(items: Seq<GemInstance>, id: u64) -> Option<int> {
    if exists|i: int| 0 <= i < items.len() && (#[trigger] items[i]).inst_id.0 == id {
        Some(choose|i: int|
            0 <= i < items.len() && (#[trigger] items[i]).inst_id.0 == id && forall|j: int|
                0 <= j < i ==> (#[trigger] items[j]).inst_id.0 != id)
    } else {
        None
    }
}

/// Read after write: when no stored weapon gem has the id that `add_gem` hands out, the
/// instance it appends is the one found under that id.
pub proof fn lemma_gem_added_is_found(before: Seq<GemInstance>, added: GemInstance)
    requires
        forall|k: int| 0 <= k < before.len() ==> (#[trigger] before[k]).inst_id.0 != added.inst_id.0,
    ensures
        gem_position(before.push(added), added.inst_id.0) == Some(before.len() as int),
{
    let s = before.push(added);
    let id = added.inst_id.0;
    assert(s[before.len() as int].inst_id.0 == id);
    let c = choose|i: int|
        0 <= i < s.len() && (#[trigger] s[i]).inst_id.0 == id && forall|j: int|
            0 <= j < i ==> (#[trigger] s[j]).inst_id.0 != id;
    assert forall|j: int| 0 <= j < before.len() implies (#[trigger] s[j]).inst_id.0 != id by {
        assert(s[j] == before[j]);
    }
    if c < before.len() {
        assert(s[c] == before[c]);
    }
}

/// Number of locked items.
pub open spec fn gem_locked(items: Seq<GemInstance>) -> nat {
    items.filter(|x: GemInstance| x.is_lock).len()
}

/// The player's weapon gem depot: instances in insertion order and the next id.
#[derive(Debug)]
pub struct GemDepot {
    items: Vec<GemInstance>,
    next_inst_id: u64,
}

impl GemDepot {

    /// Stores a loaded instance under its id, replacing what was stored there.
    pub fn insert_loaded(&mut self, x: GemInstance)
        ensures
            final(self).items_view() == gem_load_step(old(self).items_view(), x),
            final(self).spec_next_inst_id() == old(self).spec_next_inst_id(),
    {
        match self.find(x.inst_id.0) {
            Some(i) => {
                self.items.set(i, x);
            },
            None => {
                self.items.push(x);
            },
        }
    }

    /// A depot holding the loaded `rows` (the last row with an id wins), with
    /// the next id 1; a saved counter is restored separately.
    pub fn from_loaded(rows: Vec<GemInstance>) -> (d: Self)
        ensures
            d.items_view() == gem_loaded(rows@),
            d.spec_next_inst_id() == 1,
    {
        let ghost all = rows@;
        let mut pending = rows;
        let mut reversed: Vec<GemInstance> = Vec::new();
        while pending.len() > 0
            invariant
                pending@.len() + reversed@.len() == all.len(),
                pending@ == all.take(pending@.len() as int),
                forall|j: int| 0 <= j < reversed@.len() ==> #[trigger] reversed@[j] == all[all.len() - 1 - j],
            decreases pending@.len(),
        {
            let ghost n0 = pending@.len();
            let x = pending.pop().unwrap();
            assert(x == all[n0 - 1]);
            reversed.push(x);
            assert(pending@ =~= all.take(pending@.len() as int));
        }
        let mut d = GemDepot::new();
        proof {
            assert(all.take(0) =~= Seq::<GemInstance>::empty());
        }
        while reversed.len() > 0
            invariant
                reversed@.len() <= all.len(),
                forall|j: int| 0 <= j < reversed@.len() ==> #[trigger] reversed@[j] == all[all.len() - 1 - j],
                d.items_view() == gem_loaded(all.take(all.len() - reversed@.len())),
                d.spec_next_inst_id() == 1,
            decreases reversed@.len(),
        {
            let ghost done = all.len() - reversed@.len();
            let x = reversed.pop().unwrap();
            assert(x == all[done]);
            proof {
                assert(all.take(done + 1).drop_last() =~= all.take(done));
            }
            d.insert_loaded(x);
        }
        assert(all.take(all.len() as int) =~= all);
        d
    }

    /// Drops the weapon of every gem attached to a weapon `weapons` does not hold.
    pub fn release_missing_weapons(&mut self, weapons: &WeaponDepot)
        ensures
            final(self).items_view() == old(self).items_view().map_values(
                |g: GemInstance| gem_weapon_checked(g, weapons.items_view()),
            ),
            final(self).spec_next_inst_id() == old(self).spec_next_inst_id(),
    {
        let mut i: usize = 0;
        while i < self.items.len()
            invariant
                i <= self.items@.len(),
                self.items@.len() == old(self).items@.len(),
                self.next_inst_id == old(self).next_inst_id,
                forall|j: int|
                    0 <= j < i ==> #[trigger] self.items@[j] == gem_weapon_checked(old(self).items@[j], weapons.items_view()),
                forall|j: int| i <= j < self.items@.len() ==> #[trigger] self.items@[j] == old(self).items@[j],
            decreases self.items.len() - i,
        {
            let a = self.items[i].attach_weapon_id;
            if a != 0 && !weapons.contains(WeaponInstId(a)) {
                let mut g = self.items.remove(i);
                g.attach_weapon_id = 0;
                self.items.insert(i, g);
            }
            i = i + 1;
        }
        assert(self.items@ =~= old(self).items@.map_values(|g: GemInstance| gem_weapon_checked(g, weapons.items_view())));
    }

    /// Instances in insertion order.
    pub closed spec fn items_view(&self) -> Seq<GemInstance> {
        self.items@
    }

    pub closed spec fn spec_next_inst_id(&self) -> u64 {
        self.next_inst_id
    }

    /// The instance stored under raw id `id`.
    pub open spec fn lookup(&self, id: u64) -> Option<GemInstance> {
        match gem_position(self.items_view(), id) {
            Some(i) => Some(self.items_view()[i]),
            None => None,
        }
    }

    pub fn new() -> (d: Self)
        ensures
            d.items_view().len() == 0,
            d.spec_next_inst_id() == 1,
    {
        GemDepot { items: Vec::new(), next_inst_id: 1 }
    }

    /// Adds a fresh instance of `template_id` under the next id and returns that id.
    pub fn add_gem(&mut self, template_id: String, craft_slot: CraftShowingType, own_time: i64) -> (id: GemInstId)
        requires
            old(self).spec_next_inst_id() < u64::MAX,
        ensures
            id.0 == old(self).spec_next_inst_id(),
            final(self).spec_next_inst_id() == old(self).spec_next_inst_id() + 1,
            final(self).items_view().len() == old(self).items_view().len() + 1,
            final(self).items_view().take(old(self).items_view().len() as int) == old(self).items_view(),
            final(self).items_view().last().inst_id == id,
            final(self).items_view().last().template_id == template_id,
            final(self).items_view().last().own_time == own_time,
            !final(self).items_view().last().is_lock,
            final(self).items_view().last().is_new,
            final(self).items_view().last().attach_weapon_id == 0,
    {
        let id = GemInstId::new(self.next_inst_id);
        self.next_inst_id = self.next_inst_id + 1;
        self.items.push(GemInstance::new(id, template_id, craft_slot, own_time));
        proof {
            assert(self.items@.take(old(self).items@.len() as int) =~= old(self).items@);
        }
        id
    }

    fn find(&self, id: u64) -> (r: Option<usize>)
        ensures
            match r {
                Some(i) => gem_position(self.items_view(), id) == Some(i as int) && i
                    < self.items_view().len(),
                None => gem_position(self.items_view(), id) is None,
            },
    {
        let mut i: usize = 0;
        while i < self.items.len()
            invariant
                i <= self.items@.len(),
                forall|j: int| 0 <= j < i ==> (#[trigger] self.items@[j]).inst_id.0 != id,
            decreases self.items.len() - i,
        {
            if self.items[i].inst_id.0 == id {
                let ghost p = gem_position(self.items@, id);
                proof {
                    assert(self.items@[i as int].inst_id.0 == id);
                    let c = p.unwrap();
                    if c != i as int {
                        if c < i {
                            assert(self.items@[c].inst_id.0 != id);
                        } else {
                            assert(self.items@[i as int].inst_id.0 != id);
                        }
                    }
                }
                return Some(i);
            }
            i = i + 1;
        }
        None
    }

    pub fn len(&self) -> (n: usize)
        ensures
            n == self.items_view().len(),
    {
        self.items.len()
    }

    pub fn is_empty(&self) -> (b: bool)
        ensures
            b == (self.items_view().len() == 0),
    {
        self.items.len() == 0
    }

    pub fn contains(&self, id: GemInstId) -> (b: bool)
        ensures
            b == self.lookup(id.0) is Some,
    {
        self.find(id.0).is_some()
    }

    pub fn get(&self, id: GemInstId) -> (r: Option<&GemInstance>)
        ensures
            match r {
                Some(x) => self.lookup(id.0) == Some(*x),
                None => self.lookup(id.0) is None,
            },
    {
        match self.find(id.0) {
            Some(i) => Some(&self.items[i]),
            None => None,
        }
    }

    pub fn get_mut(&mut self, id: GemInstId) -> (r: Option<&mut GemInstance>)
        ensures
            match r {
                Some(x) => old(self).lookup(id.0) == Some(*x) && final(self).items_view()
                    == old(self).items_view().update(
                    gem_position(old(self).items_view(), id.0).unwrap(),
                    *final(x),
                ) && final(self).spec_next_inst_id() == old(self).spec_next_inst_id(),
                None => old(self).lookup(id.0) is None && *final(self) == *old(self),
            },
    {
        match self.find(id.0) {
            Some(i) => Some(&mut self.items[i]),
            None => None,
        }
    }

    /// Sets the lock flag of the instance `id`; fails with `GemNotFound` when absent.
    pub fn set_lock(&mut self, id: GemInstId, locked: bool) -> (r: Result<(), LogicError>)
        ensures
            final(self).spec_next_inst_id() == old(self).spec_next_inst_id(),
            match r {
                Ok(()) => old(self).lookup(id.0) is Some && final(self).items_view()
                    == old(self).items_view().update(
                    gem_position(old(self).items_view(), id.0).unwrap(),
                    GemInstance { is_lock: locked, ..old(self).lookup(id.0).unwrap() },
                ),
                Err(e) => old(self).lookup(id.0) is None && e == LogicError::GemNotFound(id)
                    && final(self).items_view() == old(self).items_view(),
            },
    {
        match self.find(id.0) {
            Some(i) => {
                self.items[i].is_lock = locked;
                Ok(())
            },
            None => Err(LogicError::GemNotFound(id)),
        }
    }

    /// Every instance, in insertion order.
    pub fn all_gems(&self) -> (s: &[GemInstance])
        ensures
            s@ == self.items_view(),
    {
        self.items.as_slice()
    }

    pub fn next_inst_id(&self) -> (id: u64)
        ensures
            id == self.spec_next_inst_id(),
    {
        self.next_inst_id
    }

    pub fn set_next_inst_id(&mut self, id: u64)
        ensures
            final(self).spec_next_inst_id() == id,
            final(self).items_view() == old(self).items_view(),
    {
        self.next_inst_id = id;
    }
}

impl Container for GemDepot {
    type Item = GemInstance;

    open spec fn spec_len(&self) -> nat {
        self.items_view().len()
    }

    fn len(&self) -> (n: usize) {
        GemDepot::len(self)
    }

    fn is_empty(&self) -> (b: bool) {
        GemDepot::is_empty(self)
    }
}

impl KeyedContainer for GemDepot {
    type Key = GemInstId;

    open spec fn spec_lookup(&self, key: GemInstId) -> Option<GemInstance> {
        self.lookup(key.0)
    }

    open spec fn spec_replaced(&self, key: GemInstId, item: GemInstance, after: Self) -> bool {
        match gem_position(self.items_view(), key.0) {
            Some(i) => after.items_view() == self.items_view().update(i, item)
                && after.spec_next_inst_id() == self.spec_next_inst_id(),
            None => false,
        }
    }

    fn contains_key(&self, key: GemInstId) -> (b: bool) {
        self.contains(key)
    }

    fn get_ref(&self, key: GemInstId) -> (r: Option<&GemInstance>) {
        self.get(key)
    }

    fn get_mut_ref(&mut self, key: GemInstId) -> (r: Option<&mut GemInstance>) {
        self.get_mut(key)
    }
}

impl DepotKind for GemDepot {
    open spec fn spec_depot_type() -> i32 {
        2
    }

    fn depot_type(&self) -> (t: i32) {
        2
    }
}

impl LockableContainerExt for GemDepot {
    open spec fn spec_locked_count(&self) -> nat {
        gem_locked(self.items_view())
    }

    fn locked_count(&self) -> (n: usize) {
        let ghost pred = |x: GemInstance| x.is_lock;
        let mut n: usize = 0;
        let mut i: usize = 0;
        while i < self.items.len()
            invariant
                i <= self.items@.len(),
                pred == (|x: GemInstance| x.is_lock),
                n == self.items@.take(i as int).filter(pred).len(),
                n <= i,
            decreases self.items.len() - i,
        {
            proof {
                assert(self.items@.take(i + 1) == self.items@.take(i as int).push(self.items@[i as int]));
                self.items@.take(i as int).lemma_filter_push(self.items@[i as int], pred);
            }
            if self.items[i].is_lock {
                n = n + 1;
            }
            i = i + 1;
        }
        assert(self.items@.take(self.items@.len() as int) == self.items@);
        n
    }
}

/// A equipment owned by the player.
#[derive(Debug)]
pub struct EquipInstance {
    pub inst_id: EquipInstId,
    pub template_id: String,
    pub is_lock: bool,
    pub is_new: bool,
    pub own_time: i64,
    pub equip_char_id: u64,
    pub slot: CraftShowingType,
}

impl EquipInstance {
    /// A fresh, unlocked, unseen, detached instance.
    pub fn new(inst_id: EquipInstId, template_id: String, slot: CraftShowingType, own_time: i64) -> (inst: Self)
        ensures
            inst.inst_id == inst_id,
            inst.template_id == template_id,
            !inst.is_lock,
            inst.is_new,
            inst.own_time == own_time,
            inst.equip_char_id == 0,
            inst.slot == slot,
    {
        EquipInstance {
            inst_id,
            template_id,
            is_lock: false,
            is_new: true,
            own_time,
            equip_char_id: 0,
            slot: slot,
        }
    }
}

impl Identifiable for EquipInstance {
    type Id = EquipInstId;

    open spec fn spec_id(&self) -> EquipInstId {
        self.inst_id
    }

    fn id(&self) -> (id: EquipInstId) {
        self.inst_id
    }
}

impl Templated for EquipInstance {
    open spec fn spec_template_id(&self) -> Seq<char> {
        self.template_id@
    }

    fn template_id(&self) -> (t: &str) {
        self.template_id.as_str()
    }
}

impl Lockable for EquipInstance {
    open spec fn spec_is_locked(&self) -> bool {
        self.is_lock
    }

    fn is_locked(&self) -> (b: bool) {
        self.is_lock
    }

    fn set_locked(&mut self, locked: bool) {
        self.is_lock = locked;
    }
}

impl NewFlaggable for EquipInstance {
    open spec fn spec_is_new(&self) -> bool {
        self.is_new
    }

    fn is_new(&self) -> (b: bool) {
        self.is_new
    }

    fn set_new(&mut self, is_new: bool) {
        self.is_new = is_new;
    }
}

impl Owned for EquipInstance {
    open spec fn spec_own_time(&self) -> i64 {
        self.own_time
    }

    fn own_time(&self) -> (t: i64) {
        self.own_time
    }
}

impl Attachable for EquipInstance {
    open spec fn spec_attached_to(&self) -> u64 {
        self.equip_char_id
    }

    fn attached_to(&self) -> (id: u64) {
        self.equip_char_id
    }
}

/// Position of the first equipment with raw id `id`, if any.
pub open spec fn equip_position(items: Seq<EquipInstance>, id: u64) -> Option<int> {
    if exists|i: int| 0 <= i < items.len() && (#[trigger] items[i]).inst_id.0 == id {
        Some(choose|i: int|
            0 <= i < items.len() && (#[trigger] items[i]).inst_id.0 == id && forall|j: int|
                0 <= j < i ==> (#[trigger] items[j]).inst_id.0 != id)
    } else {
        None
    }
}

/// Read after write: when no stored equipment has the id that `add_equip` hands out, the
/// instance it appends is the one found under that id.
pub proof fn lemma_equip_added_is_found(before: Seq<EquipInstance>, added: EquipInstance)
    requires
        forall|k: int| 0 <= k < before.len() ==> (#[trigger] before[k]).inst_id.0 != added.inst_id.0,
    ensures
        equip_position(before.push(added), added.inst_id.0) == Some(before.len() as int),
{
    let s = before.push(added);
    let id = added.inst_id.0;
    assert(s[before.len() as int].inst_id.0 == id);
    let c = choose|i: int|
        0 <= i < s.len() && (#[trigger] s[i]).inst_id.0 == id && forall|j: int|
            0 <= j < i ==> (#[trigger] s[j]).inst_id.0 != id;
    assert forall|j: int| 0 <= j < before.len() implies (#[trigger] s[j]).inst_id.0 != id by {
        assert(s[j] == before[j]);
    }
    if c < before.len() {
        assert(s[c] == before[c]);
    }
}

/// Number of locked items.
pub open spec fn equip_locked(items: Seq<EquipInstance>) -> nat {
    items.filter(|x: EquipInstance| x.is_lock).len()
}

/// The player's equipment depot: instances in insertion order and the next id.
#[derive(Debug)]
pub struct EquipDepot {
    items: Vec<EquipInstance>,
    next_inst_id: u64,
}

impl EquipDepot {

    /// Stores a loaded instance under its id, replacing what was stored there.
    pub fn insert_loaded(&mut self, x: EquipInstance)
        ensures
            final(self).items_view() == equip_load_step(old(self).items_view(), x),
            final(self).spec_next_inst_id() == old(self).spec_next_inst_id(),
    {
        match self.find(x.inst_id.0) {
            Some(i) => {
                self.items.set(i, x);
            },
            None => {
                self.items.push(x);
            },
        }
    }

    /// A depot holding the loaded `rows` (the last row with an id wins), with
    /// the next id 1; a saved counter is restored separately.
    pub fn from_loaded(rows: Vec<EquipInstance>) -> (d: Self)
        ensures
            d.items_view() == equip_loaded(rows@),
            d.spec_next_inst_id() == 1,
    {
        let ghost all = rows@;
        let mut pending = rows;
        let mut reversed: Vec<EquipInstance> = Vec::new();
        while pending.len() > 0
            invariant
                pending@.len() + reversed@.len() == all.len(),
                pending@ == all.take(pending@.len() as int),
                forall|j: int| 0 <= j < reversed@.len() ==> #[trigger] reversed@[j] == all[all.len() - 1 - j],
            decreases pending@.len(),
        {
            let ghost n0 = pending@.len();
            let x = pending.pop().unwrap();
            assert(x == all[n0 - 1]);
            reversed.push(x);
            assert(pending@ =~= all.take(pending@.len() as int));
        }
        let mut d = EquipDepot::new();
        proof {
            assert(all.take(0) =~= Seq::<EquipInstance>::empty());
        }
        while reversed.len() > 0
            invariant
                reversed@.len() <= all.len(),
                forall|j: int| 0 <= j < reversed@.len() ==> #[trigger] reversed@[j] == all[all.len() - 1 - j],
                d.items_view() == equip_loaded(all.take(all.len() - reversed@.len())),
                d.spec_next_inst_id() == 1,
            decreases reversed@.len(),
        {
            let ghost done = all.len() - reversed@.len();
            let x = reversed.pop().unwrap();
            assert(x == all[done]);
            proof {
                assert(all.take(done + 1).drop_last() =~= all.take(done));
            }
            d.insert_loaded(x);
        }
        assert(all.take(all.len() as int) =~= all);
        d
    }

    /// Drops the owner of every piece whose owner is no character of a bag
    /// of `n_chars`.
    pub fn release_unknown_owners(&mut self, n_chars: u64)
        ensures
            final(self).items_view() == old(self).items_view().map_values(
                |e: EquipInstance| equip_owner_checked(e, n_chars),
            ),
            final(self).spec_next_inst_id() == old(self).spec_next_inst_id(),
    {
        let mut i: usize = 0;
        while i < self.items.len()
            invariant
                i <= self.items@.len(),
                self.items@.len() == old(self).items@.len(),
                self.next_inst_id == old(self).next_inst_id,
                forall|j: int| 0 <= j < i ==> #[trigger] self.items@[j] == equip_owner_checked(old(self).items@[j], n_chars),
                forall|j: int| i <= j < self.items@.len() ==> #[trigger] self.items@[j] == old(self).items@[j],
            decreases self.items.len() - i,
        {
            if self.items[i].equip_char_id > n_chars {
                let mut e = self.items.remove(i);
                e.equip_char_id = 0;
                self.items.insert(i, e);
            }
            i = i + 1;
        }
        assert(self.items@ =~= old(self).items@.map_values(|e: EquipInstance| equip_owner_checked(e, n_chars)));
    }

    /// Instances in insertion order.
    pub closed spec fn items_view(&self) -> Seq<EquipInstance> {
        self.items@
    }

    pub closed spec fn spec_next_inst_id(&self) -> u64 {
        self.next_inst_id
    }

    /// The instance stored under raw id `id`.
    pub open spec fn lookup(&self, id: u64) -> Option<EquipInstance> {
        match equip_position(self.items_view(), id) {
            Some(i) => Some(self.items_view()[i]),
            None => None,
        }
    }

    pub fn new() -> (d: Self)
        ensures
            d.items_view().len() == 0,
            d.spec_next_inst_id() == 1,
    {
        EquipDepot { items: Vec::new(), next_inst_id: 1 }
    }

    /// Adds a fresh instance of `template_id` under the next id and returns that id.
    pub fn add_equip(&mut self, template_id: String, slot: CraftShowingType, own_time: i64) -> (id: EquipInstId)
        requires
            old(self).spec_next_inst_id() < u64::MAX,
        ensures
            id.0 == old(self).spec_next_inst_id(),
            final(self).spec_next_inst_id() == old(self).spec_next_inst_id() + 1,
            final(self).items_view().len() == old(self).items_view().len() + 1,
            final(self).items_view().take(old(self).items_view().len() as int) == old(self).items_view(),
            final(self).items_view().last().inst_id == id,
            final(self).items_view().last().template_id == template_id,
            final(self).items_view().last().own_time == own_time,
            !final(self).items_view().last().is_lock,
            final(self).items_view().last().is_new,
            final(self).items_view().last().equip_char_id == 0,
    {
        let id = EquipInstId::new(self.next_inst_id);
        self.next_inst_id = self.next_inst_id + 1;
        self.items.push(EquipInstance::new(id, template_id, slot, own_time));
        proof {
            assert(self.items@.take(old(self).items@.len() as int) =~= old(self).items@);
        }
        id
    }

    fn find(&self, id: u64) -> (r: Option<usize>)
        ensures
            match r {
                Some(i) => equip_position(self.items_view(), id) == Some(i as int) && i
                    < self.items_view().len(),
                None => equip_position(self.items_view(), id) is None,
            },
    {
        let mut i: usize = 0;
        while i < self.items.len()
            invariant
                i <= self.items@.len(),
                forall|j: int| 0 <= j < i ==> (#[trigger] self.items@[j]).inst_id.0 != id,
            decreases self.items.len() - i,
        {
            if self.items[i].inst_id.0 == id {
                let ghost p = equip_position(self.items@, id);
                proof {
                    assert(self.items@[i as int].inst_id.0 == id);
                    let c = p.unwrap();
                    if c != i as int {
                        if c < i {
                            assert(self.items@[c].inst_id.0 != id);
                        } else {
                            assert(self.items@[i as int].inst_id.0 != id);
                        }
                    }
                }
                return Some(i);
            }
            i = i + 1;
        }
        None
    }

    pub fn len(&self) -> (n: usize)
        ensures
            n == self.items_view().len(),
    {
        self.items.len()
    }

    pub fn is_empty(&self) -> (b: bool)
        ensures
            b == (self.items_view().len() == 0),
    {
        self.items.len() == 0
    }

    pub fn contains(&self, id: EquipInstId) -> (b: bool)
        ensures
            b == self.lookup(id.0) is Some,
    {
        self.find(id.0).is_some()
    }

    pub fn get(&self, id: EquipInstId) -> (r: Option<&EquipInstance>)
        ensures
            match r {
                Some(x) => self.lookup(id.0) == Some(*x),
                None => self.lookup(id.0) is None,
            },
    {
        match self.find(id.0) {
            Some(i) => Some(&self.items[i]),
            None => None,
        }
    }

    pub fn get_mut(&mut self, id: EquipInstId) -> (r: Option<&mut EquipInstance>)
        ensures
            match r {
                Some(x) => old(self).lookup(id.0) == Some(*x) && final(self).items_view()
                    == old(self).items_view().update(
                    equip_position(old(self).items_view(), id.0).unwrap(),
                    *final(x),
                ) && final(self).spec_next_inst_id() == old(self).spec_next_inst_id(),
                None => old(self).lookup(id.0) is None && *final(self) == *old(self),
            },
    {
        match self.find(id.0) {
            Some(i) => Some(&mut self.items[i]),
            None => None,
        }
    }

    /// Sets the lock flag of the instance `id`; fails with `EquipNotFound` when absent.
    pub fn set_lock(&mut self, id: EquipInstId, locked: bool) -> (r: Result<(), LogicError>)
        ensures
            final(self).spec_next_inst_id() == old(self).spec_next_inst_id(),
            match r {
                Ok(()) => old(self).lookup(id.0) is Some && final(self).items_view()
                    == old(self).items_view().update(
                    equip_position(old(self).items_view(), id.0).unwrap(),
                    EquipInstance { is_lock: locked, ..old(self).lookup(id.0).unwrap() },
                ),
                Err(e) => old(self).lookup(id.0) is None && e == LogicError::EquipNotFound(id)
                    && final(self).items_view() == old(self).items_view(),
            },
    {
        match self.find(id.0) {
            Some(i) => {
                self.items[i].is_lock = locked;
                Ok(())
            },
            None => Err(LogicError::EquipNotFound(id)),
        }
    }

    /// Every instance, in insertion order.
    pub fn all_equips(&self) -> (s: &[EquipInstance])
        ensures
            s@ == self.items_view(),
    {
        self.items.as_slice()
    }

    pub fn next_inst_id(&self) -> (id: u64)
        ensures
            id == self.spec_next_inst_id(),
    {
        self.next_inst_id
    }

    pub fn set_next_inst_id(&mut self, id: u64)
        ensures
            final(self).spec_next_inst_id() == id,
            final(self).items_view() == old(self).items_view(),
    {
        self.next_inst_id = id;
    }
}

impl Container for EquipDepot {
    type Item = EquipInstance;

    open spec fn spec_len(&self) -> nat {
        self.items_view().len()
    }

    fn len(&self) -> (n: usize) {
        EquipDepot::len(self)
    }

    fn is_empty(&self) -> (b: bool) {
        EquipDepot::is_empty(self)
    }
}

impl KeyedContainer for EquipDepot {
    type Key = EquipInstId;

    open spec fn spec_lookup(&self, key: EquipInstId) -> Option<EquipInstance> {
        self.lookup(key.0)
    }

    open spec fn spec_replaced(&self, key: EquipInstId, item: EquipInstance, after: Self) -> bool {
        match equip_position(self.items_view(), key.0) {
            Some(i) => after.items_view() == self.items_view().update(i, item)
                && after.spec_next_inst_id() == self.spec_next_inst_id(),
            None => false,
        }
    }

    fn contains_key(&self, key: EquipInstId) -> (b: bool) {
        self.contains(key)
    }

    fn get_ref(&self, key: EquipInstId) -> (r: Option<&EquipInstance>) {
        self.get(key)
    }

    fn get_mut_ref(&mut self, key: EquipInstId) -> (r: Option<&mut EquipInstance>) {
        self.get_mut(key)
    }
}

impl DepotKind for EquipDepot {
    open spec fn spec_depot_type() -> i32 {
        3
    }

    fn depot_type(&self) -> (t: i32) {
        3
    }
}

impl LockableContainerExt for EquipDepot {
    open spec fn spec_locked_count(&self) -> nat {
        equip_locked(self.items_view())
    }

    fn locked_count(&self) -> (n: usize) {
        let ghost pred = |x: EquipInstance| x.is_lock;
        let mut n: usize = 0;
        let mut i: usize = 0;
        while i < self.items.len()
            invariant
                i <= self.items@.len(),
                pred == (|x: EquipInstance| x.is_lock),
                n == self.items@.take(i as int).filter(pred).len(),
                n <= i,
            decreases self.items.len() - i,
        {
            proof {
                assert(self.items@.take(i + 1) == self.items@.take(i as int).push(self.items@[i as int]));
                self.items@.take(i as int).lemma_filter_push(self.items@[i as int], pred);
            }
            if self.items[i].is_lock {
                n = n + 1;
            }
            i = i + 1;
        }
        assert(self.items@.take(self.items@.len() as int) == self.items@);
        n
    }
}

} // verus!
