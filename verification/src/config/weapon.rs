//! Weapon tables: base stats, breakthrough stages, level curves and exp items.

use crate::config::table::{find_key, get, lookup, select, values};
use vstd::prelude::*;

verus! {

/// One row of the weapon base table.
#[derive(Debug, Clone)]
pub struct Weapon {
    pub weapon_id: String,
    pub weapon_type: u32,
    pub rarity: u32,
    pub max_lv: u32,
    pub breakthrough_template_id: String,
    pub level_template_id: String,
}

/// One breakthrough stage: the level cap it unlocks and the level shown for it.
#[derive(Debug, Clone, Copy)]
pub struct BreakthroughEntry {
    pub breakthrough_lv: u32,
    pub breakthrough_show_lv: u32,
}

/// The ordered breakthrough stages of a weapon.
#[derive(Debug, Clone)]
pub struct BreakthroughTemplate {
    pub list: Vec<BreakthroughEntry>,
}

/// One point of a level curve: total exp needed to reach `weapon_lv`.
#[derive(Debug, Clone, Copy)]
pub struct UpgradeSumEntry {
    pub weapon_lv: u32,
    pub lv_up_exp_sum: u32,
}

/// A cumulative level curve, in increasing level order.
#[derive(Debug, Clone)]
pub struct UpgradeTemplateSum {
    pub list: Vec<UpgradeSumEntry>,
}

/// One row of the weapon exp-item table.
#[derive(Debug, Clone)]
pub struct WeaponExpItem {
    pub exp_item_id: String,
    pub item_exp: u32,
}

/// The exp-item rows turned into `(item id, exp)` pairs, rows without an item id dropped.
pub open spec fn exp_pairs(rows: Seq<WeaponExpItem>) -> Seq<(String, u64)> {
    rows.filter(|r: WeaponExpItem| r.exp_item_id@.len() > 0).map_values(
        |r: WeaponExpItem| (r.exp_item_id, r.item_exp as u64),
    )
}

/// Number of leading entries of a level curve reachable with `exp` under the cap `max_lv`.
pub open spec fn reachable_run(list: Seq<UpgradeSumEntry>, max_lv: u64, exp: u64) -> nat
    decreases list.len(),
{
    if list.len() > 0 && list[0].weapon_lv <= max_lv && list[0].lv_up_exp_sum <= exp {
        1 + reachable_run(list.skip(1), max_lv, exp)
    } else {
        0
    }
}

/// The level a curve grants for `exp` under the cap `max_lv`: the level of the last
/// reachable leading entry, or 1 when none is reachable.
pub open spec fn curve_level(list: Seq<UpgradeSumEntry>, max_lv: u64, exp: u64) -> u64 {
    let n = reachable_run(list, max_lv, exp);
    if n == 0 {
        1
    } else {
        list[n - 1].weapon_lv as u64
    }
}

proof fn lemma_reachable_run(list: Seq<UpgradeSumEntry>, max_lv: u64, exp: u64, i: int)
    requires
        0 <= i <= list.len(),
        forall|j: int| 0 <= j < i ==> (#[trigger] list[j]).weapon_lv <= max_lv && list[j].lv_up_exp_sum <= exp,
        i == list.len() || list[i].weapon_lv > max_lv || list[i].lv_up_exp_sum > exp,
    ensures
        reachable_run(list, max_lv, exp) == i,
    decreases i,
{
    if i > 0 {
        let rest = list.skip(1);
        assert forall|j: int| 0 <= j < i - 1 implies (#[trigger] rest[j]).weapon_lv <= max_lv
            && rest[j].lv_up_exp_sum <= exp by {
            assert(rest[j] == list[j + 1]);
        }
        if i < list.len() {
            assert(rest[i - 1] == list[i]);
        }
        lemma_reachable_run(rest, max_lv, exp, i - 1);
        assert(list[0].weapon_lv <= max_lv);
    }
}

/// The predicate "equals `t`".
pub open spec fn equals_u32(t: u32) -> spec_fn(u32) -> bool {
    |x: u32| x == t
}

/// How many entries of `s` equal `t`.
pub open spec fn occurrences_u32(s: Seq<u32>, t: u32) -> nat {
    s.filter(equals_u32(t)).len()
}

/// `counts` tallies `s`: one entry per distinct value, paired with how often it occurs.
pub open spec fn is_tally_u32(counts: Seq<(u32, usize)>, s: Seq<u32>) -> bool {
    &&& forall|k: int| 0 <= k < counts.len() ==> counts[k].1 == occurrences_u32(s, (#[trigger] counts[k]).0)
    &&& forall|k: int| 0 <= k < counts.len() ==> s.contains((#[trigger] counts[k]).0)
    &&& forall|k1: int, k2: int| 0 <= k1 < k2 < counts.len() ==> (#[trigger] counts[k1]).0 != (#[trigger] counts[k2]).0
    &&& forall|j: int| 0 <= j < s.len() ==> exists|k: int| 0 <= k < counts.len() && (#[trigger] counts[k]).0 == #[trigger] s[j]
}

proof fn lemma_occurrences_u32_push(s: Seq<u32>, x: u32, t: u32)
    ensures
        occurrences_u32(s.push(x), t) == occurrences_u32(s, t) + (if x == t { 1nat } else { 0nat }),
{
    s.lemma_filter_push(x, equals_u32(t));
}

proof fn lemma_occurrences_u32_absent(s: Seq<u32>, t: u32)
    requires
        !s.contains(t),
    ensures
        occurrences_u32(s, t) == 0,
    decreases s.len(),
{
    if s.len() > 0 {
        let init = s.drop_last();
        assert(s == init.push(s.last()));
        assert forall|j: int| 0 <= j < init.len() implies init[j] != t by {
            assert(s[j] == init[j]);
        }
        lemma_occurrences_u32_absent(init, t);
        lemma_occurrences_u32_push(init, s.last(), t);
    } else {
        assert(s.filter(equals_u32(t)) =~= Seq::<u32>::empty()) by {
            reveal(Seq::filter);
        }
    }
}

/// Weapon configuration: every table keyed by its string id.
pub struct WeaponAssets {
    data: Vec<(String, Weapon)>,
    breakthrough: Vec<(String, BreakthroughTemplate)>,
    upgrade_sum: Vec<(String, UpgradeTemplateSum)>,
    weapon_exp_by_item_id: Vec<(String, u64)>,
}

impl WeaponAssets {
    pub closed spec fn data_view(&self) -> Seq<(String, Weapon)> {
        self.data@
    }

    pub closed spec fn breakthrough_view(&self) -> Seq<(String, BreakthroughTemplate)> {
        self.breakthrough@
    }

    pub closed spec fn upgrade_sum_view(&self) -> Seq<(String, UpgradeTemplateSum)> {
        self.upgrade_sum@
    }

    pub closed spec fn exp_view(&self) -> Seq<(String, u64)> {
        self.weapon_exp_by_item_id@
    }

    /// The weapons, in table order.
    pub open spec fn weapons(&self) -> Seq<Weapon> {
        values(self.data_view())
    }

    pub open spec fn spec_get(&self, weapon_id: Seq<char>) -> Option<Weapon> {
        lookup(self.data_view(), weapon_id)
    }

    /// The breakthrough template of weapon `weapon_id`, when both exist.
    pub open spec fn spec_template_of(&self, weapon_id: Seq<char>) -> Option<BreakthroughTemplate> {
        match self.spec_get(weapon_id) {
            Some(w) => lookup(self.breakthrough_view(), w.breakthrough_template_id@),
            None => None,
        }
    }

    /// Builds the asset set from its tables; exp-item rows without an item id are dropped.
    pub fn from_tables(
        data: Vec<(String, Weapon)>,
        breakthrough: Vec<(String, BreakthroughTemplate)>,
        upgrade_sum: Vec<(String, UpgradeTemplateSum)>,
        exp_items: Vec<WeaponExpItem>,
    ) -> (a: Self)
        ensures
            a.data_view() == data@,
            a.breakthrough_view() == breakthrough@,
            a.upgrade_sum_view() == upgrade_sum@,
            a.exp_view() == exp_pairs(exp_items@),
    {
        let ghost rows = exp_items@;
        let ghost keep = |r: WeaponExpItem| r.exp_item_id@.len() > 0;
        let ghost conv = |r: WeaponExpItem| (r.exp_item_id, r.item_exp as u64);
        let mut pairs: Vec<(String, u64)> = Vec::new();
        let n = exp_items.len();
        let mut i: usize = 0;
        while i < n
            invariant
                n == rows.len(),
                i <= n,
                rows == exp_items@,
                keep == (|r: WeaponExpItem| r.exp_item_id@.len() > 0),
                conv == (|r: WeaponExpItem| (r.exp_item_id, r.item_exp as u64)),
                pairs@ == rows.take(i as int).filter(keep).map_values(conv),
            decreases n - i,
        {
            proof {
                assert(rows.take(i + 1) == rows.take(i as int).push(rows[i as int]));
                rows.take(i as int).lemma_filter_push(rows[i as int], keep);
            }
            let r = &exp_items[i];
            if !r.exp_item_id.as_str().is_empty() {
                pairs.push((r.exp_item_id.clone(), r.item_exp as u64));
            }
            i = i + 1;
        }
        proof {
            assert(rows.take(n as int) == rows);
        }
        WeaponAssets { data, breakthrough, upgrade_sum, weapon_exp_by_item_id: pairs }
    }

    pub fn get(&self, weapon_id: &str) -> (r: Option<&Weapon>)
        ensures
            match r {
                Some(w) => self.spec_get(weapon_id@) == Some(*w),
                None => self.spec_get(weapon_id@) is None,
            },
    {
        get(self.data.as_slice(), weapon_id)
    }

    /// The weapons of type `weapon_type`, in table order.
    pub fn get_by_type(&self, weapon_type: u32) -> (out: Vec<&Weapon>)
        ensures
            out@.len() == self.weapons().filter(|w: Weapon| w.weapon_type == weapon_type).len(),
            forall|k: int|
                0 <= k < out@.len() ==> *out@[k] == self.weapons().filter(
                    |w: Weapon| w.weapon_type == weapon_type,
                )[k],
    {
        let f = |w: &Weapon| -> (b: bool)
            ensures
                b == (w.weapon_type == weapon_type),
            {
                w.weapon_type == weapon_type
            };
        select(self.data.as_slice(), f, Ghost(|w: Weapon| w.weapon_type == weapon_type))
    }

    /// Same as [`Self::get_by_type`]: the weapons a character of that weapon type can wield.
    pub fn get_suitable_for_char(&self, char_weapon_type: u32) -> (out: Vec<&Weapon>)
        ensures
            out@.len() == self.weapons().filter(|w: Weapon| w.weapon_type == char_weapon_type).len(),
            forall|k: int|
                0 <= k < out@.len() ==> *out@[k] == self.weapons().filter(
                    |w: Weapon| w.weapon_type == char_weapon_type,
                )[k],
    {
        self.get_by_type(char_weapon_type)
    }

    /// The rarest weapon of type `char_weapon_type`; among equally rare ones, the last in
    /// table order. `None` when there is no weapon of that type.
    pub fn get_best_for_char(&self, char_weapon_type: u32) -> (r: Option<&Weapon>)
        ensures
            ({
                let f = self.weapons().filter(|w: Weapon| w.weapon_type == char_weapon_type);
                match r {
                    None => f.len() == 0,
                    Some(w) => exists|k: int|
                        0 <= k < f.len() && f[k] == *w && (forall|j: int|
                            0 <= j < f.len() ==> (#[trigger] f[j]).rarity <= w.rarity) && (forall|j: int|
                            k < j < f.len() ==> (#[trigger] f[j]).rarity < w.rarity),
                }
            }),
    {
        let ghost f = self.weapons().filter(|w: Weapon| w.weapon_type == char_weapon_type);
        let cands = self.get_by_type(char_weapon_type);
        if cands.len() == 0 {
            return None;
        }
        let mut best: usize = 0;
        let mut i: usize = 1;
        while i < cands.len()
            invariant
                cands@.len() == f.len(),
                forall|k: int| 0 <= k < cands@.len() ==> *cands@[k] == f[k],
                0 <= best < i <= cands@.len(),
                forall|j: int| 0 <= j < i ==> (#[trigger] f[j]).rarity <= f[best as int].rarity,
                forall|j: int| best < j < i ==> (#[trigger] f[j]).rarity < f[best as int].rarity,
            decreases cands.len() - i,
        {
            if cands[i].rarity >= cands[best].rarity {
                best = i;
            }
            i = i + 1;
        }
        Some(cands[best])
    }

    /// The weapons of rarity `rarity`, in table order.
    pub fn get_by_rarity(&self, rarity: u32) -> (out: Vec<&Weapon>)
        ensures
            out@.len() == self.weapons().filter(|w: Weapon| w.rarity == rarity).len(),
            forall|k: int|
                0 <= k < out@.len() ==> *out@[k] == self.weapons().filter(|w: Weapon| w.rarity == rarity)[k],
    {
        let f = |w: &Weapon| -> (b: bool)
            ensures
                b == (w.rarity == rarity),
            {
                w.rarity == rarity
            };
        select(self.data.as_slice(), f, Ghost(|w: Weapon| w.rarity == rarity))
    }

    /// The weapons of rarity `rarity` and type `weapon_type`, in table order.
    pub fn get_by_rarity_and_type(&self, rarity: u32, weapon_type: u32) -> (out: Vec<&Weapon>)
        ensures
            out@.len() == self.weapons().filter(
                |w: Weapon| w.rarity == rarity && w.weapon_type == weapon_type,
            ).len(),
            forall|k: int|
                0 <= k < out@.len() ==> *out@[k] == self.weapons().filter(
                    |w: Weapon| w.rarity == rarity && w.weapon_type == weapon_type,
                )[k],
    {
        let f = |w: &Weapon| -> (b: bool)
            ensures
                b == (w.rarity == rarity && w.weapon_type == weapon_type),
            {
                w.rarity == rarity && w.weapon_type == weapon_type
            };
        select(
            self.data.as_slice(),
            f,
            Ghost(|w: Weapon| w.rarity == rarity && w.weapon_type == weapon_type),
        )
    }

    /// The six-star weapons of type `weapon_type`, in table order.
    pub fn get_signature_weapons_for_type(&self, weapon_type: u32) -> (out: Vec<&Weapon>)
        ensures
            out@.len() == self.weapons().filter(
                |w: Weapon| w.rarity == 6 && w.weapon_type == weapon_type,
            ).len(),
            forall|k: int|
                0 <= k < out@.len() ==> *out@[k] == self.weapons().filter(
                    |w: Weapon| w.rarity == 6 && w.weapon_type == weapon_type,
                )[k],
    {
        self.get_by_rarity_and_type(6, weapon_type)
    }

    /// The weapons of type `weapon_type` with rarity at least five, in table order.
    pub fn get_premium_weapons_for_type(&self, weapon_type: u32) -> (out: Vec<&Weapon>)
        ensures
            out@.len() == self.weapons().filter(
                |w: Weapon| w.weapon_type == weapon_type && w.rarity >= 5,
            ).len(),
            forall|k: int|
                0 <= k < out@.len() ==> *out@[k] == self.weapons().filter(
                    |w: Weapon| w.weapon_type == weapon_type && w.rarity >= 5,
                )[k],
    {
        let f = |w: &Weapon| -> (b: bool)
            ensures
                b == (w.weapon_type == weapon_type && w.rarity >= 5),
            {
                w.weapon_type == weapon_type && w.rarity >= 5
            };
        select(
            self.data.as_slice(),
            f,
            Ghost(|w: Weapon| w.weapon_type == weapon_type && w.rarity >= 5),
        )
    }

    /// Number of breakthrough stages of weapon `weapon_id`; 0 when the weapon or its
    /// template is unknown.
    pub fn get_max_breakthrough_lv(&self, weapon_id: &str) -> (n: u64)
        ensures
            n == match self.spec_template_of(weapon_id@) {
                Some(t) => t.list@.len() as u64,
                None => 0u64,
            },
    {
        match self.get(weapon_id) {
            None => 0,
            Some(weapon) => match get(self.breakthrough.as_slice(), weapon.breakthrough_template_id.as_str()) {
                None => 0,
                Some(template) => template.list.len() as u64,
            },
        }
    }

    /// The weapon-level cap after `breakthrough_count` completed breakthroughs: the
    /// `breakthrough_lv` of the next stage, or the weapon's `max_lv` once every stage is
    /// done or when it has no template; 1 for an unknown weapon.
    pub fn get_effective_max_lv(&self, weapon_id: &str, breakthrough_count: u64) -> (cap: u64)
        ensures
            cap == match self.spec_get(weapon_id@) {
                None => 1u64,
                Some(w) => match self.spec_template_of(weapon_id@) {
                    None => w.max_lv as u64,
                    Some(t) => if breakthrough_count < t.list@.len() {
                        t.list@[breakthrough_count as int].breakthrough_lv as u64
                    } else {
                        w.max_lv as u64
                    },
                },
            },
    {
        let Some(weapon) = self.get(weapon_id) else {
            return 1;
        };
        let Some(template) = get(self.breakthrough.as_slice(), weapon.breakthrough_template_id.as_str()) else {
            return weapon.max_lv as u64;
        };
        if breakthrough_count < template.list.len() as u64 {
            template.list[breakthrough_count as usize].breakthrough_lv as u64
        } else {
            weapon.max_lv as u64
        }
    }

    pub fn contains(&self, weapon_id: &str) -> (b: bool)
        ensures
            b == self.spec_get(weapon_id@) is Some,
    {
        find_key(self.data.as_slice(), weapon_id).is_some()
    }

    /// Every `(weapon id, weapon)` entry, in table order.
    pub fn iter(&self) -> (s: &[(String, Weapon)])
        ensures
            s@ == self.data_view(),
    {
        self.data.as_slice()
    }

    /// Every weapon, in table order.
    pub fn all_weapons(&self) -> (out: Vec<&Weapon>)
        ensures
            out@.len() == self.weapons().len(),
            forall|k: int| 0 <= k < out@.len() ==> *out@[k] == self.weapons()[k],
    {
        let f = |w: &Weapon| -> (b: bool)
            ensures
                b,
            {
                true
            };
        let out = select(self.data.as_slice(), f, Ghost(|w: Weapon| true));
        proof {
            let p = |w: Weapon| true;
            assert(self.weapons().filter(p) == self.weapons()) by {
                self.weapons().lemma_filter_len(p);
                lemma_filter_all(self.weapons(), p);
            }
        }
        out
    }

    pub fn count(&self) -> (n: usize)
        ensures
            n == self.data_view().len(),
    {
        self.data.len()
    }

    pub fn get_breakthrough_template(&self, template_id: &str) -> (r: Option<&BreakthroughTemplate>)
        ensures
            match r {
                Some(t) => lookup(self.breakthrough_view(), template_id@) == Some(*t),
                None => lookup(self.breakthrough_view(), template_id@) is None,
            },
    {
        get(self.breakthrough.as_slice(), template_id)
    }

    /// The `breakthrough_lv` of the first stage of weapon `weapon_id` whose shown level is
    /// `target_show_lv`; `None` when the weapon, its template or such a stage is missing.
    pub fn get_breakthrough_required_level(&self, weapon_id: &str, target_show_lv: u32) -> (r: Option<u32>)
        ensures
            match self.spec_template_of(weapon_id@) {
                None => r is None,
                Some(t) => match r {
                    None => forall|k: int|
                        0 <= k < t.list@.len() ==> (#[trigger] t.list@[k]).breakthrough_show_lv != target_show_lv,
                    Some(lv) => exists|k: int|
                        0 <= k < t.list@.len() && (#[trigger] t.list@[k]).breakthrough_show_lv == target_show_lv
                            && t.list@[k].breakthrough_lv == lv && forall|j: int|
                            0 <= j < k ==> (#[trigger] t.list@[j]).breakthrough_show_lv != target_show_lv,
                },
            },
    {
        let weapon = self.get(weapon_id)?;
        let template = get(self.breakthrough.as_slice(), weapon.breakthrough_template_id.as_str())?;
        let mut i: usize = 0;
        while i < template.list.len()
            invariant
                i <= template.list@.len(),
                self.spec_template_of(weapon_id@) == Some(*template),
                forall|j: int| 0 <= j < i ==> (#[trigger] template.list@[j]).breakthrough_show_lv != target_show_lv,
            decreases template.list.len() - i,
        {
            if template.list[i].breakthrough_show_lv == target_show_lv {
                let lv = template.list[i].breakthrough_lv;
                proof {
                    let t = self.spec_template_of(weapon_id@).unwrap();
                    assert(t.list@ == template.list@);
                    assert(0 <= i < t.list@.len() && t.list@[i as int].breakthrough_show_lv == target_show_lv
                        && t.list@[i as int].breakthrough_lv == lv && forall|j: int|
                        0 <= j < i ==> (#[trigger] t.list@[j]).breakthrough_show_lv != target_show_lv);
                }
                return Some(template.list[i].breakthrough_lv);
            }
            i = i + 1;
        }
        None
    }

    /// Number of weapons of each weapon type: one entry per type present, in order of
    /// first appearance.
    pub fn count_by_type(&self) -> (counts: Vec<(u32, usize)>)
        ensures
            is_tally_u32(counts@, self.weapons().map_values(|w: Weapon| w.weapon_type)),
    {
        let ghost types = self.weapons().map_values(|w: Weapon| w.weapon_type);
        let mut counts: Vec<(u32, usize)> = Vec::new();
        let mut i: usize = 0;
        while i < self.data.len()
            invariant
                i <= self.data@.len(),
                types == self.weapons().map_values(|w: Weapon| w.weapon_type),
                types.len() == self.data@.len(),
                is_tally_u32(counts@, types.take(i as int)),
                forall|k: int| 0 <= k < counts@.len() ==> (#[trigger] counts@[k]).1 <= i,
            decreases self.data.len() - i,
        {
            let t = self.data[i].1.weapon_type;
            let ghost pre = types.take(i as int);
            proof {
                assert(types[i as int] == t);
                assert(types.take(i + 1) == pre.push(t));
                assert forall|u: u32| occurrences_u32(types.take(i + 1), u) == occurrences_u32(pre, u) + (if t
                    == u { 1nat } else { 0nat }) by {
                    lemma_occurrences_u32_push(pre, t, u);
                }
            }
            let mut k: usize = 0;
            let mut found = false;
            while k < counts.len()
                invariant_except_break
                    k <= counts@.len(),
                    !found,
                    forall|m: int| 0 <= m < k ==> (#[trigger] counts@[m]).0 != t,
                ensures
                    k <= counts@.len(),
                    found ==> k < counts@.len() && counts@[k as int].0 == t,
                    !found ==> forall|m: int| 0 <= m < counts@.len() ==> (#[trigger] counts@[m]).0 != t,
                decreases counts.len() - k,
            {
                if counts[k].0 == t {
                    found = true;
                    break;
                }
                k = k + 1;
            }
            let ghost old_counts = counts@;
            if found {
                let c = counts[k].1;
                counts.set(k, (t, c + 1));
                proof {
                    let post = types.take(i + 1);
                    assert forall|m: int| 0 <= m < counts@.len() implies post.contains((#[trigger] counts@[m]).0) by {
                        let w = choose|j: int| 0 <= j < pre.len() && pre[j] == old_counts[m].0;
                        assert(post[w] == pre[w]);
                    }
                    assert forall|j: int| 0 <= j < post.len() implies exists|m: int|
                        0 <= m < counts@.len() && (#[trigger] counts@[m]).0 == #[trigger] post[j] by {
                        if j < pre.len() {
                            assert(post[j] == pre[j]);
                            let m = choose|m: int| 0 <= m < old_counts.len() && (#[trigger] old_counts[m]).0 == pre[j];
                            assert(counts@[m].0 == post[j]);
                        } else {
                            assert(counts@[k as int].0 == post[j]);
                        }
                    }
                }
            } else {
                counts.push((t, 1));
                proof {
                    let post = types.take(i + 1);
                    assert(post[i as int] == t);
                    assert(occurrences_u32(pre, t) == 0) by {
                        if pre.contains(t) {
                            let j = choose|j: int| 0 <= j < pre.len() && pre[j] == t;
                            let m = choose|m: int| 0 <= m < old_counts.len() && (#[trigger] old_counts[m]).0 == pre[j];
                            assert(old_counts[m].0 != t);
                        }
                        lemma_occurrences_u32_absent(pre, t);
                    }
                    assert forall|m: int| 0 <= m < counts@.len() implies post.contains((#[trigger] counts@[m]).0) by {
                        if m < old_counts.len() {
                            assert(counts@[m] == old_counts[m]);
                            let w = choose|j: int| 0 <= j < pre.len() && pre[j] == old_counts[m].0;
                            assert(post[w] == pre[w]);
                        } else {
                            assert(post[i as int] == counts@[m].0);
                        }
                    }
                    assert forall|j: int| 0 <= j < post.len() implies exists|m: int|
                        0 <= m < counts@.len() && (#[trigger] counts@[m]).0 == #[trigger] post[j] by {
                        if j < pre.len() {
                            assert(post[j] == pre[j]);
                            let m = choose|m: int| 0 <= m < old_counts.len() && (#[trigger] old_counts[m]).0 == pre[j];
                            assert(counts@[m] == old_counts[m]);
                        } else {
                            assert(counts@[old_counts.len() as int].0 == post[j]);
                        }
                    }
                }
            }
            i = i + 1;
        }
        proof {
            assert(types.take(self.data@.len() as int) == types);
        }
        counts
    }

    pub fn get_upgrade_sum(&self, template_id: &str) -> (r: Option<&UpgradeTemplateSum>)
        ensures
            match r {
                Some(t) => lookup(self.upgrade_sum_view(), template_id@) == Some(*t),
                None => lookup(self.upgrade_sum_view(), template_id@) is None,
            },
    {
        get(self.upgrade_sum.as_slice(), template_id)
    }

    /// The weapon exp granted by consuming one `item_id`; 0 for items not in the exp table.
    pub fn weapon_exp_for_item(&self, item_id: &str) -> (exp: u64)
        ensures
            exp == match lookup(self.exp_view(), item_id@) {
                Some(e) => e,
                None => 0u64,
            },
    {
        match get(self.weapon_exp_by_item_id.as_slice(), item_id) {
            Some(e) => *e,
            None => 0,
        }
    }

    /// The level weapon `weapon_id` reaches with `total_exp`, along its level curve and
    /// capped at its `max_lv`; 1 when the weapon or its curve is unknown.
    pub fn weapon_level_from_exp(&self, weapon_id: &str, total_exp: u64) -> (level: u64)
        ensures
            level == match self.spec_get(weapon_id@) {
                None => 1u64,
                Some(w) => match lookup(self.upgrade_sum_view(), w.level_template_id@) {
                    None => 1u64,
                    Some(t) => curve_level(t.list@, w.max_lv as u64, total_exp),
                },
            },
    {
        let Some(weapon) = self.get(weapon_id) else {
            return 1;
        };
        let max_lv = weapon.max_lv as u64;
        let Some(sum_table) = get(self.upgrade_sum.as_slice(), weapon.level_template_id.as_str()) else {
            return 1;
        };
        let ghost list = sum_table.list@;
        let mut level: u64 = 1;
        let mut i: usize = 0;
        loop
            invariant_except_break
                i <= list.len(),
                list == sum_table.list@,
                forall|j: int| 0 <= j < i ==> (#[trigger] list[j]).weapon_lv <= max_lv && list[j].lv_up_exp_sum <= total_exp,
                level == (if i == 0 { 1u64 } else { list[i - 1].weapon_lv as u64 }),
            ensures
                level == curve_level(list, max_lv, total_exp),
            decreases sum_table.list.len() - i,
        {
            if i >= sum_table.list.len() {
                proof {
                    lemma_reachable_run(list, max_lv, total_exp, i as int);
                }
                break;
            }
            let entry = sum_table.list[i];
            let lv = entry.weapon_lv as u64;
            if lv > max_lv || (entry.lv_up_exp_sum as u64) > total_exp {
                proof {
                    lemma_reachable_run(list, max_lv, total_exp, i as int);
                }
                break;
            }
            level = lv;
            i = i + 1;
        }
        level
    }
}

proof fn lemma_filter_all<A>(s: Seq<A>, p: spec_fn(A) -> bool)
    requires
        forall|a: A| #[trigger] p(a),
    ensures
        s.filter(p) == s,
    decreases s.len(),
{
    reveal(Seq::filter);
    if s.len() > 0 {
        lemma_filter_all(s.drop_last(), p);
    }
}


/// The sum of the counts of a tally.
pub open spec fn tally_total(counts: Seq<(u32, usize)>) -> nat
    decreases counts.len(),
{
    if counts.len() == 0 {
        0
    } else {
        tally_total(counts.drop_last()) + (counts.last().1 as nat)
    }
}

/// The keys of a tally.
pub open spec fn tally_keys(counts: Seq<(u32, usize)>) -> Seq<u32> {
    counts.map_values(|c: (u32, usize)| c.0)
}

/// Whether a value is a key of `counts`.
pub open spec fn in_keys(counts: Seq<(u32, usize)>) -> spec_fn(u32) -> bool {
    |v: u32| tally_keys(counts).contains(v)
}

/// Passes `p` or equals `t`.
pub open spec fn or_equals(p: spec_fn(u32) -> bool, t: u32) -> spec_fn(u32) -> bool {
    |v: u32| p(v) || v == t
}

/// Entries of `s` that are keys of `counts`, counted key by key, add up to
/// the entries of `s` whose value is among the keys.
proof fn lemma_total_counts_members(counts: Seq<(u32, usize)>, s: Seq<u32>)
    requires
        forall|k: int| 0 <= k < counts.len() ==> counts[k].1 == occurrences_u32(s, (#[trigger] counts[k]).0),
        forall|k1: int, k2: int| 0 <= k1 < k2 < counts.len() ==> (#[trigger] counts[k1]).0 != (#[trigger] counts[k2]).0,
    ensures
        tally_total(counts) == s.filter(in_keys(counts)).len(),
    decreases counts.len(),
{
    if counts.len() == 0 {
        assert(in_keys(counts) =~= (|v: u32| false));
        lemma_filter_none(s);
    } else {
        let rest = counts.drop_last();
        let t = counts.last().0;
        lemma_total_counts_members(rest, s);
        assert forall|v: u32| tally_keys(counts).contains(v) <==> (tally_keys(rest).contains(v) || v == t) by {
            if tally_keys(counts).contains(v) {
                let k = choose|k: int| 0 <= k < tally_keys(counts).len() && tally_keys(counts)[k] == v;
                if k < rest.len() {
                    assert(tally_keys(rest)[k] == v);
                }
            }
            if tally_keys(rest).contains(v) {
                let k = choose|k: int| 0 <= k < tally_keys(rest).len() && tally_keys(rest)[k] == v;
                assert(tally_keys(counts)[k] == v);
            }
            if v == t {
                assert(tally_keys(counts)[counts.len() - 1] == v);
            }
        }
        assert(!tally_keys(rest).contains(t)) by {
            if tally_keys(rest).contains(t) {
                let k = choose|k: int| 0 <= k < tally_keys(rest).len() && tally_keys(rest)[k] == t;
                assert(counts[k].0 == t);
            }
        }
        lemma_filter_split(s, in_keys(rest), t);
        assert(in_keys(counts) =~= or_equals(in_keys(rest), t));
    }
}

proof fn lemma_filter_none(s: Seq<u32>)
    ensures
        s.filter(|v: u32| false).len() == 0,
    decreases s.len(),
{
    reveal_with_fuel(Seq::filter, 1);
    if s.len() > 0 {
        lemma_filter_none(s.drop_last());
    }
}

/// Counting the entries that pass `p` or equal `t`, with `t` not passing
/// `p`, counts those that pass `p` and those equal to `t`.
proof fn lemma_filter_split(s: Seq<u32>, p: spec_fn(u32) -> bool, t: u32)
    requires
        !p(t),
    ensures
        s.filter(or_equals(p, t)).len() == s.filter(p).len() + occurrences_u32(s, t),
    decreases s.len(),
{
    reveal_with_fuel(Seq::filter, 1);
    if s.len() > 0 {
        let r = s.drop_last();
        lemma_filter_split(r, p, t);
        lemma_occurrences_u32_push(r, s.last(), t);
        assert(r.push(s.last()) =~= s);
    }
}

/// A tally's counts add up to the number of entries tallied: the weapon
/// counts by type sum to the number of weapons.
pub proof fn lemma_tally_total(counts: Seq<(u32, usize)>, s: Seq<u32>)
    requires
        is_tally_u32(counts, s),
    ensures
        tally_total(counts) == s.len(),
{
    lemma_total_counts_members(counts, s);
    assert(s.filter(in_keys(counts)) =~= s) by {
        assert forall|j: int| 0 <= j < s.len() implies tally_keys(counts).contains(#[trigger] s[j]) by {
            let k = choose|k: int| 0 <= k < counts.len() && (#[trigger] counts[k]).0 == s[j];
            assert(tally_keys(counts)[k] == s[j]);
            assert(in_keys(counts)(s[j]));
        }
        lemma_filter_keeps_all(s, in_keys(counts));
    }
}

proof fn lemma_filter_keeps_all(s: Seq<u32>, p: spec_fn(u32) -> bool)
    requires
        forall|j: int| 0 <= j < s.len() ==> p(#[trigger] s[j]),
    ensures
        s.filter(p) == s,
    decreases s.len(),
{
    reveal_with_fuel(Seq::filter, 1);
    if s.len() > 0 {
        let r = s.drop_last();
        assert forall|j: int| 0 <= j < r.len() implies p(#[trigger] r[j]) by {
            assert(r[j] == s[j]);
        }
        lemma_filter_keeps_all(r, p);
        assert(r.push(s.last()) =~= s);
    }
}


/// The counts `count_by_type` gives add up to the number of weapons.
pub proof fn lemma_type_counts_sum(a: &WeaponAssets, counts: Seq<(u32, usize)>)
    requires
        is_tally_u32(counts, a.weapons().map_values(|w: Weapon| w.weapon_type)),
    ensures
        tally_total(counts) == a.weapons().len(),
{
    lemma_tally_total(counts, a.weapons().map_values(|w: Weapon| w.weapon_type));
}

proof fn lemma_filter_twice<A>(s: Seq<A>, p: spec_fn(A) -> bool, q: spec_fn(A) -> bool)
    ensures
        s.filter(p).filter(q) == s.filter(|x: A| p(x) && q(x)),
    decreases s.len(),
{
    reveal_with_fuel(Seq::filter, 1);
    if s.len() > 0 {
        let r = s.drop_last();
        lemma_filter_twice(r, p, q);
        if p(s.last()) {
            assert(r.filter(p).push(s.last()).drop_last() =~= r.filter(p));
        }
    }
}

/// The weapons of a rarity and a type are, in table order, the weapons of
/// that rarity that have that type, and the weapons of that type that have
/// that rarity.
pub proof fn lemma_rarity_and_type_filters(a: &WeaponAssets, rarity: u32, weapon_type: u32)
    ensures
        a.weapons().filter(|w: Weapon| w.rarity == rarity && w.weapon_type == weapon_type) == a.weapons().filter(
            |w: Weapon| w.rarity == rarity,
        ).filter(|w: Weapon| w.weapon_type == weapon_type),
        a.weapons().filter(|w: Weapon| w.rarity == rarity && w.weapon_type == weapon_type) == a.weapons().filter(
            |w: Weapon| w.weapon_type == weapon_type,
        ).filter(|w: Weapon| w.rarity == rarity),
{
    let by_rarity = |w: Weapon| w.rarity == rarity;
    let by_type = |w: Weapon| w.weapon_type == weapon_type;
    lemma_filter_twice(a.weapons(), by_rarity, by_type);
    lemma_filter_twice(a.weapons(), by_type, by_rarity);
    assert((|x: Weapon| by_rarity(x) && by_type(x)) =~= (|w: Weapon| w.rarity == rarity && w.weapon_type == weapon_type));
    assert((|x: Weapon| by_type(x) && by_rarity(x)) =~= (|w: Weapon| w.rarity == rarity && w.weapon_type == weapon_type));
}

/// The premium weapons of a type are, in table order, the weapons of that
/// type with rarity five or more; its signature weapons are, in table
/// order, the premium ones of rarity six.
pub proof fn lemma_premium_weapons(a: &WeaponAssets, weapon_type: u32)
    ensures
        a.weapons().filter(|w: Weapon| w.weapon_type == weapon_type && w.rarity >= 5) == a.weapons().filter(
            |w: Weapon| w.weapon_type == weapon_type,
        ).filter(|w: Weapon| w.rarity >= 5),
        a.weapons().filter(|w: Weapon| w.rarity == 6 && w.weapon_type == weapon_type) == a.weapons().filter(
            |w: Weapon| w.weapon_type == weapon_type && w.rarity >= 5,
        ).filter(|w: Weapon| w.rarity == 6),
{
    let by_type = |w: Weapon| w.weapon_type == weapon_type;
    let premium = |w: Weapon| w.weapon_type == weapon_type && w.rarity >= 5;
    let six = |w: Weapon| w.rarity == 6;
    lemma_filter_twice(a.weapons(), by_type, |w: Weapon| w.rarity >= 5);
    assert((|x: Weapon| by_type(x) && (|w: Weapon| w.rarity >= 5)(x)) =~= premium);
    lemma_filter_twice(a.weapons(), premium, six);
    assert((|x: Weapon| premium(x) && six(x)) =~= (|w: Weapon| w.rarity == 6 && w.weapon_type == weapon_type));
}

proof fn lemma_type_occurrences(s: Seq<Weapon>, t: u32)
    ensures
        occurrences_u32(s.map_values(|w: Weapon| w.weapon_type), t) == s.filter(|w: Weapon| w.weapon_type == t).len(),
    decreases s.len(),
{
    reveal_with_fuel(Seq::filter, 1);
    if s.len() > 0 {
        let r = s.drop_last();
        lemma_type_occurrences(r, t);
        assert(s.map_values(|w: Weapon| w.weapon_type) =~= r.map_values(|w: Weapon| w.weapon_type).push(
            s.last().weapon_type,
        ));
        lemma_occurrences_u32_push(r.map_values(|w: Weapon| w.weapon_type), s.last().weapon_type, t);
    }
}

/// The count `count_by_type` gives a type is the number of weapons
/// `get_by_type` gives for it, and a type it gives no count has no weapons.
pub proof fn lemma_type_count_matches(a: &WeaponAssets, counts: Seq<(u32, usize)>, weapon_type: u32)
    requires
        is_tally_u32(counts, a.weapons().map_values(|w: Weapon| w.weapon_type)),
    ensures
        forall|k: int|
            0 <= k < counts.len() && (#[trigger] counts[k]).0 == weapon_type ==> counts[k].1 == a.weapons().filter(
                |w: Weapon| w.weapon_type == weapon_type,
            ).len(),
        (forall|k: int| 0 <= k < counts.len() ==> (#[trigger] counts[k]).0 != weapon_type) ==> a.weapons().filter(
            |w: Weapon| w.weapon_type == weapon_type,
        ).len() == 0,
{
    let types = a.weapons().map_values(|w: Weapon| w.weapon_type);
    lemma_type_occurrences(a.weapons(), weapon_type);
    if forall|k: int| 0 <= k < counts.len() ==> (#[trigger] counts[k]).0 != weapon_type {
        let f = types.filter(equals_u32(weapon_type));
        types.filter_lemma(equals_u32(weapon_type));
        if f.len() > 0 {
            assert(equals_u32(weapon_type)(f[0]));
            assert(types.contains(f[0])) by {
                assert(f.contains(f[0]));
                types.lemma_filter_contains_rev(equals_u32(weapon_type), f[0]);
            }
            let j = choose|j: int| 0 <= j < types.len() && types[j] == f[0];
            let k = choose|k: int| 0 <= k < counts.len() && (#[trigger] counts[k]).0 == #[trigger] types[j];
        }
    }
}

} // verus!
