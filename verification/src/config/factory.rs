//! Factory constants and the factory region map.

use crate::config::table::{get, lookup};
use vstd::prelude::*;

verus! {

/// Global factory constants.
#[derive(Debug, Clone)]
pub struct FConst {
    pub tick_based_total_progress: u64,
    pub machine_crafter_buffer_slot_count: u32,
    pub pack_merge_distance: u32,
    pub pack_pick_distance: u32,
    pub pack_drop_distance: u32,
    pub trader_default_order_type: String,
    pub statistic_bucket_steps: u32,
    pub statistic_bucket_count: u32,
    pub grid_cargo_min_distance: u64,
    pub default_knowing_items: Vec<String>,
    pub workshop_upgrade_mission_id: String,
    pub manual_work_queue_length: u32,
    pub manual_work_unit_size: u32,
    pub trade_order_gen_speed: u32,
    pub max_statistic_bookmark_num: u32,
    pub travel_pole_qte_timing: u32,
    pub travel_pole_1_template_key: String,
    pub travel_pole_1_speed: u32,
    pub travel_pole_1_radius: u32,
    pub travel_pole_1_visible_radius: u32,
    pub travel_pole_2_template_key: String,
    pub travel_pole_2_speed: u32,
    pub travel_pole_2_radius: u32,
    pub travel_pole_2_visible_radius: u32,
    pub travel_pole_speed_line_effect_key: String,
    pub travel_pole_speed_line_effect_key_default_next: String,
    pub out_of_range_height: u32,
}

/// The factory constant table.
#[derive(Debug, Clone)]
pub struct FConstAssets {
    pub data: FConst,
}

/// Recycler constants.
#[derive(Debug, Clone, Copy)]
pub struct FRecyclerConst {
    pub rec_temp_storage_length: i32,
    pub rec_basic_generate_time: i32,
    pub rec_round_need_value: i32,
}

/// The recycler constant table.
#[derive(Debug, Clone, Copy)]
pub struct FRecyclerConstAssets {
    pub data: FRecyclerConst,
}

/// Which ores count as originium for factory skills.
#[derive(Debug, Clone)]
pub struct FSkillConst {
    pub is_originium_ore: Vec<String>,
    pub is_not_originium_ore: Vec<String>,
}

/// One level of a factory region.
#[derive(Debug, Clone)]
pub struct RegionItem {
    pub id: String,
    pub level: u32,
    pub pos_x: i32,
    pub pos_y: i32,
    pub range_w: u32,
    pub range_h: u32,
    pub icon: String,
}

/// The levels of a factory region.
#[derive(Debug, Clone)]
pub struct RegionData {
    pub list: Vec<RegionItem>,
}

/// The factory region map, keyed by region id.
#[derive(Debug, Clone)]
pub struct FRegionAssets {
    data: Vec<(String, RegionData)>,
}

impl FRegionAssets {
    pub closed spec fn regions(&self) -> Seq<(String, RegionData)> {
        self.data@
    }

    pub fn new(data: Vec<(String, RegionData)>) -> (a: Self)
        ensures
            a.regions() == data@,
    {
        FRegionAssets { data }
    }

    /// The first entry of region `region` at `level`; `None` when the region is unknown
    /// or has no such level.
    pub fn get(&self, region: &str, level: u32) -> (r: Option<&RegionItem>)
        ensures
            match lookup(self.regions(), region@) {
                None => r is None,
                Some(rd) => match r {
                    None => forall|k: int| 0 <= k < rd.list@.len() ==> (#[trigger] rd.list@[k]).level != level,
                    Some(item) => exists|k: int|
                        0 <= k < rd.list@.len() && rd.list@[k] == *item && item.level == level && forall|j: int|
                            0 <= j < k ==> (#[trigger] rd.list@[j]).level != level,
                },
            },
    {
        let rd = get(self.data.as_slice(), region)?;
        let mut i: usize = 0;
        while i < rd.list.len()
            invariant
                i <= rd.list@.len(),
                lookup(self.regions(), region@) == Some(*rd),
                forall|j: int| 0 <= j < i ==> (#[trigger] rd.list@[j]).level != level,
            decreases rd.list.len() - i,
        {
            if rd.list[i].level == level {
                proof {
                    let d = lookup(self.regions(), region@).unwrap();
                    assert(d.list@ == rd.list@);
                    assert(0 <= i < d.list@.len() && d.list@[i as int] == rd.list@[i as int] && rd.list@[i as int].level == level
                        && forall|j: int| 0 <= j < i ==> (#[trigger] d.list@[j]).level != level);
                }
                return Some(&rd.list[i]);
            }
            i = i + 1;
        }
        None
    }
}

} // verus!
