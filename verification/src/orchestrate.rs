//! The stage orchestrator's decisions: the fixed stage order, the
//! progress each stage boundary reports, and the assembly of the six
//! category maps into one dataset snapshot. The host drives the fetches
//! and hands each stage's pages to the extraction rules.
use crate::category_map::CategoryMap;
use crate::clock::now_epoch_seconds;
use crate::progress::{scaled_progress, PROGRESS_SCALE};
use crate::types::{ArkData, Beacon, Color, Creature, Engram, Icon, Item};
use vstd::prelude::*;

verus! {

/// The categories in the order their stages run.
pub open spec fn stages_spec() -> Seq<Seq<char>> {
    seq!["creatures"@, "items"@, "engrams"@, "beacons"@, "colors"@, "icons"@]
}

/// The stage order: creatures, items, engrams, beacons, colors, icons.
pub fn stage_names() -> (r: Vec<String>)
    ensures
        r@.len() == stages_spec().len(),
        forall|i: int| 0 <= i < r@.len() ==> r@[i]@ == stages_spec()[i],
{
    let mut r: Vec<String> = Vec::new();
    r.push("creatures".to_owned());
    r.push("items".to_owned());
    r.push("engrams".to_owned());
    r.push("beacons".to_owned());
    r.push("colors".to_owned());
    r.push("icons".to_owned());
    proof {
        assert(forall|i: int| 0 <= i < r@.len() ==> r@[i]@ == stages_spec()[i]);
    }
    r
}

/// The overall progress reported when stage `index` of `total` starts.
pub fn stage_start_progress(index: usize, total: usize) -> (r: u32)
    requires
        total > 0,
        index <= total,
    ensures
        r == index as int * PROGRESS_SCALE as int / total as int,
{
    scaled_progress(index, total)
}

/// The overall progress reported when stage `index` of `total` has
/// finished: the next stage boundary.
pub fn stage_complete_progress(index: usize, total: usize) -> (r: u32)
    requires
        total > 0,
        index < total,
    ensures
        r == (index + 1) as int * PROGRESS_SCALE as int / total as int,
{
    scaled_progress(index + 1, total)
}

/// Assembles the six category maps into one snapshot, stamped with the
/// current time.
pub fn assemble_dataset(
    creatures: CategoryMap<Creature>,
    items: CategoryMap<Item>,
    engrams: CategoryMap<Engram>,
    beacons: CategoryMap<Beacon>,
    colors: CategoryMap<Color>,
    icons: CategoryMap<Icon>,
) -> (d: ArkData)
    ensures
        d@.creatures == creatures@,
        d@.items == items@,
        d@.engrams == engrams@,
        d@.beacons == beacons@,
        d@.colors == colors@,
        d@.icons == icons@,
        d@.version == "1.0.0"@,
        creatures.wf() && items.wf() && engrams.wf() && beacons.wf() && colors.wf()
            && icons.wf() ==> d.wf(),
{
    ArkData {
        creatures,
        items,
        engrams,
        beacons,
        colors,
        icons,
        version: "1.0.0".to_owned(),
        last_updated: now_epoch_seconds(),
    }
}

} // verus!
