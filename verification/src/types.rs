//! The record categories, the aggregated dataset, and their mathematical
//! views.
use crate::category_map::{unique_keys, CategoryMap};
use crate::clock::now_epoch_seconds;
use vstd::prelude::*;

verus! {

#[derive(Debug, Clone)]
pub struct Creature {
    pub kind: String,
    pub name: String,
    pub mod_name: String,
    pub entity_id: String,
    pub blueprint: String,
}

#[verifier::ext_equal]
pub ghost struct CreatureV {
    pub kind: Seq<char>,
    pub name: Seq<char>,
    pub mod_name: Seq<char>,
    pub entity_id: Seq<char>,
    pub blueprint: Seq<char>,
}

impl View for Creature {
    type V = CreatureV;

    open spec fn view(&self) -> CreatureV {
        CreatureV {
            kind: self.kind@,
            name: self.name@,
            mod_name: self.mod_name@,
            entity_id: self.entity_id@,
            blueprint: self.blueprint@,
        }
    }
}

#[derive(Debug, Clone)]
pub struct Item {
    pub kind: String,
    pub name: String,
    pub mod_name: String,
    pub class_name: String,
    pub blueprint: String,
}

#[verifier::ext_equal]
pub ghost struct ItemV {
    pub kind: Seq<char>,
    pub name: Seq<char>,
    pub mod_name: Seq<char>,
    pub class_name: Seq<char>,
    pub blueprint: Seq<char>,
}

impl View for Item {
    type V = ItemV;

    open spec fn view(&self) -> ItemV {
        ItemV {
            kind: self.kind@,
            name: self.name@,
            mod_name: self.mod_name@,
            class_name: self.class_name@,
            blueprint: self.blueprint@,
        }
    }
}

#[derive(Debug, Clone)]
pub struct Engram {
    pub kind: String,
    pub name: String,
    pub mod_name: String,
    pub blueprint: String,
    pub class_name: String,
}

#[verifier::ext_equal]
pub ghost struct EngramV {
    pub kind: Seq<char>,
    pub name: Seq<char>,
    pub mod_name: Seq<char>,
    pub blueprint: Seq<char>,
    pub class_name: Seq<char>,
}

impl View for Engram {
    type V = EngramV;

    open spec fn view(&self) -> EngramV {
        EngramV {
            kind: self.kind@,
            name: self.name@,
            mod_name: self.mod_name@,
            blueprint: self.blueprint@,
            class_name: self.class_name@,
        }
    }
}

#[derive(Debug, Clone)]
pub struct Beacon {
    pub kind: String,
    pub name: String,
    pub mod_name: String,
    pub class_name: String,
}

#[verifier::ext_equal]
pub ghost struct BeaconV {
    pub kind: Seq<char>,
    pub name: Seq<char>,
    pub mod_name: Seq<char>,
    pub class_name: Seq<char>,
}

impl View for Beacon {
    type V = BeaconV;

    open spec fn view(&self) -> BeaconV {
        BeaconV {
            kind: self.kind@,
            name: self.name@,
            mod_name: self.mod_name@,
            class_name: self.class_name@,
        }
    }
}

#[derive(Debug, Clone)]
pub struct Color {
    pub kind: String,
    pub name: String,
    pub color_id: i32,
    pub hex_code: String,
}

#[verifier::ext_equal]
pub ghost struct ColorV {
    pub kind: Seq<char>,
    pub name: Seq<char>,
    pub color_id: i32,
    pub hex_code: Seq<char>,
}

impl View for Color {
    type V = ColorV;

    open spec fn view(&self) -> ColorV {
        ColorV {
            kind: self.kind@,
            name: self.name@,
            color_id: self.color_id,
            hex_code: self.hex_code@,
        }
    }
}

#[derive(Debug, Clone)]
pub struct Icon {
    pub kind: String,
    pub name: String,
    pub path: String,
}

#[verifier::ext_equal]
pub ghost struct IconV {
    pub kind: Seq<char>,
    pub name: Seq<char>,
    pub path: Seq<char>,
}

impl View for Icon {
    type V = IconV;

    open spec fn view(&self) -> IconV {
        IconV { kind: self.kind@, name: self.name@, path: self.path@ }
    }
}

/// One dataset snapshot: six category maps, a format version, and the time
/// it was last updated.
pub struct ArkData {
    pub creatures: CategoryMap<Creature>,
    pub items: CategoryMap<Item>,
    pub engrams: CategoryMap<Engram>,
    pub beacons: CategoryMap<Beacon>,
    pub colors: CategoryMap<Color>,
    pub icons: CategoryMap<Icon>,
    pub version: String,
    pub last_updated: i64,
}

#[verifier::ext_equal]
pub ghost struct ArkDataV {
    pub creatures: Seq<(Seq<char>, CreatureV)>,
    pub items: Seq<(Seq<char>, ItemV)>,
    pub engrams: Seq<(Seq<char>, EngramV)>,
    pub beacons: Seq<(Seq<char>, BeaconV)>,
    pub colors: Seq<(Seq<char>, ColorV)>,
    pub icons: Seq<(Seq<char>, IconV)>,
    pub version: Seq<char>,
    pub last_updated: int,
}

impl View for ArkData {
    type V = ArkDataV;

    open spec fn view(&self) -> ArkDataV {
        ArkDataV {
            creatures: self.creatures@,
            items: self.items@,
            engrams: self.engrams@,
            beacons: self.beacons@,
            colors: self.colors@,
            icons: self.icons@,
            version: self.version@,
            last_updated: self.last_updated as int,
        }
    }
}

/// Keys are unique within each of the six category maps.
pub open spec fn wf_dataset(d: ArkDataV) -> bool {
    &&& unique_keys(d.creatures)
    &&& unique_keys(d.items)
    &&& unique_keys(d.engrams)
    &&& unique_keys(d.beacons)
    &&& unique_keys(d.colors)
    &&& unique_keys(d.icons)
}

/// All six maps empty.
pub open spec fn empty_dataset(d: ArkDataV) -> bool {
    &&& d.creatures.len() == 0
    &&& d.items.len() == 0
    &&& d.engrams.len() == 0
    &&& d.beacons.len() == 0
    &&& d.colors.len() == 0
    &&& d.icons.len() == 0
}

impl ArkData {
    /// Well-formedness of a snapshot as a whole.
    pub open spec fn wf(&self) -> bool {
        wf_dataset(self@)
    }
}

impl Default for ArkData {
    /// An empty dataset stamped with the current time.
    fn default() -> (d: Self)
        ensures
            empty_dataset(d@),
            d@.version == "1.0.0"@,
            d.wf(),
    {
        ArkData {
            creatures: CategoryMap::new(),
            items: CategoryMap::new(),
            engrams: CategoryMap::new(),
            beacons: CategoryMap::new(),
            colors: CategoryMap::new(),
            icons: CategoryMap::new(),
            version: "1.0.0".to_owned(),
            last_updated: now_epoch_seconds(),
        }
    }
}

} // verus!
