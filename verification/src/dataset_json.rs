//! The persisted dataset format: one JSON object holding the six category
//! maps, the version string and the update timestamp. Serializing and
//! parsing are exact inverses; the round-trip law is proved here.
//!
//! Two choices of this format are deliberate. Each record carries its
//! category tag under the field name `kind` — the name this library
//! gives the tag throughout — and the reader is strict: it accepts
//! exactly the text the serializer writes, fields in their fixed order,
//! and answers anything else with nothing.
use crate::category_map::CategoryMap;
use crate::json::{
    enc_json, fields_view, json_to_text, json_view, lemma_fields_view_index,
    lemma_fields_view_len, text_to_json, wf_fields, wf_json, Json, JsonV,
};
use crate::text::str_eq;
use crate::types::{
    ArkData, ArkDataV, Beacon, BeaconV, Color, ColorV, Creature, CreatureV, Engram, EngramV,
    Icon, IconV, Item, ItemV,
};
use vstd::prelude::*;

verus! {

/// The JSON shape of one creature record.
pub open spec fn json_of_creature(c: CreatureV) -> JsonV {
    JsonV::Obj(
        seq![
            ("kind"@, JsonV::Str(c.kind)),
            ("name"@, JsonV::Str(c.name)),
            ("mod_name"@, JsonV::Str(c.mod_name)),
            ("entity_id"@, JsonV::Str(c.entity_id)),
            ("blueprint"@, JsonV::Str(c.blueprint)),
        ],
    )
}

/// The creature a JSON value describes, if it has exactly the expected
/// shape.
pub open spec fn creature_of_json(j: JsonV) -> Option<CreatureV> {
    match j {
        JsonV::Obj(fs) => {
            if fs.len() == 5 && fs[0].0 == "kind"@ && fs[0].1 is Str && fs[1].0 == "name"@
                && fs[1].1 is Str && fs[2].0 == "mod_name"@ && fs[2].1 is Str && fs[3].0
                == "entity_id"@ && fs[3].1 is Str && fs[4].0 == "blueprint"@ && fs[4].1 is Str {
                Some(
                    CreatureV {
                        kind: fs[0].1->Str_0,
                        name: fs[1].1->Str_0,
                        mod_name: fs[2].1->Str_0,
                        entity_id: fs[3].1->Str_0,
                        blueprint: fs[4].1->Str_0,
                    },
                )
            } else {
                None
            }
        },
        _ => None,
    }
}

/// The JSON shape of one item record.
pub open spec fn json_of_item(c: ItemV) -> JsonV {
    JsonV::Obj(
        seq![
            ("kind"@, JsonV::Str(c.kind)),
            ("name"@, JsonV::Str(c.name)),
            ("mod_name"@, JsonV::Str(c.mod_name)),
            ("class_name"@, JsonV::Str(c.class_name)),
            ("blueprint"@, JsonV::Str(c.blueprint)),
        ],
    )
}

/// The item a JSON value describes, if it has exactly the expected shape.
pub open spec fn item_of_json(j: JsonV) -> Option<ItemV> {
    match j {
        JsonV::Obj(fs) => {
            if fs.len() == 5 && fs[0].0 == "kind"@ && fs[0].1 is Str && fs[1].0 == "name"@
                && fs[1].1 is Str && fs[2].0 == "mod_name"@ && fs[2].1 is Str && fs[3].0
                == "class_name"@ && fs[3].1 is Str && fs[4].0 == "blueprint"@ && fs[4].1 is Str {
                Some(
                    ItemV {
                        kind: fs[0].1->Str_0,
                        name: fs[1].1->Str_0,
                        mod_name: fs[2].1->Str_0,
                        class_name: fs[3].1->Str_0,
                        blueprint: fs[4].1->Str_0,
                    },
                )
            } else {
                None
            }
        },
        _ => None,
    }
}

/// The JSON shape of one engram record.
pub open spec fn json_of_engram(c: EngramV) -> JsonV {
    JsonV::Obj(
        seq![
            ("kind"@, JsonV::Str(c.kind)),
            ("name"@, JsonV::Str(c.name)),
            ("mod_name"@, JsonV::Str(c.mod_name)),
            ("blueprint"@, JsonV::Str(c.blueprint)),
            ("class_name"@, JsonV::Str(c.class_name)),
        ],
    )
}

/// The engram a JSON value describes, if it has exactly the expected
/// shape.
pub open spec fn engram_of_json(j: JsonV) -> Option<EngramV> {
    match j {
        JsonV::Obj(fs) => {
            if fs.len() == 5 && fs[0].0 == "kind"@ && fs[0].1 is Str && fs[1].0 == "name"@
                && fs[1].1 is Str && fs[2].0 == "mod_name"@ && fs[2].1 is Str && fs[3].0
                == "blueprint"@ && fs[3].1 is Str && fs[4].0 == "class_name"@ && fs[4].1 is Str {
                Some(
                    EngramV {
                        kind: fs[0].1->Str_0,
                        name: fs[1].1->Str_0,
                        mod_name: fs[2].1->Str_0,
                        blueprint: fs[3].1->Str_0,
                        class_name: fs[4].1->Str_0,
                    },
                )
            } else {
                None
            }
        },
        _ => None,
    }
}

/// The JSON shape of one beacon record.
pub open spec fn json_of_beacon(c: BeaconV) -> JsonV {
    JsonV::Obj(
        seq![
            ("kind"@, JsonV::Str(c.kind)),
            ("name"@, JsonV::Str(c.name)),
            ("mod_name"@, JsonV::Str(c.mod_name)),
            ("class_name"@, JsonV::Str(c.class_name)),
        ],
    )
}

/// The beacon a JSON value describes, if it has exactly the expected
/// shape.
pub open spec fn beacon_of_json(j: JsonV) -> Option<BeaconV> {
    match j {
        JsonV::Obj(fs) => {
            if fs.len() == 4 && fs[0].0 == "kind"@ && fs[0].1 is Str && fs[1].0 == "name"@
                && fs[1].1 is Str && fs[2].0 == "mod_name"@ && fs[2].1 is Str && fs[3].0
                == "class_name"@ && fs[3].1 is Str {
                Some(
                    BeaconV {
                        kind: fs[0].1->Str_0,
                        name: fs[1].1->Str_0,
                        mod_name: fs[2].1->Str_0,
                        class_name: fs[3].1->Str_0,
                    },
                )
            } else {
                None
            }
        },
        _ => None,
    }
}

/// The JSON shape of one color record; the numeric identifier is a JSON
/// integer.
pub open spec fn json_of_color(c: ColorV) -> JsonV {
    JsonV::Obj(
        seq![
            ("kind"@, JsonV::Str(c.kind)),
            ("name"@, JsonV::Str(c.name)),
            ("color_id"@, JsonV::Int(c.color_id as int)),
            ("hex_code"@, JsonV::Str(c.hex_code)),
        ],
    )
}

/// The color a JSON value describes, if it has exactly the expected
/// shape, the identifier within the 32-bit range.
pub open spec fn color_of_json(j: JsonV) -> Option<ColorV> {
    match j {
        JsonV::Obj(fs) => {
            if fs.len() == 4 && fs[0].0 == "kind"@ && fs[0].1 is Str && fs[1].0 == "name"@
                && fs[1].1 is Str && fs[2].0 == "color_id"@ && fs[2].1 is Int && fs[3].0
                == "hex_code"@ && fs[3].1 is Str && i32::MIN <= fs[2].1->Int_0 <= i32::MAX {
                Some(
                    ColorV {
                        kind: fs[0].1->Str_0,
                        name: fs[1].1->Str_0,
                        color_id: fs[2].1->Int_0 as i32,
                        hex_code: fs[3].1->Str_0,
                    },
                )
            } else {
                None
            }
        },
        _ => None,
    }
}

/// The JSON shape of one icon record.
pub open spec fn json_of_icon(c: IconV) -> JsonV {
    JsonV::Obj(
        seq![
            ("kind"@, JsonV::Str(c.kind)),
            ("name"@, JsonV::Str(c.name)),
            ("path"@, JsonV::Str(c.path)),
        ],
    )
}

/// The icon a JSON value describes, if it has exactly the expected shape.
pub open spec fn icon_of_json(j: JsonV) -> Option<IconV> {
    match j {
        JsonV::Obj(fs) => {
            if fs.len() == 3 && fs[0].0 == "kind"@ && fs[0].1 is Str && fs[1].0 == "name"@
                && fs[1].1 is Str && fs[2].0 == "path"@ && fs[2].1 is Str {
                Some(
                    IconV {
                        kind: fs[0].1->Str_0,
                        name: fs[1].1->Str_0,
                        path: fs[2].1->Str_0,
                    },
                )
            } else {
                None
            }
        },
        _ => None,
    }
}

/// A category map as JSON object fields, keys kept in order.
pub open spec fn json_of_creature_map(m: Seq<(Seq<char>, CreatureV)>) -> Seq<(Seq<char>, JsonV)> {
    m.map_values(|p: (Seq<char>, CreatureV)| (p.0, json_of_creature(p.1)))
}

pub open spec fn json_of_item_map(m: Seq<(Seq<char>, ItemV)>) -> Seq<(Seq<char>, JsonV)> {
    m.map_values(|p: (Seq<char>, ItemV)| (p.0, json_of_item(p.1)))
}

pub open spec fn json_of_engram_map(m: Seq<(Seq<char>, EngramV)>) -> Seq<(Seq<char>, JsonV)> {
    m.map_values(|p: (Seq<char>, EngramV)| (p.0, json_of_engram(p.1)))
}

pub open spec fn json_of_beacon_map(m: Seq<(Seq<char>, BeaconV)>) -> Seq<(Seq<char>, JsonV)> {
    m.map_values(|p: (Seq<char>, BeaconV)| (p.0, json_of_beacon(p.1)))
}

pub open spec fn json_of_color_map(m: Seq<(Seq<char>, ColorV)>) -> Seq<(Seq<char>, JsonV)> {
    m.map_values(|p: (Seq<char>, ColorV)| (p.0, json_of_color(p.1)))
}

pub open spec fn json_of_icon_map(m: Seq<(Seq<char>, IconV)>) -> Seq<(Seq<char>, JsonV)> {
    m.map_values(|p: (Seq<char>, IconV)| (p.0, json_of_icon(p.1)))
}

/// `pre` prepended inside an optional sequence.
pub open spec fn opt_prepend<T>(pre: Seq<T>, o: Option<Seq<T>>) -> Option<Seq<T>> {
    match o {
        None => None,
        Some(t) => Some(pre + t),
    }
}

/// The creature map the fields of a JSON object describe, entry by entry.
pub open spec fn creature_map_of_json(fs: Seq<(Seq<char>, JsonV)>) -> Option<
    Seq<(Seq<char>, CreatureV)>,
>
    decreases fs.len(),
{
    if fs.len() == 0 {
        Some(Seq::empty())
    } else {
        match creature_of_json(fs[0].1) {
            None => None,
            Some(c) => opt_prepend(seq![(fs[0].0, c)], creature_map_of_json(fs.drop_first())),
        }
    }
}

pub open spec fn item_map_of_json(fs: Seq<(Seq<char>, JsonV)>) -> Option<Seq<(Seq<char>, ItemV)>>
    decreases fs.len(),
{
    if fs.len() == 0 {
        Some(Seq::empty())
    } else {
        match item_of_json(fs[0].1) {
            None => None,
            Some(c) => opt_prepend(seq![(fs[0].0, c)], item_map_of_json(fs.drop_first())),
        }
    }
}

pub open spec fn engram_map_of_json(fs: Seq<(Seq<char>, JsonV)>) -> Option<
    Seq<(Seq<char>, EngramV)>,
>
    decreases fs.len(),
{
    if fs.len() == 0 {
        Some(Seq::empty())
    } else {
        match engram_of_json(fs[0].1) {
            None => None,
            Some(c) => opt_prepend(seq![(fs[0].0, c)], engram_map_of_json(fs.drop_first())),
        }
    }
}

pub open spec fn beacon_map_of_json(fs: Seq<(Seq<char>, JsonV)>) -> Option<
    Seq<(Seq<char>, BeaconV)>,
>
    decreases fs.len(),
{
    if fs.len() == 0 {
        Some(Seq::empty())
    } else {
        match beacon_of_json(fs[0].1) {
            None => None,
            Some(c) => opt_prepend(seq![(fs[0].0, c)], beacon_map_of_json(fs.drop_first())),
        }
    }
}

pub open spec fn color_map_of_json(fs: Seq<(Seq<char>, JsonV)>) -> Option<
    Seq<(Seq<char>, ColorV)>,
>
    decreases fs.len(),
{
    if fs.len() == 0 {
        Some(Seq::empty())
    } else {
        match color_of_json(fs[0].1) {
            None => None,
            Some(c) => opt_prepend(seq![(fs[0].0, c)], color_map_of_json(fs.drop_first())),
        }
    }
}

pub open spec fn icon_map_of_json(fs: Seq<(Seq<char>, JsonV)>) -> Option<Seq<(Seq<char>, IconV)>>
    decreases fs.len(),
{
    if fs.len() == 0 {
        Some(Seq::empty())
    } else {
        match icon_of_json(fs[0].1) {
            None => None,
            Some(c) => opt_prepend(seq![(fs[0].0, c)], icon_map_of_json(fs.drop_first())),
        }
    }
}

/// The JSON shape of a whole dataset: the six category objects, then the
/// version and the timestamp.
pub open spec fn json_of_dataset(d: ArkDataV) -> JsonV {
    JsonV::Obj(
        seq![
            ("creatures"@, JsonV::Obj(json_of_creature_map(d.creatures))),
            ("items"@, JsonV::Obj(json_of_item_map(d.items))),
            ("engrams"@, JsonV::Obj(json_of_engram_map(d.engrams))),
            ("beacons"@, JsonV::Obj(json_of_beacon_map(d.beacons))),
            ("colors"@, JsonV::Obj(json_of_color_map(d.colors))),
            ("icons"@, JsonV::Obj(json_of_icon_map(d.icons))),
            ("version"@, JsonV::Str(d.version)),
            ("last_updated"@, JsonV::Int(d.last_updated)),
        ],
    )
}

/// The dataset a JSON value describes, if it has exactly the expected
/// shape.
pub open spec fn dataset_of_json(j: JsonV) -> Option<ArkDataV> {
    match j {
        JsonV::Obj(fs) => {
            if fs.len() == 8 && fs[0].0 == "creatures"@ && fs[0].1 is Obj && fs[1].0 == "items"@
                && fs[1].1 is Obj && fs[2].0 == "engrams"@ && fs[2].1 is Obj && fs[3].0
                == "beacons"@ && fs[3].1 is Obj && fs[4].0 == "colors"@ && fs[4].1 is Obj
                && fs[5].0 == "icons"@ && fs[5].1 is Obj && fs[6].0 == "version"@
                && fs[6].1 is Str && fs[7].0 == "last_updated"@ && fs[7].1 is Int {
                if creature_map_of_json(fs[0].1->Obj_0) is Some && item_map_of_json(
                    fs[1].1->Obj_0,
                ) is Some && engram_map_of_json(fs[2].1->Obj_0) is Some && beacon_map_of_json(
                    fs[3].1->Obj_0,
                ) is Some && color_map_of_json(fs[4].1->Obj_0) is Some && icon_map_of_json(
                    fs[5].1->Obj_0,
                ) is Some {
                    Some(
                        ArkDataV {
                            creatures: creature_map_of_json(fs[0].1->Obj_0)->0,
                            items: item_map_of_json(fs[1].1->Obj_0)->0,
                            engrams: engram_map_of_json(fs[2].1->Obj_0)->0,
                            beacons: beacon_map_of_json(fs[3].1->Obj_0)->0,
                            colors: color_map_of_json(fs[4].1->Obj_0)->0,
                            icons: icon_map_of_json(fs[5].1->Obj_0)->0,
                            version: fs[6].1->Str_0,
                            last_updated: fs[7].1->Int_0,
                        },
                    )
                } else {
                    None
                }
            } else {
                None
            }
        },
        _ => None,
    }
}

proof fn lemma_creature_round(c: CreatureV)
    ensures
        creature_of_json(json_of_creature(c)) == Some(c),
{
    let fs = json_of_creature(c)->Obj_0;
    assert(creature_of_json(json_of_creature(c))->0 =~= c);
}

proof fn lemma_item_round(c: ItemV)
    ensures
        item_of_json(json_of_item(c)) == Some(c),
{
    assert(item_of_json(json_of_item(c))->0 =~= c);
}

proof fn lemma_engram_round(c: EngramV)
    ensures
        engram_of_json(json_of_engram(c)) == Some(c),
{
    assert(engram_of_json(json_of_engram(c))->0 =~= c);
}

proof fn lemma_beacon_round(c: BeaconV)
    ensures
        beacon_of_json(json_of_beacon(c)) == Some(c),
{
    assert(beacon_of_json(json_of_beacon(c))->0 =~= c);
}

proof fn lemma_color_round(c: ColorV)
    ensures
        color_of_json(json_of_color(c)) == Some(c),
{
    assert(color_of_json(json_of_color(c))->0 =~= c);
}

proof fn lemma_icon_round(c: IconV)
    ensures
        icon_of_json(json_of_icon(c)) == Some(c),
{
    assert(icon_of_json(json_of_icon(c))->0 =~= c);
}

proof fn lemma_creature_map_round(m: Seq<(Seq<char>, CreatureV)>)
    ensures
        creature_map_of_json(json_of_creature_map(m)) == Some(m),
    decreases m.len(),
{
    let f = json_of_creature_map(m);
    if m.len() == 0 {
        assert(f =~= Seq::<(Seq<char>, JsonV)>::empty());
        assert(creature_map_of_json(f) == Some(Seq::<(Seq<char>, CreatureV)>::empty()));
        assert(Seq::<(Seq<char>, CreatureV)>::empty() =~= m);
    } else {
        assert(f[0] == (m[0].0, json_of_creature(m[0].1)));
        lemma_creature_round(m[0].1);
        assert(f.drop_first() =~= json_of_creature_map(m.drop_first()));
        lemma_creature_map_round(m.drop_first());
        assert(seq![(m[0].0, m[0].1)] + m.drop_first() =~= m);
    }
}

proof fn lemma_item_map_round(m: Seq<(Seq<char>, ItemV)>)
    ensures
        item_map_of_json(json_of_item_map(m)) == Some(m),
    decreases m.len(),
{
    let f = json_of_item_map(m);
    if m.len() == 0 {
        assert(f =~= Seq::<(Seq<char>, JsonV)>::empty());
        assert(Seq::<(Seq<char>, ItemV)>::empty() =~= m);
    } else {
        assert(f[0] == (m[0].0, json_of_item(m[0].1)));
        lemma_item_round(m[0].1);
        assert(f.drop_first() =~= json_of_item_map(m.drop_first()));
        lemma_item_map_round(m.drop_first());
        assert(seq![(m[0].0, m[0].1)] + m.drop_first() =~= m);
    }
}

proof fn lemma_engram_map_round(m: Seq<(Seq<char>, EngramV)>)
    ensures
        engram_map_of_json(json_of_engram_map(m)) == Some(m),
    decreases m.len(),
{
    let f = json_of_engram_map(m);
    if m.len() == 0 {
        assert(f =~= Seq::<(Seq<char>, JsonV)>::empty());
        assert(Seq::<(Seq<char>, EngramV)>::empty() =~= m);
    } else {
        assert(f[0] == (m[0].0, json_of_engram(m[0].1)));
        lemma_engram_round(m[0].1);
        assert(f.drop_first() =~= json_of_engram_map(m.drop_first()));
        lemma_engram_map_round(m.drop_first());
        assert(seq![(m[0].0, m[0].1)] + m.drop_first() =~= m);
    }
}

proof fn lemma_beacon_map_round(m: Seq<(Seq<char>, BeaconV)>)
    ensures
        beacon_map_of_json(json_of_beacon_map(m)) == Some(m),
    decreases m.len(),
{
    let f = json_of_beacon_map(m);
    if m.len() == 0 {
        assert(f =~= Seq::<(Seq<char>, JsonV)>::empty());
        assert(Seq::<(Seq<char>, BeaconV)>::empty() =~= m);
    } else {
        assert(f[0] == (m[0].0, json_of_beacon(m[0].1)));
        lemma_beacon_round(m[0].1);
        assert(f.drop_first() =~= json_of_beacon_map(m.drop_first()));
        lemma_beacon_map_round(m.drop_first());
        assert(seq![(m[0].0, m[0].1)] + m.drop_first() =~= m);
    }
}

proof fn lemma_color_map_round(m: Seq<(Seq<char>, ColorV)>)
    ensures
        color_map_of_json(json_of_color_map(m)) == Some(m),
    decreases m.len(),
{
    let f = json_of_color_map(m);
    if m.len() == 0 {
        assert(f =~= Seq::<(Seq<char>, JsonV)>::empty());
        assert(Seq::<(Seq<char>, ColorV)>::empty() =~= m);
    } else {
        assert(f[0] == (m[0].0, json_of_color(m[0].1)));
        lemma_color_round(m[0].1);
        assert(f.drop_first() =~= json_of_color_map(m.drop_first()));
        lemma_color_map_round(m.drop_first());
        assert(seq![(m[0].0, m[0].1)] + m.drop_first() =~= m);
    }
}

proof fn lemma_icon_map_round(m: Seq<(Seq<char>, IconV)>)
    ensures
        icon_map_of_json(json_of_icon_map(m)) == Some(m),
    decreases m.len(),
{
    let f = json_of_icon_map(m);
    if m.len() == 0 {
        assert(f =~= Seq::<(Seq<char>, JsonV)>::empty());
        assert(Seq::<(Seq<char>, IconV)>::empty() =~= m);
    } else {
        assert(f[0] == (m[0].0, json_of_icon(m[0].1)));
        lemma_icon_round(m[0].1);
        assert(f.drop_first() =~= json_of_icon_map(m.drop_first()));
        lemma_icon_map_round(m.drop_first());
        assert(seq![(m[0].0, m[0].1)] + m.drop_first() =~= m);
    }
}

/// Round-trip law: the persisted form of any dataset parses back to an
/// equal dataset, all six maps, version and timestamp included.
pub proof fn lemma_dataset_round_trip(d: ArkDataV)
    ensures
        dataset_of_json(json_of_dataset(d)) == Some(d),
{
    lemma_creature_map_round(d.creatures);
    lemma_item_map_round(d.items);
    lemma_engram_map_round(d.engrams);
    lemma_beacon_map_round(d.beacons);
    lemma_color_map_round(d.colors);
    lemma_icon_map_round(d.icons);
    assert(dataset_of_json(json_of_dataset(d))->0 =~= d);
}

proof fn lemma_creature_inverse(j: JsonV)
    requires
        creature_of_json(j) is Some,
    ensures
        json_of_creature(creature_of_json(j)->0) == j,
{
    match j {
        JsonV::Obj(fs) => {
            let c = creature_of_json(j)->0;
            assert(fs[0].1 == JsonV::Str(fs[0].1->Str_0));
            assert(fs[1].1 == JsonV::Str(fs[1].1->Str_0));
            assert(fs[2].1 == JsonV::Str(fs[2].1->Str_0));
            assert(fs[3].1 == JsonV::Str(fs[3].1->Str_0));
            assert(fs[4].1 == JsonV::Str(fs[4].1->Str_0));
            assert(json_of_creature(c)->Obj_0 =~= fs);
        },
        _ => {
            assert(false);
        },
    }
}

proof fn lemma_item_inverse(j: JsonV)
    requires
        item_of_json(j) is Some,
    ensures
        json_of_item(item_of_json(j)->0) == j,
{
    match j {
        JsonV::Obj(fs) => {
            let c = item_of_json(j)->0;
            assert(fs[0].1 == JsonV::Str(fs[0].1->Str_0));
            assert(fs[1].1 == JsonV::Str(fs[1].1->Str_0));
            assert(fs[2].1 == JsonV::Str(fs[2].1->Str_0));
            assert(fs[3].1 == JsonV::Str(fs[3].1->Str_0));
            assert(fs[4].1 == JsonV::Str(fs[4].1->Str_0));
            assert(json_of_item(c)->Obj_0 =~= fs);
        },
        _ => {
            assert(false);
        },
    }
}

proof fn lemma_engram_inverse(j: JsonV)
    requires
        engram_of_json(j) is Some,
    ensures
        json_of_engram(engram_of_json(j)->0) == j,
{
    match j {
        JsonV::Obj(fs) => {
            let c = engram_of_json(j)->0;
            assert(fs[0].1 == JsonV::Str(fs[0].1->Str_0));
            assert(fs[1].1 == JsonV::Str(fs[1].1->Str_0));
            assert(fs[2].1 == JsonV::Str(fs[2].1->Str_0));
            assert(fs[3].1 == JsonV::Str(fs[3].1->Str_0));
            assert(fs[4].1 == JsonV::Str(fs[4].1->Str_0));
            assert(json_of_engram(c)->Obj_0 =~= fs);
        },
        _ => {
            assert(false);
        },
    }
}

proof fn lemma_beacon_inverse(j: JsonV)
    requires
        beacon_of_json(j) is Some,
    ensures
        json_of_beacon(beacon_of_json(j)->0) == j,
{
    match j {
        JsonV::Obj(fs) => {
            let c = beacon_of_json(j)->0;
            assert(fs[0].1 == JsonV::Str(fs[0].1->Str_0));
            assert(fs[1].1 == JsonV::Str(fs[1].1->Str_0));
            assert(fs[2].1 == JsonV::Str(fs[2].1->Str_0));
            assert(fs[3].1 == JsonV::Str(fs[3].1->Str_0));
            assert(json_of_beacon(c)->Obj_0 =~= fs);
        },
        _ => {
            assert(false);
        },
    }
}

proof fn lemma_color_inverse(j: JsonV)
    requires
        color_of_json(j) is Some,
    ensures
        json_of_color(color_of_json(j)->0) == j,
{
    match j {
        JsonV::Obj(fs) => {
            let c = color_of_json(j)->0;
            assert(fs[0].1 == JsonV::Str(fs[0].1->Str_0));
            assert(fs[1].1 == JsonV::Str(fs[1].1->Str_0));
            assert(fs[2].1 == JsonV::Int(fs[2].1->Int_0));
            assert(fs[3].1 == JsonV::Str(fs[3].1->Str_0));
            assert(c.color_id as int == fs[2].1->Int_0);
            assert(json_of_color(c)->Obj_0 =~= fs);
        },
        _ => {
            assert(false);
        },
    }
}

proof fn lemma_icon_inverse(j: JsonV)
    requires
        icon_of_json(j) is Some,
    ensures
        json_of_icon(icon_of_json(j)->0) == j,
{
    match j {
        JsonV::Obj(fs) => {
            let c = icon_of_json(j)->0;
            assert(fs[0].1 == JsonV::Str(fs[0].1->Str_0));
            assert(fs[1].1 == JsonV::Str(fs[1].1->Str_0));
            assert(fs[2].1 == JsonV::Str(fs[2].1->Str_0));
            assert(json_of_icon(c)->Obj_0 =~= fs);
        },
        _ => {
            assert(false);
        },
    }
}

proof fn lemma_creature_map_inverse(fs: Seq<(Seq<char>, JsonV)>)
    requires
        creature_map_of_json(fs) is Some,
    ensures
        json_of_creature_map(creature_map_of_json(fs)->0) == fs,
    decreases fs.len(),
{
    let m = creature_map_of_json(fs)->0;
    if fs.len() == 0 {
        assert(json_of_creature_map(m) =~= fs);
    } else {
        let c = creature_of_json(fs[0].1)->0;
        let t = creature_map_of_json(fs.drop_first())->0;
        assert(m == seq![(fs[0].0, c)] + t);
        lemma_creature_inverse(fs[0].1);
        lemma_creature_map_inverse(fs.drop_first());
        assert forall|k: int| 0 <= k < m.len() implies json_of_creature_map(m)[k] == fs[k] by {
            if k == 0 {
                assert(m[0] == (fs[0].0, c));
            } else {
                assert(m[k] == t[k - 1]);
                assert(json_of_creature_map(t)[k - 1] == fs.drop_first()[k - 1]);
            }
        }
        assert(json_of_creature_map(m) =~= fs);
    }
}

proof fn lemma_item_map_inverse(fs: Seq<(Seq<char>, JsonV)>)
    requires
        item_map_of_json(fs) is Some,
    ensures
        json_of_item_map(item_map_of_json(fs)->0) == fs,
    decreases fs.len(),
{
    let m = item_map_of_json(fs)->0;
    if fs.len() == 0 {
        assert(json_of_item_map(m) =~= fs);
    } else {
        let c = item_of_json(fs[0].1)->0;
        let t = item_map_of_json(fs.drop_first())->0;
        assert(m == seq![(fs[0].0, c)] + t);
        lemma_item_inverse(fs[0].1);
        lemma_item_map_inverse(fs.drop_first());
        assert forall|k: int| 0 <= k < m.len() implies json_of_item_map(m)[k] == fs[k] by {
            if k == 0 {
                assert(m[0] == (fs[0].0, c));
            } else {
                assert(m[k] == t[k - 1]);
                assert(json_of_item_map(t)[k - 1] == fs.drop_first()[k - 1]);
            }
        }
        assert(json_of_item_map(m) =~= fs);
    }
}

proof fn lemma_engram_map_inverse(fs: Seq<(Seq<char>, JsonV)>)
    requires
        engram_map_of_json(fs) is Some,
    ensures
        json_of_engram_map(engram_map_of_json(fs)->0) == fs,
    decreases fs.len(),
{
    let m = engram_map_of_json(fs)->0;
    if fs.len() == 0 {
        assert(json_of_engram_map(m) =~= fs);
    } else {
        let c = engram_of_json(fs[0].1)->0;
        let t = engram_map_of_json(fs.drop_first())->0;
        assert(m == seq![(fs[0].0, c)] + t);
        lemma_engram_inverse(fs[0].1);
        lemma_engram_map_inverse(fs.drop_first());
        assert forall|k: int| 0 <= k < m.len() implies json_of_engram_map(m)[k] == fs[k] by {
            if k == 0 {
                assert(m[0] == (fs[0].0, c));
            } else {
                assert(m[k] == t[k - 1]);
                assert(json_of_engram_map(t)[k - 1] == fs.drop_first()[k - 1]);
            }
        }
        assert(json_of_engram_map(m) =~= fs);
    }
}

proof fn lemma_beacon_map_inverse(fs: Seq<(Seq<char>, JsonV)>)
    requires
        beacon_map_of_json(fs) is Some,
    ensures
        json_of_beacon_map(beacon_map_of_json(fs)->0) == fs,
    decreases fs.len(),
{
    let m = beacon_map_of_json(fs)->0;
    if fs.len() == 0 {
        assert(json_of_beacon_map(m) =~= fs);
    } else {
        let c = beacon_of_json(fs[0].1)->0;
        let t = beacon_map_of_json(fs.drop_first())->0;
        assert(m == seq![(fs[0].0, c)] + t);
        lemma_beacon_inverse(fs[0].1);
        lemma_beacon_map_inverse(fs.drop_first());
        assert forall|k: int| 0 <= k < m.len() implies json_of_beacon_map(m)[k] == fs[k] by {
            if k == 0 {
                assert(m[0] == (fs[0].0, c));
            } else {
                assert(m[k] == t[k - 1]);
                assert(json_of_beacon_map(t)[k - 1] == fs.drop_first()[k - 1]);
            }
        }
        assert(json_of_beacon_map(m) =~= fs);
    }
}

proof fn lemma_color_map_inverse(fs: Seq<(Seq<char>, JsonV)>)
    requires
        color_map_of_json(fs) is Some,
    ensures
        json_of_color_map(color_map_of_json(fs)->0) == fs,
    decreases fs.len(),
{
    let m = color_map_of_json(fs)->0;
    if fs.len() == 0 {
        assert(json_of_color_map(m) =~= fs);
    } else {
        let c = color_of_json(fs[0].1)->0;
        let t = color_map_of_json(fs.drop_first())->0;
        assert(m == seq![(fs[0].0, c)] + t);
        lemma_color_inverse(fs[0].1);
        lemma_color_map_inverse(fs.drop_first());
        assert forall|k: int| 0 <= k < m.len() implies json_of_color_map(m)[k] == fs[k] by {
            if k == 0 {
                assert(m[0] == (fs[0].0, c));
            } else {
                assert(m[k] == t[k - 1]);
                assert(json_of_color_map(t)[k - 1] == fs.drop_first()[k - 1]);
            }
        }
        assert(json_of_color_map(m) =~= fs);
    }
}

proof fn lemma_icon_map_inverse(fs: Seq<(Seq<char>, JsonV)>)
    requires
        icon_map_of_json(fs) is Some,
    ensures
        json_of_icon_map(icon_map_of_json(fs)->0) == fs,
    decreases fs.len(),
{
    let m = icon_map_of_json(fs)->0;
    if fs.len() == 0 {
        assert(json_of_icon_map(m) =~= fs);
    } else {
        let c = icon_of_json(fs[0].1)->0;
        let t = icon_map_of_json(fs.drop_first())->0;
        assert(m == seq![(fs[0].0, c)] + t);
        lemma_icon_inverse(fs[0].1);
        lemma_icon_map_inverse(fs.drop_first());
        assert forall|k: int| 0 <= k < m.len() implies json_of_icon_map(m)[k] == fs[k] by {
            if k == 0 {
                assert(m[0] == (fs[0].0, c));
            } else {
                assert(m[k] == t[k - 1]);
                assert(json_of_icon_map(t)[k - 1] == fs.drop_first()[k - 1]);
            }
        }
        assert(json_of_icon_map(m) =~= fs);
    }
}

/// The persisted shape is injectively readable: whatever JSON value the
/// strict reader accepts is exactly the one its dataset writes back.
pub proof fn lemma_dataset_json_inverse(j: JsonV)
    requires
        dataset_of_json(j) is Some,
    ensures
        json_of_dataset(dataset_of_json(j)->0) == j,
{
    match j {
        JsonV::Obj(fs) => {
            let d = dataset_of_json(j)->0;
            assert(fs[0].1 == JsonV::Obj(fs[0].1->Obj_0));
            assert(fs[1].1 == JsonV::Obj(fs[1].1->Obj_0));
            assert(fs[2].1 == JsonV::Obj(fs[2].1->Obj_0));
            assert(fs[3].1 == JsonV::Obj(fs[3].1->Obj_0));
            assert(fs[4].1 == JsonV::Obj(fs[4].1->Obj_0));
            assert(fs[5].1 == JsonV::Obj(fs[5].1->Obj_0));
            assert(fs[6].1 == JsonV::Str(fs[6].1->Str_0));
            assert(fs[7].1 == JsonV::Int(fs[7].1->Int_0));
            lemma_creature_map_inverse(fs[0].1->Obj_0);
            lemma_item_map_inverse(fs[1].1->Obj_0);
            lemma_engram_map_inverse(fs[2].1->Obj_0);
            lemma_beacon_map_inverse(fs[3].1->Obj_0);
            lemma_color_map_inverse(fs[4].1->Obj_0);
            lemma_icon_map_inverse(fs[5].1->Obj_0);
            assert(json_of_dataset(d)->Obj_0 =~= fs);
        },
        _ => {
            assert(false);
        },
    }
}

/// Everything the fields of an object need for the object to be
/// well-formed.
proof fn lemma_wf_fields_from_all(fs: Seq<(Seq<char>, JsonV)>)
    requires
        forall|i: int| 0 <= i < fs.len() ==> wf_json(#[trigger] fs[i].1),
    ensures
        wf_fields(fs),
    decreases fs.len(),
{
    if fs.len() > 0 {
        assert(wf_json(fs[0].1));
        assert(forall|i: int|
            0 <= i < fs.drop_first().len() ==> #[trigger] fs.drop_first()[i] == fs[i + 1]);
        lemma_wf_fields_from_all(fs.drop_first());
    }
}

/// A record object holds only strings and in-range integers.
proof fn lemma_wf_record(fs: Seq<(Seq<char>, JsonV)>)
    requires
        forall|i: int|
            0 <= i < fs.len() ==> (#[trigger] fs[i].1) is Str || (fs[i].1 is Int && i64::MIN
                <= fs[i].1->Int_0 <= i64::MAX),
    ensures
        wf_fields(fs),
{
    assert forall|i: int| 0 <= i < fs.len() implies wf_json(#[trigger] fs[i].1) by {
        if fs[i].1 is Str {
        }
    }
    lemma_wf_fields_from_all(fs);
}

/// The persisted form of a dataset is well-formed JSON whenever its
/// timestamp fits the machine integer range.
pub proof fn lemma_json_of_dataset_wf(d: ArkDataV)
    requires
        i64::MIN <= d.last_updated <= i64::MAX,
    ensures
        wf_json(json_of_dataset(d)),
{
    lemma_wf_creature_map(d.creatures);
    lemma_wf_item_map(d.items);
    lemma_wf_engram_map(d.engrams);
    lemma_wf_beacon_map(d.beacons);
    lemma_wf_color_map(d.colors);
    lemma_wf_icon_map(d.icons);
    let fs = json_of_dataset(d)->Obj_0;
    lemma_wf_fields_from_all(fs);
}

proof fn lemma_wf_creature_map(m: Seq<(Seq<char>, CreatureV)>)
    ensures
        wf_fields(json_of_creature_map(m)),
{
    let f = json_of_creature_map(m);
    assert forall|i: int| 0 <= i < f.len() implies wf_json(#[trigger] f[i].1) by {
        assert(f[i].1 == json_of_creature(m[i].1));
        lemma_wf_record(json_of_creature(m[i].1)->Obj_0);
    }
    lemma_wf_fields_from_all(f);
}

proof fn lemma_wf_item_map(m: Seq<(Seq<char>, ItemV)>)
    ensures
        wf_fields(json_of_item_map(m)),
{
    let f = json_of_item_map(m);
    assert forall|i: int| 0 <= i < f.len() implies wf_json(#[trigger] f[i].1) by {
        assert(f[i].1 == json_of_item(m[i].1));
        lemma_wf_record(json_of_item(m[i].1)->Obj_0);
    }
    lemma_wf_fields_from_all(f);
}

proof fn lemma_wf_engram_map(m: Seq<(Seq<char>, EngramV)>)
    ensures
        wf_fields(json_of_engram_map(m)),
{
    let f = json_of_engram_map(m);
    assert forall|i: int| 0 <= i < f.len() implies wf_json(#[trigger] f[i].1) by {
        assert(f[i].1 == json_of_engram(m[i].1));
        lemma_wf_record(json_of_engram(m[i].1)->Obj_0);
    }
    lemma_wf_fields_from_all(f);
}

proof fn lemma_wf_beacon_map(m: Seq<(Seq<char>, BeaconV)>)
    ensures
        wf_fields(json_of_beacon_map(m)),
{
    let f = json_of_beacon_map(m);
    assert forall|i: int| 0 <= i < f.len() implies wf_json(#[trigger] f[i].1) by {
        assert(f[i].1 == json_of_beacon(m[i].1));
        lemma_wf_record(json_of_beacon(m[i].1)->Obj_0);
    }
    lemma_wf_fields_from_all(f);
}

proof fn lemma_wf_color_map(m: Seq<(Seq<char>, ColorV)>)
    ensures
        wf_fields(json_of_color_map(m)),
{
    let f = json_of_color_map(m);
    assert forall|i: int| 0 <= i < f.len() implies wf_json(#[trigger] f[i].1) by {
        assert(f[i].1 == json_of_color(m[i].1));
        lemma_wf_record(json_of_color(m[i].1)->Obj_0);
    }
    lemma_wf_fields_from_all(f);
}

proof fn lemma_wf_icon_map(m: Seq<(Seq<char>, IconV)>)
    ensures
        wf_fields(json_of_icon_map(m)),
{
    let f = json_of_icon_map(m);
    assert forall|i: int| 0 <= i < f.len() implies wf_json(#[trigger] f[i].1) by {
        assert(f[i].1 == json_of_icon(m[i].1));
        lemma_wf_record(json_of_icon(m[i].1)->Obj_0);
    }
    lemma_wf_fields_from_all(f);
}

/// Appends one field to an object under construction.
fn push_field(fields: &mut Vec<(String, Json)>, k: String, v: Json)
    ensures
        fields_view(final(fields)@) == fields_view(old(fields)@).push((k@, json_view(v))),
{
    proof {
        crate::json::lemma_fields_view_push(fields@, k, v);
    }
    fields.push((k, v));
}

/// Writes one creature record as a JSON object.
fn creature_to_json(c: &Creature) -> (j: Json)
    ensures
        json_view(j) == json_of_creature(c@),
{
    let mut fs: Vec<(String, Json)> = Vec::new();
    push_field(&mut fs, "kind".to_owned(), Json::Str(c.kind.clone()));
    push_field(&mut fs, "name".to_owned(), Json::Str(c.name.clone()));
    push_field(&mut fs, "mod_name".to_owned(), Json::Str(c.mod_name.clone()));
    push_field(&mut fs, "entity_id".to_owned(), Json::Str(c.entity_id.clone()));
    push_field(&mut fs, "blueprint".to_owned(), Json::Str(c.blueprint.clone()));
    proof {
        assert(fields_view(fs@) =~= json_of_creature(c@)->Obj_0);
    }
    Json::Obj(fs)
}

/// Writes one item record as a JSON object.
fn item_to_json(c: &Item) -> (j: Json)
    ensures
        json_view(j) == json_of_item(c@),
{
    let mut fs: Vec<(String, Json)> = Vec::new();
    push_field(&mut fs, "kind".to_owned(), Json::Str(c.kind.clone()));
    push_field(&mut fs, "name".to_owned(), Json::Str(c.name.clone()));
    push_field(&mut fs, "mod_name".to_owned(), Json::Str(c.mod_name.clone()));
    push_field(&mut fs, "class_name".to_owned(), Json::Str(c.class_name.clone()));
    push_field(&mut fs, "blueprint".to_owned(), Json::Str(c.blueprint.clone()));
    proof {
        assert(fields_view(fs@) =~= json_of_item(c@)->Obj_0);
    }
    Json::Obj(fs)
}

/// Writes one engram record as a JSON object.
fn engram_to_json(c: &Engram) -> (j: Json)
    ensures
        json_view(j) == json_of_engram(c@),
{
    let mut fs: Vec<(String, Json)> = Vec::new();
    push_field(&mut fs, "kind".to_owned(), Json::Str(c.kind.clone()));
    push_field(&mut fs, "name".to_owned(), Json::Str(c.name.clone()));
    push_field(&mut fs, "mod_name".to_owned(), Json::Str(c.mod_name.clone()));
    push_field(&mut fs, "blueprint".to_owned(), Json::Str(c.blueprint.clone()));
    push_field(&mut fs, "class_name".to_owned(), Json::Str(c.class_name.clone()));
    proof {
        assert(fields_view(fs@) =~= json_of_engram(c@)->Obj_0);
    }
    Json::Obj(fs)
}

/// Writes one beacon record as a JSON object.
fn beacon_to_json(c: &Beacon) -> (j: Json)
    ensures
        json_view(j) == json_of_beacon(c@),
{
    let mut fs: Vec<(String, Json)> = Vec::new();
    push_field(&mut fs, "kind".to_owned(), Json::Str(c.kind.clone()));
    push_field(&mut fs, "name".to_owned(), Json::Str(c.name.clone()));
    push_field(&mut fs, "mod_name".to_owned(), Json::Str(c.mod_name.clone()));
    push_field(&mut fs, "class_name".to_owned(), Json::Str(c.class_name.clone()));
    proof {
        assert(fields_view(fs@) =~= json_of_beacon(c@)->Obj_0);
    }
    Json::Obj(fs)
}

/// Writes one color record as a JSON object.
fn color_to_json(c: &Color) -> (j: Json)
    ensures
        json_view(j) == json_of_color(c@),
{
    let mut fs: Vec<(String, Json)> = Vec::new();
    push_field(&mut fs, "kind".to_owned(), Json::Str(c.kind.clone()));
    push_field(&mut fs, "name".to_owned(), Json::Str(c.name.clone()));
    push_field(&mut fs, "color_id".to_owned(), Json::Int(c.color_id as i64));
    push_field(&mut fs, "hex_code".to_owned(), Json::Str(c.hex_code.clone()));
    proof {
        assert(fields_view(fs@) =~= json_of_color(c@)->Obj_0);
    }
    Json::Obj(fs)
}

/// Writes one icon record as a JSON object.
fn icon_to_json(c: &Icon) -> (j: Json)
    ensures
        json_view(j) == json_of_icon(c@),
{
    let mut fs: Vec<(String, Json)> = Vec::new();
    push_field(&mut fs, "kind".to_owned(), Json::Str(c.kind.clone()));
    push_field(&mut fs, "name".to_owned(), Json::Str(c.name.clone()));
    push_field(&mut fs, "path".to_owned(), Json::Str(c.path.clone()));
    proof {
        assert(fields_view(fs@) =~= json_of_icon(c@)->Obj_0);
    }
    Json::Obj(fs)
}

/// Writes the creature map as a JSON object.
fn creature_map_to_json(m: &CategoryMap<Creature>) -> (j: Json)
    ensures
        json_view(j) == JsonV::Obj(json_of_creature_map(m@)),
{
    let mut fs: Vec<(String, Json)> = Vec::new();
    let mut i: usize = 0;
    proof {
        assert(fields_view(fs@) =~= json_of_creature_map(m@.subrange(0, 0)));
    }
    while i < m.len()
        invariant
            i <= m@.len(),
            fields_view(fs@) == json_of_creature_map(m@.subrange(0, i as int)),
        decreases m@.len() - i,
    {
        let entry = m.entry_at(i);
        let rec = creature_to_json(&entry.1);
        push_field(&mut fs, entry.0.clone(), rec);
        proof {
            assert(fields_view(fs@) =~= json_of_creature_map(m@.subrange(0, i + 1)));
        }
        i += 1;
    }
    proof {
        assert(m@.subrange(0, m@.len() as int) =~= m@);
    }
    Json::Obj(fs)
}

/// Writes the item map as a JSON object.
fn item_map_to_json(m: &CategoryMap<Item>) -> (j: Json)
    ensures
        json_view(j) == JsonV::Obj(json_of_item_map(m@)),
{
    let mut fs: Vec<(String, Json)> = Vec::new();
    let mut i: usize = 0;
    proof {
        assert(fields_view(fs@) =~= json_of_item_map(m@.subrange(0, 0)));
    }
    while i < m.len()
        invariant
            i <= m@.len(),
            fields_view(fs@) == json_of_item_map(m@.subrange(0, i as int)),
        decreases m@.len() - i,
    {
        let entry = m.entry_at(i);
        let rec = item_to_json(&entry.1);
        push_field(&mut fs, entry.0.clone(), rec);
        proof {
            assert(fields_view(fs@) =~= json_of_item_map(m@.subrange(0, i + 1)));
        }
        i += 1;
    }
    proof {
        assert(m@.subrange(0, m@.len() as int) =~= m@);
    }
    Json::Obj(fs)
}

/// Writes the engram map as a JSON object.
fn engram_map_to_json(m: &CategoryMap<Engram>) -> (j: Json)
    ensures
        json_view(j) == JsonV::Obj(json_of_engram_map(m@)),
{
    let mut fs: Vec<(String, Json)> = Vec::new();
    let mut i: usize = 0;
    proof {
        assert(fields_view(fs@) =~= json_of_engram_map(m@.subrange(0, 0)));
    }
    while i < m.len()
        invariant
            i <= m@.len(),
            fields_view(fs@) == json_of_engram_map(m@.subrange(0, i as int)),
        decreases m@.len() - i,
    {
        let entry = m.entry_at(i);
        let rec = engram_to_json(&entry.1);
        push_field(&mut fs, entry.0.clone(), rec);
        proof {
            assert(fields_view(fs@) =~= json_of_engram_map(m@.subrange(0, i + 1)));
        }
        i += 1;
    }
    proof {
        assert(m@.subrange(0, m@.len() as int) =~= m@);
    }
    Json::Obj(fs)
}

/// Writes the beacon map as a JSON object.
fn beacon_map_to_json(m: &CategoryMap<Beacon>) -> (j: Json)
    ensures
        json_view(j) == JsonV::Obj(json_of_beacon_map(m@)),
{
    let mut fs: Vec<(String, Json)> = Vec::new();
    let mut i: usize = 0;
    proof {
        assert(fields_view(fs@) =~= json_of_beacon_map(m@.subrange(0, 0)));
    }
    while i < m.len()
        invariant
            i <= m@.len(),
            fields_view(fs@) == json_of_beacon_map(m@.subrange(0, i as int)),
        decreases m@.len() - i,
    {
        let entry = m.entry_at(i);
        let rec = beacon_to_json(&entry.1);
        push_field(&mut fs, entry.0.clone(), rec);
        proof {
            assert(fields_view(fs@) =~= json_of_beacon_map(m@.subrange(0, i + 1)));
        }
        i += 1;
    }
    proof {
        assert(m@.subrange(0, m@.len() as int) =~= m@);
    }
    Json::Obj(fs)
}

/// Writes the color map as a JSON object.
fn color_map_to_json(m: &CategoryMap<Color>) -> (j: Json)
    ensures
        json_view(j) == JsonV::Obj(json_of_color_map(m@)),
{
    let mut fs: Vec<(String, Json)> = Vec::new();
    let mut i: usize = 0;
    proof {
        assert(fields_view(fs@) =~= json_of_color_map(m@.subrange(0, 0)));
    }
    while i < m.len()
        invariant
            i <= m@.len(),
            fields_view(fs@) == json_of_color_map(m@.subrange(0, i as int)),
        decreases m@.len() - i,
    {
        let entry = m.entry_at(i);
        let rec = color_to_json(&entry.1);
        push_field(&mut fs, entry.0.clone(), rec);
        proof {
            assert(fields_view(fs@) =~= json_of_color_map(m@.subrange(0, i + 1)));
        }
        i += 1;
    }
    proof {
        assert(m@.subrange(0, m@.len() as int) =~= m@);
    }
    Json::Obj(fs)
}

/// Writes the icon map as a JSON object.
fn icon_map_to_json(m: &CategoryMap<Icon>) -> (j: Json)
    ensures
        json_view(j) == JsonV::Obj(json_of_icon_map(m@)),
{
    let mut fs: Vec<(String, Json)> = Vec::new();
    let mut i: usize = 0;
    proof {
        assert(fields_view(fs@) =~= json_of_icon_map(m@.subrange(0, 0)));
    }
    while i < m.len()
        invariant
            i <= m@.len(),
            fields_view(fs@) == json_of_icon_map(m@.subrange(0, i as int)),
        decreases m@.len() - i,
    {
        let entry = m.entry_at(i);
        let rec = icon_to_json(&entry.1);
        push_field(&mut fs, entry.0.clone(), rec);
        proof {
            assert(fields_view(fs@) =~= json_of_icon_map(m@.subrange(0, i + 1)));
        }
        i += 1;
    }
    proof {
        assert(m@.subrange(0, m@.len() as int) =~= m@);
    }
    Json::Obj(fs)
}

/// Builds the persisted JSON value of a dataset.
fn dataset_to_json_value(d: &ArkData) -> (j: Json)
    ensures
        json_view(j) == json_of_dataset(d@),
{
    let mut fs: Vec<(String, Json)> = Vec::new();
    let creatures = creature_map_to_json(&d.creatures);
    push_field(&mut fs, "creatures".to_owned(), creatures);
    let items = item_map_to_json(&d.items);
    push_field(&mut fs, "items".to_owned(), items);
    let engrams = engram_map_to_json(&d.engrams);
    push_field(&mut fs, "engrams".to_owned(), engrams);
    let beacons = beacon_map_to_json(&d.beacons);
    push_field(&mut fs, "beacons".to_owned(), beacons);
    let colors = color_map_to_json(&d.colors);
    push_field(&mut fs, "colors".to_owned(), colors);
    let icons = icon_map_to_json(&d.icons);
    push_field(&mut fs, "icons".to_owned(), icons);
    push_field(&mut fs, "version".to_owned(), Json::Str(d.version.clone()));
    push_field(&mut fs, "last_updated".to_owned(), Json::Int(d.last_updated));
    proof {
        assert(fields_view(fs@) =~= json_of_dataset(d@)->Obj_0);
    }
    Json::Obj(fs)
}

/// Serializes a dataset to its persisted JSON text.
pub fn dataset_to_json(d: &ArkData) -> (r: String)
    ensures
        r@ == enc_json(json_of_dataset(d@)),
{
    let j = dataset_to_json_value(d);
    json_to_text(&j)
}

/// Reads one creature record back from a JSON value.
fn creature_from_json(j: &Json) -> (r: Option<Creature>)
    ensures
        match r {
            Some(c) => creature_of_json(json_view(*j)) == Some(c@),
            None => creature_of_json(json_view(*j)) is None,
        },
{
    match j {
        Json::Obj(fs) => {
            proof {
                lemma_fields_view_len(fs@);
            }
            if fs.len() != 5 {
                return None;
            }
            proof {
                lemma_fields_view_index(fs@, 0);
                lemma_fields_view_index(fs@, 1);
                lemma_fields_view_index(fs@, 2);
                lemma_fields_view_index(fs@, 3);
                lemma_fields_view_index(fs@, 4);
            }
            if !str_eq(fs[0].0.as_str(), "kind") || !str_eq(fs[1].0.as_str(), "name") || !str_eq(
                fs[2].0.as_str(),
                "mod_name",
            ) || !str_eq(fs[3].0.as_str(), "entity_id") || !str_eq(
                fs[4].0.as_str(),
                "blueprint",
            ) {
                return None;
            }
            let kind = match &fs[0].1 {
                Json::Str(s) => s.clone(),
                _ => {
                    return None;
                },
            };
            let name = match &fs[1].1 {
                Json::Str(s) => s.clone(),
                _ => {
                    return None;
                },
            };
            let mod_name = match &fs[2].1 {
                Json::Str(s) => s.clone(),
                _ => {
                    return None;
                },
            };
            let entity_id = match &fs[3].1 {
                Json::Str(s) => s.clone(),
                _ => {
                    return None;
                },
            };
            let blueprint = match &fs[4].1 {
                Json::Str(s) => s.clone(),
                _ => {
                    return None;
                },
            };
            let c = Creature { kind, name, mod_name, entity_id, blueprint };
            proof {
                assert(creature_of_json(json_view(*j))->0 =~= c@);
            }
            Some(c)
        },
        _ => None,
    }
}

/// Reads one item record back from a JSON value.
fn item_from_json(j: &Json) -> (r: Option<Item>)
    ensures
        match r {
            Some(c) => item_of_json(json_view(*j)) == Some(c@),
            None => item_of_json(json_view(*j)) is None,
        },
{
    match j {
        Json::Obj(fs) => {
            proof {
                lemma_fields_view_len(fs@);
            }
            if fs.len() != 5 {
                return None;
            }
            proof {
                lemma_fields_view_index(fs@, 0);
                lemma_fields_view_index(fs@, 1);
                lemma_fields_view_index(fs@, 2);
                lemma_fields_view_index(fs@, 3);
                lemma_fields_view_index(fs@, 4);
            }
            if !str_eq(fs[0].0.as_str(), "kind") || !str_eq(fs[1].0.as_str(), "name") || !str_eq(
                fs[2].0.as_str(),
                "mod_name",
            ) || !str_eq(fs[3].0.as_str(), "class_name") || !str_eq(
                fs[4].0.as_str(),
                "blueprint",
            ) {
                return None;
            }
            let kind = match &fs[0].1 {
                Json::Str(s) => s.clone(),
                _ => {
                    return None;
                },
            };
            let name = match &fs[1].1 {
                Json::Str(s) => s.clone(),
                _ => {
                    return None;
                },
            };
            let mod_name = match &fs[2].1 {
                Json::Str(s) => s.clone(),
                _ => {
                    return None;
                },
            };
            let class_name = match &fs[3].1 {
                Json::Str(s) => s.clone(),
                _ => {
                    return None;
                },
            };
            let blueprint = match &fs[4].1 {
                Json::Str(s) => s.clone(),
                _ => {
                    return None;
                },
            };
            let c = Item { kind, name, mod_name, class_name, blueprint };
            proof {
                assert(item_of_json(json_view(*j))->0 =~= c@);
            }
            Some(c)
        },
        _ => None,
    }
}

/// Reads one engram record back from a JSON value.
fn engram_from_json(j: &Json) -> (r: Option<Engram>)
    ensures
        match r {
            Some(c) => engram_of_json(json_view(*j)) == Some(c@),
            None => engram_of_json(json_view(*j)) is None,
        },
{
    match j {
        Json::Obj(fs) => {
            proof {
                lemma_fields_view_len(fs@);
            }
            if fs.len() != 5 {
                return None;
            }
            proof {
                lemma_fields_view_index(fs@, 0);
                lemma_fields_view_index(fs@, 1);
                lemma_fields_view_index(fs@, 2);
                lemma_fields_view_index(fs@, 3);
                lemma_fields_view_index(fs@, 4);
            }
            if !str_eq(fs[0].0.as_str(), "kind") || !str_eq(fs[1].0.as_str(), "name") || !str_eq(
                fs[2].0.as_str(),
                "mod_name",
            ) || !str_eq(fs[3].0.as_str(), "blueprint") || !str_eq(
                fs[4].0.as_str(),
                "class_name",
            ) {
                return None;
            }
            let kind = match &fs[0].1 {
                Json::Str(s) => s.clone(),
                _ => {
                    return None;
                },
            };
            let name = match &fs[1].1 {
                Json::Str(s) => s.clone(),
                _ => {
                    return None;
                },
            };
            let mod_name = match &fs[2].1 {
                Json::Str(s) => s.clone(),
                _ => {
                    return None;
                },
            };
            let blueprint = match &fs[3].1 {
                Json::Str(s) => s.clone(),
                _ => {
                    return None;
                },
            };
            let class_name = match &fs[4].1 {
                Json::Str(s) => s.clone(),
                _ => {
                    return None;
                },
            };
            let c = Engram { kind, name, mod_name, blueprint, class_name };
            proof {
                assert(engram_of_json(json_view(*j))->0 =~= c@);
            }
            Some(c)
        },
        _ => None,
    }
}

/// Reads one beacon record back from a JSON value.
fn beacon_from_json(j: &Json) -> (r: Option<Beacon>)
    ensures
        match r {
            Some(c) => beacon_of_json(json_view(*j)) == Some(c@),
            None => beacon_of_json(json_view(*j)) is None,
        },
{
    match j {
        Json::Obj(fs) => {
            proof {
                lemma_fields_view_len(fs@);
            }
            if fs.len() != 4 {
                return None;
            }
            proof {
                lemma_fields_view_index(fs@, 0);
                lemma_fields_view_index(fs@, 1);
                lemma_fields_view_index(fs@, 2);
                lemma_fields_view_index(fs@, 3);
            }
            if !str_eq(fs[0].0.as_str(), "kind") || !str_eq(fs[1].0.as_str(), "name") || !str_eq(
                fs[2].0.as_str(),
                "mod_name",
            ) || !str_eq(fs[3].0.as_str(), "class_name") {
                return None;
            }
            let kind = match &fs[0].1 {
                Json::Str(s) => s.clone(),
                _ => {
                    return None;
                },
            };
            let name = match &fs[1].1 {
                Json::Str(s) => s.clone(),
                _ => {
                    return None;
                },
            };
            let mod_name = match &fs[2].1 {
                Json::Str(s) => s.clone(),
                _ => {
                    return None;
                },
            };
            let class_name = match &fs[3].1 {
                Json::Str(s) => s.clone(),
                _ => {
                    return None;
                },
            };
            let c = Beacon { kind, name, mod_name, class_name };
            proof {
                assert(beacon_of_json(json_view(*j))->0 =~= c@);
            }
            Some(c)
        },
        _ => None,
    }
}

/// Reads one color record back from a JSON value.
fn color_from_json(j: &Json) -> (r: Option<Color>)
    ensures
        match r {
            Some(c) => color_of_json(json_view(*j)) == Some(c@),
            None => color_of_json(json_view(*j)) is None,
        },
{
    match j {
        Json::Obj(fs) => {
            proof {
                lemma_fields_view_len(fs@);
            }
            if fs.len() != 4 {
                return None;
            }
            proof {
                lemma_fields_view_index(fs@, 0);
                lemma_fields_view_index(fs@, 1);
                lemma_fields_view_index(fs@, 2);
                lemma_fields_view_index(fs@, 3);
            }
            if !str_eq(fs[0].0.as_str(), "kind") || !str_eq(fs[1].0.as_str(), "name") || !str_eq(
                fs[2].0.as_str(),
                "color_id",
            ) || !str_eq(fs[3].0.as_str(), "hex_code") {
                return None;
            }
            let kind = match &fs[0].1 {
                Json::Str(s) => s.clone(),
                _ => {
                    return None;
                },
            };
            let name = match &fs[1].1 {
                Json::Str(s) => s.clone(),
                _ => {
                    return None;
                },
            };
            let id64 = match &fs[2].1 {
                Json::Int(n) => *n,
                _ => {
                    return None;
                },
            };
            if id64 < -2147483648 || id64 > 2147483647 {
                return None;
            }
            let hex_code = match &fs[3].1 {
                Json::Str(s) => s.clone(),
                _ => {
                    return None;
                },
            };
            let c = Color { kind, name, color_id: id64 as i32, hex_code };
            proof {
                assert(color_of_json(json_view(*j))->0 =~= c@);
            }
            Some(c)
        },
        _ => None,
    }
}

/// Reads one icon record back from a JSON value.
fn icon_from_json(j: &Json) -> (r: Option<Icon>)
    ensures
        match r {
            Some(c) => icon_of_json(json_view(*j)) == Some(c@),
            None => icon_of_json(json_view(*j)) is None,
        },
{
    match j {
        Json::Obj(fs) => {
            proof {
                lemma_fields_view_len(fs@);
            }
            if fs.len() != 3 {
                return None;
            }
            proof {
                lemma_fields_view_index(fs@, 0);
                lemma_fields_view_index(fs@, 1);
                lemma_fields_view_index(fs@, 2);
            }
            if !str_eq(fs[0].0.as_str(), "kind") || !str_eq(fs[1].0.as_str(), "name") || !str_eq(
                fs[2].0.as_str(),
                "path",
            ) {
                return None;
            }
            let kind = match &fs[0].1 {
                Json::Str(s) => s.clone(),
                _ => {
                    return None;
                },
            };
            let name = match &fs[1].1 {
                Json::Str(s) => s.clone(),
                _ => {
                    return None;
                },
            };
            let path = match &fs[2].1 {
                Json::Str(s) => s.clone(),
                _ => {
                    return None;
                },
            };
            let c = Icon { kind, name, path };
            proof {
                assert(icon_of_json(json_view(*j))->0 =~= c@);
            }
            Some(c)
        },
        _ => None,
    }
}

/// Reads the creature map back from an object's fields.
fn creature_map_from_json(fs: &Vec<(String, Json)>) -> (r: Option<CategoryMap<Creature>>)
    ensures
        match r {
            Some(m) => creature_map_of_json(fields_view(fs@)) == Some(m@),
            None => creature_map_of_json(fields_view(fs@)) is None,
        },
{
    let ghost fv = fields_view(fs@);
    let mut entries: Vec<(String, Creature)> = Vec::new();
    let mut i: usize = 0;
    proof {
        lemma_fields_view_len(fs@);
        assert(fv.skip(0) =~= fv);
        assert(entries@.map_values(|p: (String, Creature)| (p.0@, p.1@)) =~= Seq::<
            (Seq<char>, CreatureV),
        >::empty());
    }
    while i < fs.len()
        invariant
            i <= fs@.len(),
            fv == fields_view(fs@),
            fv.len() == fs@.len(),
            creature_map_of_json(fv) == opt_prepend(
                entries@.map_values(|p: (String, Creature)| (p.0@, p.1@)),
                creature_map_of_json(fv.skip(i as int)),
            ),
        decreases fs@.len() - i,
    {
        proof {
            lemma_fields_view_index(fs@, i as int);
            assert(fv.skip(i as int)[0] == fv[i as int]);
            assert(fv.skip(i as int).drop_first() =~= fv.skip(i + 1));
        }
        let rec = match creature_from_json(&fs[i].1) {
            Some(c) => c,
            None => {
                return None;
            },
        };
        let ghost pre = entries@.map_values(|p: (String, Creature)| (p.0@, p.1@));
        entries.push((fs[i].0.clone(), rec));
        proof {
            assert(entries@.map_values(|p: (String, Creature)| (p.0@, p.1@)) =~= pre.push(
                (fv[i as int].0, rec@),
            ));
            assert forall|t: Seq<(Seq<char>, CreatureV)>|
                creature_map_of_json(fv.skip(i + 1)) == Some(t) implies (pre + (seq![
                    (fv[i as int].0, rec@),
                ] + t)) =~= (pre.push((fv[i as int].0, rec@)) + t) by {}
        }
        i += 1;
    }
    proof {
        assert(fv.skip(fv.len() as int) =~= Seq::<(Seq<char>, JsonV)>::empty());
        assert(entries@.map_values(|p: (String, Creature)| (p.0@, p.1@)) + Seq::<
            (Seq<char>, CreatureV),
        >::empty() =~= entries@.map_values(|p: (String, Creature)| (p.0@, p.1@)));
    }
    Some(CategoryMap::from_entries(entries))
}

/// Reads the item map back from an object's fields.
fn item_map_from_json(fs: &Vec<(String, Json)>) -> (r: Option<CategoryMap<Item>>)
    ensures
        match r {
            Some(m) => item_map_of_json(fields_view(fs@)) == Some(m@),
            None => item_map_of_json(fields_view(fs@)) is None,
        },
{
    let ghost fv = fields_view(fs@);
    let mut entries: Vec<(String, Item)> = Vec::new();
    let mut i: usize = 0;
    proof {
        lemma_fields_view_len(fs@);
        assert(fv.skip(0) =~= fv);
        assert(entries@.map_values(|p: (String, Item)| (p.0@, p.1@)) =~= Seq::<
            (Seq<char>, ItemV),
        >::empty());
    }
    while i < fs.len()
        invariant
            i <= fs@.len(),
            fv == fields_view(fs@),
            fv.len() == fs@.len(),
            item_map_of_json(fv) == opt_prepend(
                entries@.map_values(|p: (String, Item)| (p.0@, p.1@)),
                item_map_of_json(fv.skip(i as int)),
            ),
        decreases fs@.len() - i,
    {
        proof {
            lemma_fields_view_index(fs@, i as int);
            assert(fv.skip(i as int)[0] == fv[i as int]);
            assert(fv.skip(i as int).drop_first() =~= fv.skip(i + 1));
        }
        let rec = match item_from_json(&fs[i].1) {
            Some(c) => c,
            None => {
                return None;
            },
        };
        let ghost pre = entries@.map_values(|p: (String, Item)| (p.0@, p.1@));
        entries.push((fs[i].0.clone(), rec));
        proof {
            assert(entries@.map_values(|p: (String, Item)| (p.0@, p.1@)) =~= pre.push(
                (fv[i as int].0, rec@),
            ));
            assert forall|t: Seq<(Seq<char>, ItemV)>|
                item_map_of_json(fv.skip(i + 1)) == Some(t) implies (pre + (seq![
                    (fv[i as int].0, rec@),
                ] + t)) =~= (pre.push((fv[i as int].0, rec@)) + t) by {}
        }
        i += 1;
    }
    proof {
        assert(fv.skip(fv.len() as int) =~= Seq::<(Seq<char>, JsonV)>::empty());
        assert(entries@.map_values(|p: (String, Item)| (p.0@, p.1@)) + Seq::<
            (Seq<char>, ItemV),
        >::empty() =~= entries@.map_values(|p: (String, Item)| (p.0@, p.1@)));
    }
    Some(CategoryMap::from_entries(entries))
}

/// Reads the engram map back from an object's fields.
fn engram_map_from_json(fs: &Vec<(String, Json)>) -> (r: Option<CategoryMap<Engram>>)
    ensures
        match r {
            Some(m) => engram_map_of_json(fields_view(fs@)) == Some(m@),
            None => engram_map_of_json(fields_view(fs@)) is None,
        },
{
    let ghost fv = fields_view(fs@);
    let mut entries: Vec<(String, Engram)> = Vec::new();
    let mut i: usize = 0;
    proof {
        lemma_fields_view_len(fs@);
        assert(fv.skip(0) =~= fv);
        assert(entries@.map_values(|p: (String, Engram)| (p.0@, p.1@)) =~= Seq::<
            (Seq<char>, EngramV),
        >::empty());
    }
    while i < fs.len()
        invariant
            i <= fs@.len(),
            fv == fields_view(fs@),
            fv.len() == fs@.len(),
            engram_map_of_json(fv) == opt_prepend(
                entries@.map_values(|p: (String, Engram)| (p.0@, p.1@)),
                engram_map_of_json(fv.skip(i as int)),
            ),
        decreases fs@.len() - i,
    {
        proof {
            lemma_fields_view_index(fs@, i as int);
            assert(fv.skip(i as int)[0] == fv[i as int]);
            assert(fv.skip(i as int).drop_first() =~= fv.skip(i + 1));
        }
        let rec = match engram_from_json(&fs[i].1) {
            Some(c) => c,
            None => {
                return None;
            },
        };
        let ghost pre = entries@.map_values(|p: (String, Engram)| (p.0@, p.1@));
        entries.push((fs[i].0.clone(), rec));
        proof {
            assert(entries@.map_values(|p: (String, Engram)| (p.0@, p.1@)) =~= pre.push(
                (fv[i as int].0, rec@),
            ));
            assert forall|t: Seq<(Seq<char>, EngramV)>|
                engram_map_of_json(fv.skip(i + 1)) == Some(t) implies (pre + (seq![
                    (fv[i as int].0, rec@),
                ] + t)) =~= (pre.push((fv[i as int].0, rec@)) + t) by {}
        }
        i += 1;
    }
    proof {
        assert(fv.skip(fv.len() as int) =~= Seq::<(Seq<char>, JsonV)>::empty());
        assert(entries@.map_values(|p: (String, Engram)| (p.0@, p.1@)) + Seq::<
            (Seq<char>, EngramV),
        >::empty() =~= entries@.map_values(|p: (String, Engram)| (p.0@, p.1@)));
    }
    Some(CategoryMap::from_entries(entries))
}

/// Reads the beacon map back from an object's fields.
fn beacon_map_from_json(fs: &Vec<(String, Json)>) -> (r: Option<CategoryMap<Beacon>>)
    ensures
        match r {
            Some(m) => beacon_map_of_json(fields_view(fs@)) == Some(m@),
            None => beacon_map_of_json(fields_view(fs@)) is None,
        },
{
    let ghost fv = fields_view(fs@);
    let mut entries: Vec<(String, Beacon)> = Vec::new();
    let mut i: usize = 0;
    proof {
        lemma_fields_view_len(fs@);
        assert(fv.skip(0) =~= fv);
        assert(entries@.map_values(|p: (String, Beacon)| (p.0@, p.1@)) =~= Seq::<
            (Seq<char>, BeaconV),
        >::empty());
    }
    while i < fs.len()
        invariant
            i <= fs@.len(),
            fv == fields_view(fs@),
            fv.len() == fs@.len(),
            beacon_map_of_json(fv) == opt_prepend(
                entries@.map_values(|p: (String, Beacon)| (p.0@, p.1@)),
                beacon_map_of_json(fv.skip(i as int)),
            ),
        decreases fs@.len() - i,
    {
        proof {
            lemma_fields_view_index(fs@, i as int);
            assert(fv.skip(i as int)[0] == fv[i as int]);
            assert(fv.skip(i as int).drop_first() =~= fv.skip(i + 1));
        }
        let rec = match beacon_from_json(&fs[i].1) {
            Some(c) => c,
            None => {
                return None;
            },
        };
        let ghost pre = entries@.map_values(|p: (String, Beacon)| (p.0@, p.1@));
        entries.push((fs[i].0.clone(), rec));
        proof {
            assert(entries@.map_values(|p: (String, Beacon)| (p.0@, p.1@)) =~= pre.push(
                (fv[i as int].0, rec@),
            ));
            assert forall|t: Seq<(Seq<char>, BeaconV)>|
                beacon_map_of_json(fv.skip(i + 1)) == Some(t) implies (pre + (seq![
                    (fv[i as int].0, rec@),
                ] + t)) =~= (pre.push((fv[i as int].0, rec@)) + t) by {}
        }
        i += 1;
    }
    proof {
        assert(fv.skip(fv.len() as int) =~= Seq::<(Seq<char>, JsonV)>::empty());
        assert(entries@.map_values(|p: (String, Beacon)| (p.0@, p.1@)) + Seq::<
            (Seq<char>, BeaconV),
        >::empty() =~= entries@.map_values(|p: (String, Beacon)| (p.0@, p.1@)));
    }
    Some(CategoryMap::from_entries(entries))
}

/// Reads the color map back from an object's fields.
fn color_map_from_json(fs: &Vec<(String, Json)>) -> (r: Option<CategoryMap<Color>>)
    ensures
        match r {
            Some(m) => color_map_of_json(fields_view(fs@)) == Some(m@),
            None => color_map_of_json(fields_view(fs@)) is None,
        },
{
    let ghost fv = fields_view(fs@);
    let mut entries: Vec<(String, Color)> = Vec::new();
    let mut i: usize = 0;
    proof {
        lemma_fields_view_len(fs@);
        assert(fv.skip(0) =~= fv);
        assert(entries@.map_values(|p: (String, Color)| (p.0@, p.1@)) =~= Seq::<
            (Seq<char>, ColorV),
        >::empty());
    }
    while i < fs.len()
        invariant
            i <= fs@.len(),
            fv == fields_view(fs@),
            fv.len() == fs@.len(),
            color_map_of_json(fv) == opt_prepend(
                entries@.map_values(|p: (String, Color)| (p.0@, p.1@)),
                color_map_of_json(fv.skip(i as int)),
            ),
        decreases fs@.len() - i,
    {
        proof {
            lemma_fields_view_index(fs@, i as int);
            assert(fv.skip(i as int)[0] == fv[i as int]);
            assert(fv.skip(i as int).drop_first() =~= fv.skip(i + 1));
        }
        let rec = match color_from_json(&fs[i].1) {
            Some(c) => c,
            None => {
                return None;
            },
        };
        let ghost pre = entries@.map_values(|p: (String, Color)| (p.0@, p.1@));
        entries.push((fs[i].0.clone(), rec));
        proof {
            assert(entries@.map_values(|p: (String, Color)| (p.0@, p.1@)) =~= pre.push(
                (fv[i as int].0, rec@),
            ));
            assert forall|t: Seq<(Seq<char>, ColorV)>|
                color_map_of_json(fv.skip(i + 1)) == Some(t) implies (pre + (seq![
                    (fv[i as int].0, rec@),
                ] + t)) =~= (pre.push((fv[i as int].0, rec@)) + t) by {}
        }
        i += 1;
    }
    proof {
        assert(fv.skip(fv.len() as int) =~= Seq::<(Seq<char>, JsonV)>::empty());
        assert(entries@.map_values(|p: (String, Color)| (p.0@, p.1@)) + Seq::<
            (Seq<char>, ColorV),
        >::empty() =~= entries@.map_values(|p: (String, Color)| (p.0@, p.1@)));
    }
    Some(CategoryMap::from_entries(entries))
}

/// Reads the icon map back from an object's fields.
fn icon_map_from_json(fs: &Vec<(String, Json)>) -> (r: Option<CategoryMap<Icon>>)
    ensures
        match r {
            Some(m) => icon_map_of_json(fields_view(fs@)) == Some(m@),
            None => icon_map_of_json(fields_view(fs@)) is None,
        },
{
    let ghost fv = fields_view(fs@);
    let mut entries: Vec<(String, Icon)> = Vec::new();
    let mut i: usize = 0;
    proof {
        lemma_fields_view_len(fs@);
        assert(fv.skip(0) =~= fv);
        assert(entries@.map_values(|p: (String, Icon)| (p.0@, p.1@)) =~= Seq::<
            (Seq<char>, IconV),
        >::empty());
    }
    while i < fs.len()
        invariant
            i <= fs@.len(),
            fv == fields_view(fs@),
            fv.len() == fs@.len(),
            icon_map_of_json(fv) == opt_prepend(
                entries@.map_values(|p: (String, Icon)| (p.0@, p.1@)),
                icon_map_of_json(fv.skip(i as int)),
            ),
        decreases fs@.len() - i,
    {
        proof {
            lemma_fields_view_index(fs@, i as int);
            assert(fv.skip(i as int)[0] == fv[i as int]);
            assert(fv.skip(i as int).drop_first() =~= fv.skip(i + 1));
        }
        let rec = match icon_from_json(&fs[i].1) {
            Some(c) => c,
            None => {
                return None;
            },
        };
        let ghost pre = entries@.map_values(|p: (String, Icon)| (p.0@, p.1@));
        entries.push((fs[i].0.clone(), rec));
        proof {
            assert(entries@.map_values(|p: (String, Icon)| (p.0@, p.1@)) =~= pre.push(
                (fv[i as int].0, rec@),
            ));
            assert forall|t: Seq<(Seq<char>, IconV)>|
                icon_map_of_json(fv.skip(i + 1)) == Some(t) implies (pre + (seq![
                    (fv[i as int].0, rec@),
                ] + t)) =~= (pre.push((fv[i as int].0, rec@)) + t) by {}
        }
        i += 1;
    }
    proof {
        assert(fv.skip(fv.len() as int) =~= Seq::<(Seq<char>, JsonV)>::empty());
        assert(entries@.map_values(|p: (String, Icon)| (p.0@, p.1@)) + Seq::<
            (Seq<char>, IconV),
        >::empty() =~= entries@.map_values(|p: (String, Icon)| (p.0@, p.1@)));
    }
    Some(CategoryMap::from_entries(entries))
}

/// Reads a dataset back from its JSON value.
fn json_to_dataset(j: &Json) -> (r: Option<ArkData>)
    ensures
        match r {
            Some(d) => dataset_of_json(json_view(*j)) == Some(d@),
            None => dataset_of_json(json_view(*j)) is None,
        },
{
    match j {
        Json::Obj(fs) => {
            proof {
                lemma_fields_view_len(fs@);
            }
            if fs.len() != 8 {
                return None;
            }
            proof {
                lemma_fields_view_index(fs@, 0);
                lemma_fields_view_index(fs@, 1);
                lemma_fields_view_index(fs@, 2);
                lemma_fields_view_index(fs@, 3);
                lemma_fields_view_index(fs@, 4);
                lemma_fields_view_index(fs@, 5);
                lemma_fields_view_index(fs@, 6);
                lemma_fields_view_index(fs@, 7);
            }
            if !str_eq(fs[0].0.as_str(), "creatures") || !str_eq(fs[1].0.as_str(), "items")
                || !str_eq(fs[2].0.as_str(), "engrams") || !str_eq(fs[3].0.as_str(), "beacons")
                || !str_eq(fs[4].0.as_str(), "colors") || !str_eq(fs[5].0.as_str(), "icons")
                || !str_eq(fs[6].0.as_str(), "version") || !str_eq(
                fs[7].0.as_str(),
                "last_updated",
            ) {
                return None;
            }
            let creatures = match &fs[0].1 {
                Json::Obj(cf) => match creature_map_from_json(cf) {
                    Some(m) => m,
                    None => {
                        return None;
                    },
                },
                _ => {
                    return None;
                },
            };
            let items = match &fs[1].1 {
                Json::Obj(cf) => match item_map_from_json(cf) {
                    Some(m) => m,
                    None => {
                        return None;
                    },
                },
                _ => {
                    return None;
                },
            };
            let engrams = match &fs[2].1 {
                Json::Obj(cf) => match engram_map_from_json(cf) {
                    Some(m) => m,
                    None => {
                        return None;
                    },
                },
                _ => {
                    return None;
                },
            };
            let beacons = match &fs[3].1 {
                Json::Obj(cf) => match beacon_map_from_json(cf) {
                    Some(m) => m,
                    None => {
                        return None;
                    },
                },
                _ => {
                    return None;
                },
            };
            let colors = match &fs[4].1 {
                Json::Obj(cf) => match color_map_from_json(cf) {
                    Some(m) => m,
                    None => {
                        return None;
                    },
                },
                _ => {
                    return None;
                },
            };
            let icons = match &fs[5].1 {
                Json::Obj(cf) => match icon_map_from_json(cf) {
                    Some(m) => m,
                    None => {
                        return None;
                    },
                },
                _ => {
                    return None;
                },
            };
            let version = match &fs[6].1 {
                Json::Str(s) => s.clone(),
                _ => {
                    return None;
                },
            };
            let last_updated = match &fs[7].1 {
                Json::Int(n) => *n,
                _ => {
                    return None;
                },
            };
            let d = ArkData { creatures, items, engrams, beacons, colors, icons, version, last_updated };
            proof {
                assert(dataset_of_json(json_view(*j))->0 =~= d@);
            }
            Some(d)
        },
        _ => None,
    }
}

/// Parses a dataset from its persisted JSON text. It succeeds exactly on
/// the texts the serializer produces: on any such text the very dataset
/// that was serialized comes back, and any successful parse of a text
/// shows that text to be the serialized form of its result.
pub fn dataset_from_json(s: &str) -> (r: Option<ArkData>)
    ensures
        r matches Some(d) ==> s@ == enc_json(json_of_dataset(d@)),
        forall|dv: ArkDataV|
            (i64::MIN <= dv.last_updated <= i64::MAX && s@ == enc_json(json_of_dataset(dv)))
                ==> r is Some && (r->0)@ == dv,
{
    let parsed = match text_to_json(s) {
        Some(j) => j,
        None => {
            proof {
                assert forall|dv: ArkDataV|
                    !(i64::MIN <= dv.last_updated <= i64::MAX && s@ == enc_json(
                        json_of_dataset(dv),
                    )) by {
                    if i64::MIN <= dv.last_updated <= i64::MAX && s@ == enc_json(
                        json_of_dataset(dv),
                    ) {
                        lemma_json_of_dataset_wf(dv);
                    }
                }
            }
            return None;
        },
    };
    let r = json_to_dataset(&parsed);
    proof {
        if r is Some {
            lemma_dataset_json_inverse(json_view(parsed));
        }
        assert forall|dv: ArkDataV|
            (i64::MIN <= dv.last_updated <= i64::MAX && s@ == enc_json(json_of_dataset(dv)))
            implies r is Some && (r->0)@ == dv by {
            lemma_json_of_dataset_wf(dv);
            assert(json_view(parsed) == json_of_dataset(dv));
            lemma_dataset_round_trip(dv);
        }
    }
    r
}

} // verus!
