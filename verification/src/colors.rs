//! Extraction rules for the color category: list items with a numeric
//! identifier, a display name and a hex code. A record is emitted only
//! when the identifier parses as a non-negative integer.
use crate::category_map::{key_update, CategoryMap};
use crate::common::{clean_name, clean_name_spec};
use crate::num::{dec_int, i64_to_chars, parse_i32, parse_i32_spec};
use crate::text::{chars_of, chars_replace, chars_replace_all, replace_all, replace_char, string_of};
use crate::types::{Color, ColorV};
use vstd::prelude::*;

verus! {

/// One list item of the color page, as the host hands it over: the texts
/// of the identifier, name and hex elements, where present.
pub struct ColorEntry {
    pub id_text: Option<String>,
    pub name_text: Option<String>,
    pub hex_text: Option<String>,
}

#[verifier::ext_equal]
pub ghost struct ColorEntryV {
    pub id_text: Option<Seq<char>>,
    pub name_text: Option<Seq<char>>,
    pub hex_text: Option<Seq<char>>,
}

impl View for ColorEntry {
    type V = ColorEntryV;

    open spec fn view(&self) -> ColorEntryV {
        ColorEntryV {
            id_text: match self.id_text {
                Some(t) => Some(t@),
                None => None,
            },
            name_text: match self.name_text {
                Some(t) => Some(t@),
                None => None,
            },
            hex_text: match self.hex_text {
                Some(t) => Some(t@),
                None => None,
            },
        }
    }
}

/// The identifier an entry carries: a failed or missing parse counts as
/// negative one, which suppresses the record.
pub open spec fn color_id_spec(e: ColorEntryV) -> int {
    match e.id_text {
        Some(t) => match parse_i32_spec(t) {
            Some(v) => v,
            None => -1,
        },
        None => -1,
    }
}

/// The display name of an entry: the cleaned name text, or a placeholder
/// built from the identifier, with the word Coloring stripped.
pub open spec fn color_name_spec(e: ColorEntryV, id: int) -> Seq<char> {
    let raw = match e.name_text {
        Some(t) => clean_name_spec(t),
        None => "Color_"@ + dec_int(id),
    };
    replace_all(raw, " Coloring"@, Seq::empty())
}

/// The record one entry yields, if its identifier is non-negative.
pub open spec fn color_from_entry(e: ColorEntryV) -> Option<(Seq<char>, ColorV)> {
    let id = color_id_spec(e);
    if id < 0 {
        None
    } else {
        let name = color_name_spec(e, id);
        let hex = match e.hex_text {
            Some(h) => h,
            None => Seq::empty(),
        };
        Some(
            (
                replace_char(replace_char(name, ' ', '_'), '-', '_'),
                ColorV { kind: "color"@, name: name, color_id: id as i32, hex_code: hex },
            ),
        )
    }
}

/// The color map after folding the page's entries into `acc`.
pub open spec fn colors_entries_fold(
    entries: Seq<ColorEntryV>,
    acc: Seq<(Seq<char>, ColorV)>,
) -> Seq<(Seq<char>, ColorV)>
    decreases entries.len(),
{
    if entries.len() == 0 {
        acc
    } else {
        let acc2 = match color_from_entry(entries[0]) {
            Some(kv) => key_update(acc, kv.0, kv.1),
            None => acc,
        };
        colors_entries_fold(entries.drop_first(), acc2)
    }
}

/// What color extraction produces for a whole page.
pub open spec fn colors_extract_spec(entries: Seq<ColorEntryV>) -> Seq<(Seq<char>, ColorV)> {
    colors_entries_fold(entries, Seq::empty())
}

/// Color extraction over the page's list items: the verified heart of the
/// color stage.
pub fn colors_from_entries(entries: &Vec<ColorEntry>) -> (m: CategoryMap<Color>)
    ensures
        m.wf(),
        m@ == colors_extract_spec(entries@.map_values(|e: ColorEntry| e@)),
{
    let ghost ev = entries@.map_values(|e: ColorEntry| e@);
    let mut m = CategoryMap::<Color>::new();
    let mut i: usize = 0;
    proof {
        assert(ev.skip(0) =~= ev);
    }
    while i < entries.len()
        invariant
            i <= entries@.len(),
            ev == entries@.map_values(|e: ColorEntry| e@),
            m.wf(),
            colors_entries_fold(ev, Seq::empty()) == colors_entries_fold(ev.skip(i as int), m@),
        decreases entries@.len() - i,
    {
        proof {
            assert(ev.skip(i as int)[0] == ev[i as int]);
            assert(ev[i as int] == entries@[i as int]@);
            assert(ev.skip(i as int).drop_first() =~= ev.skip(i + 1));
        }
        let e = &entries[i];
        let id: i32 = match &e.id_text {
            Some(t) => match parse_i32(t.as_str()) {
                Some(v) => v,
                None => -1,
            },
            None => -1,
        };
        proof {
            assert(id as int == color_id_spec(ev[i as int]));
        }
        if id >= 0 {
            let raw: String = match &e.name_text {
                Some(t) => clean_name(t.as_str()),
                None => {
                    let mut c = chars_of("Color_");
                    let mut d = i64_to_chars(id as i64);
                    c.append(&mut d);
                    string_of(&c)
                },
            };
            let pat = chars_of(" Coloring");
            proof {
                reveal_strlit(" Coloring");
            }
            let empty_rep: Vec<char> = Vec::new();
            let name_chars = chars_replace_all(&chars_of(raw.as_str()), &pat, &empty_rep);
            let name = string_of(&name_chars);
            let hex: String = match &e.hex_text {
                Some(h) => h.clone(),
                None => String::new(),
            };
            let key_chars = chars_replace(&chars_replace(&name_chars, ' ', '_'), '-', '_');
            let key = string_of(&key_chars);
            m.insert(
                key,
                Color { kind: "color".to_owned(), name, color_id: id, hex_code: hex },
            );
        }
        i += 1;
    }
    proof {
        assert(ev.skip(entries@.len() as int) =~= Seq::<ColorEntryV>::empty());
    }
    m
}

} // verus!
