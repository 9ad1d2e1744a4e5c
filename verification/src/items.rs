//! Extraction rules for the item category: one wiki page per section,
//! each row with enough cells yielding a record, keyed by display name.
//! The category as a whole fails when no item at all was extracted.
use crate::category_map::{key_update, CategoryMap};
use crate::common::{blueprint_spec, clean_name, clean_name_spec, extract_blueprint, extract_mod_name, mod_name_spec, BASE_URL};
use crate::page::{behind_header, nodes_view, rows_view, PageCell, PageCellV, PageNode, PageNodeV, TableRow};
use crate::text::{
    chars_of, chars_replace, chars_replace_all, contains_seq, replace_all, replace_char,
    str_contains, str_eq, string_of,
};
use crate::types::{Item, ItemV};
use vstd::prelude::*;

verus! {

/// An item name containing any of these fragments is left out.
pub open spec fn skip_item_spec(name: Seq<char>) -> bool {
    ||| contains_seq(name, "undefined"@)
    ||| contains_seq(name, "null"@)
    ||| contains_seq(name, "(alt)"@)
    ||| contains_seq(name, "Beer_Jar_"@)
    ||| contains_seq(name, "Platform_Cart"@)
}

/// The item skip list: placeholder rows and known duplicates.
pub fn should_skip_item(name: &str) -> (r: bool)
    ensures
        r == skip_item_spec(name@),
{
    str_contains(name, "undefined") || str_contains(name, "null") || str_contains(name, "(alt)")
        || str_contains(name, "Beer_Jar_") || str_contains(name, "Platform_Cart")
}

/// The item sections, in the order their pages are visited.
pub open spec fn sections_spec() -> Seq<Seq<char>> {
    seq![
        "Resources"@,
        "Tools"@,
        "Armor"@,
        "Saddles"@,
        "Structures"@,
        "Vehicles"@,
        "Dye"@,
        "Consumables"@,
        "Recipes"@,
        "Eggs"@,
        "Farming"@,
        "Seeds"@,
        "Weapons"@,
        "Ammunition"@,
        "Skins"@,
        "Chibi Pets"@,
        "Artifacts"@,
        "Trophy"@,
    ]
}

/// The item sections, in order.
pub fn section_names() -> (r: Vec<String>)
    ensures
        r@.len() == sections_spec().len(),
        forall|i: int| 0 <= i < r@.len() ==> r@[i]@ == sections_spec()[i],
{
    let mut r: Vec<String> = Vec::new();
    r.push("Resources".to_owned());
    r.push("Tools".to_owned());
    r.push("Armor".to_owned());
    r.push("Saddles".to_owned());
    r.push("Structures".to_owned());
    r.push("Vehicles".to_owned());
    r.push("Dye".to_owned());
    r.push("Consumables".to_owned());
    r.push("Recipes".to_owned());
    r.push("Eggs".to_owned());
    r.push("Farming".to_owned());
    r.push("Seeds".to_owned());
    r.push("Weapons".to_owned());
    r.push("Ammunition".to_owned());
    r.push("Skins".to_owned());
    r.push("Chibi Pets".to_owned());
    r.push("Artifacts".to_owned());
    r.push("Trophy".to_owned());
    proof {
        assert(forall|i: int| 0 <= i < r@.len() ==> r@[i]@ == sections_spec()[i]);
    }
    r
}

/// The addresses tried for a section: its own page, and an alternate
/// spelling for the two sections whose page names wavered.
pub open spec fn section_urls_spec(section: Seq<char>) -> Seq<Seq<char>> {
    if section == "Trophy"@ {
        seq![section_url_spec(section), "https://ark.wiki.gg/wiki/Item_IDs/Trophies"@]
    } else if section == "Weapons"@ {
        seq![section_url_spec(section), "https://ark.wiki.gg/wiki/Item_IDs/Weapon"@]
    } else {
        seq![section_url_spec(section)]
    }
}

/// Builds the addresses tried for a section, in order.
pub fn section_urls(section: &str) -> (r: Vec<String>)
    ensures
        r@.len() == section_urls_spec(section@).len(),
        forall|i: int| 0 <= i < r@.len() ==> r@[i]@ == section_urls_spec(section@)[i],
{
    let mut r: Vec<String> = Vec::new();
    r.push(format_section_url(section));
    if str_eq(section, "Trophy") {
        r.push("https://ark.wiki.gg/wiki/Item_IDs/Trophies".to_owned());
    } else if str_eq(section, "Weapons") {
        r.push("https://ark.wiki.gg/wiki/Item_IDs/Weapon".to_owned());
    }
    proof {
        assert(forall|i: int| 0 <= i < r@.len() ==> r@[i]@ == section_urls_spec(section@)[i]);
    }
    r
}

/// The address of a section's item page. A few sections have their own
/// address shape; the rest follow a common pattern.
pub open spec fn section_url_spec(section: Seq<char>) -> Seq<char> {
    if section == "Weapons"@ {
        "https://ark.wiki.gg/wiki/Item_IDs/Weapons"@
    } else if section == "Trophy"@ {
        "https://ark.wiki.gg/wiki/Item_IDs/Trophy"@
    } else if section == "Chibi Pets"@ {
        "https://ark.wiki.gg/wiki/Item_IDs/Chibi_Pets"@
    } else {
        let formatted = replace_all(
            replace_all(replace_char(section, ' ', '_'), "&"@, "and"@),
            "_Pets"@,
            "-Pets"@,
        );
        "https://ark.wiki.gg/wiki/Item_IDs/"@ + formatted
    }
}

/// Builds the address of a section's item page.
pub fn format_section_url(section: &str) -> (r: String)
    ensures
        r@ == section_url_spec(section@),
{
    if str_eq(section, "Weapons") {
        proof {
            reveal_strlit("https://ark.wiki.gg/wiki/Item_IDs/Weapons");
            reveal_strlit("https://ark.wiki.gg");
            reveal_strlit("/wiki/Item_IDs/Weapons");
        }
        let r = BASE_URL.to_owned().concat("/wiki/Item_IDs/Weapons");
        proof {
            assert(r@ =~= "https://ark.wiki.gg/wiki/Item_IDs/Weapons"@);
        }
        r
    } else if str_eq(section, "Trophy") {
        proof {
            reveal_strlit("https://ark.wiki.gg/wiki/Item_IDs/Trophy");
            reveal_strlit("https://ark.wiki.gg");
            reveal_strlit("/wiki/Item_IDs/Trophy");
        }
        let r = BASE_URL.to_owned().concat("/wiki/Item_IDs/Trophy");
        proof {
            assert(r@ =~= "https://ark.wiki.gg/wiki/Item_IDs/Trophy"@);
        }
        r
    } else if str_eq(section, "Chibi Pets") {
        proof {
            reveal_strlit("https://ark.wiki.gg/wiki/Item_IDs/Chibi_Pets");
            reveal_strlit("https://ark.wiki.gg");
            reveal_strlit("/wiki/Item_IDs/Chibi_Pets");
        }
        let r = BASE_URL.to_owned().concat("/wiki/Item_IDs/Chibi_Pets");
        proof {
            assert(r@ =~= "https://ark.wiki.gg/wiki/Item_IDs/Chibi_Pets"@);
        }
        r
    } else {
        let s1 = chars_replace(&chars_of(section), ' ', '_');
        let amp = chars_of("&");
        let and_rep = chars_of("and");
        proof {
            reveal_strlit("&");
        }
        let s2 = chars_replace_all(&s1, &amp, &and_rep);
        let pets_pat = chars_of("_Pets");
        let pets_rep = chars_of("-Pets");
        proof {
            reveal_strlit("_Pets");
        }
        let s3 = chars_replace_all(&s2, &pets_pat, &pets_rep);
        let mut prefix = chars_of("https://ark.wiki.gg/wiki/Item_IDs/");
        let mut tail = s3;
        prefix.append(&mut tail);
        let r = string_of(&prefix);
        proof {
            assert(r@ =~= section_url_spec(section@));
        }
        r
    }
}

/// The display name a cell yields for an item: the first link's title if
/// it cleans to something, else that link's text, else the cell's text;
/// nothing if all clean to empty.
pub open spec fn item_cell_name(c: PageCellV) -> Option<Seq<char>> {
    let from_title = if c.links.len() > 0 && c.links[0].title is Some {
        clean_name_spec(c.links[0].title->0)
    } else {
        Seq::empty()
    };
    if from_title.len() > 0 {
        Some(from_title)
    } else {
        let from_text = if c.links.len() > 0 {
            clean_name_spec(c.links[0].text)
        } else {
            Seq::empty()
        };
        if from_text.len() > 0 {
            Some(from_text)
        } else {
            let ct = clean_name_spec(c.text);
            if ct.len() > 0 {
                Some(ct)
            } else {
                None
            }
        }
    }
}

/// Reads the display name of an item row's first cell.
pub fn extract_name_from_cell(cell: &PageCell) -> (r: Option<String>)
    ensures
        match r {
            Some(n) => item_cell_name(cell@) == Some(n@),
            None => item_cell_name(cell@) is None,
        },
{
    if cell.links.len() > 0 {
        let l = &cell.links[0];
        proof {
            assert(cell@.links[0] == cell.links@[0]@);
        }
        match &l.title {
            Some(t) => {
                let name = clean_name(t.as_str());
                if name.unicode_len() > 0 {
                    return Some(name);
                }
            },
            None => {},
        }
        let name = clean_name(l.text.as_str());
        if name.unicode_len() > 0 {
            return Some(name);
        }
    }
    let name = clean_name(cell.text.as_str());
    if name.unicode_len() > 0 {
        Some(name)
    } else {
        None
    }
}

/// A cell's cleaned text, if it is not empty.
pub open spec fn nonempty_clean(t: Seq<char>) -> Option<Seq<char>> {
    let c = clean_name_spec(t);
    if c.len() > 0 {
        Some(c)
    } else {
        None
    }
}

/// Reads a cell's cleaned text; the item's type column.
pub fn extract_type_from_cell(cell: &PageCell) -> (r: Option<String>)
    ensures
        match r {
            Some(n) => nonempty_clean(cell@.text) == Some(n@),
            None => nonempty_clean(cell@.text) is None,
        },
{
    let c = clean_name(cell.text.as_str());
    if c.unicode_len() > 0 {
        Some(c)
    } else {
        None
    }
}

/// Reads a cell's cleaned text; the item's class-name column.
pub fn extract_class_name_from_cell(cell: &PageCell) -> (r: Option<String>)
    ensures
        match r {
            Some(n) => nonempty_clean(cell@.text) == Some(n@),
            None => nonempty_clean(cell@.text) is None,
        },
{
    let c = clean_name(cell.text.as_str());
    if c.unicode_len() > 0 {
        Some(c)
    } else {
        None
    }
}

/// The record one data row yields for a section, if any: five cells at
/// least and a usable name that is not skipped. A row whose blueprint
/// cell has no readable blueprint gets the explicit sentinel, which also
/// leaves its mod unattributed.
pub open spec fn item_from_row(row: Seq<PageCellV>, section: Seq<char>) -> Option<
    (Seq<char>, ItemV),
> {
    if row.len() < 5 {
        None
    } else {
        match item_cell_name(row[0]) {
            None => None,
            Some(name) => {
                if skip_item_spec(name) {
                    None
                } else {
                    let kind = match nonempty_clean(row[1].text) {
                        Some(t) => t,
                        None => section,
                    };
                    let class_name = match nonempty_clean(row[4].text) {
                        Some(c) => c,
                        None => "Unknown"@,
                    };
                    let bp = match blueprint_spec(row.last().text) {
                        Some(b) => b,
                        None => "Unknown"@,
                    };
                    Some(
                        (
                            replace_char(name, ' ', '_'),
                            ItemV {
                                kind: kind,
                                name: name,
                                mod_name: mod_name_spec(bp),
                                class_name: class_name,
                                blueprint: bp,
                            },
                        ),
                    )
                }
            },
        }
    }
}

/// The item map and a flag for whether any record was written, after
/// folding a table's data rows.
pub open spec fn items_rows_fold(
    rows: Seq<Seq<PageCellV>>,
    acc: Seq<(Seq<char>, ItemV)>,
    any: bool,
    section: Seq<char>,
) -> (Seq<(Seq<char>, ItemV)>, bool)
    decreases rows.len(),
{
    if rows.len() == 0 {
        (acc, any)
    } else {
        match item_from_row(rows[0], section) {
            Some(kv) => items_rows_fold(
                rows.drop_first(),
                key_update(acc, kv.0, kv.1),
                true,
                section,
            ),
            None => items_rows_fold(rows.drop_first(), acc, any, section),
        }
    }
}

/// The item map and flag after walking a section page's tables.
pub open spec fn items_nodes_fold(
    nodes: Seq<PageNodeV>,
    acc: Seq<(Seq<char>, ItemV)>,
    any: bool,
    section: Seq<char>,
) -> (Seq<(Seq<char>, ItemV)>, bool)
    decreases nodes.len(),
{
    if nodes.len() == 0 {
        (acc, any)
    } else {
        match nodes[0] {
            PageNodeV::Heading(_) => items_nodes_fold(nodes.drop_first(), acc, any, section),
            PageNodeV::Table(rows) => {
                let st = items_rows_fold(behind_header(rows), acc, any, section);
                items_nodes_fold(nodes.drop_first(), st.0, st.1, section)
            },
        }
    }
}

/// Folds one table's data rows into the item map; reports whether any
/// record was written.
fn items_from_rows(
    rows: &Vec<TableRow>,
    section: &str,
    m: &mut CategoryMap<Item>,
    any: bool,
) -> (r: bool)
    requires
        old(m).wf(),
    ensures
        final(m).wf(),
        (final(m)@, r) == items_rows_fold(behind_header(rows_view(rows@)), old(m)@, any, section@),
{
    let ghost rv = behind_header(rows_view(rows@));
    let mut got = any;
    if rows.len() == 0 {
        return got;
    }
    let mut j: usize = 1;
    proof {
        assert(rv =~= rows_view(rows@).drop_first());
        assert(rv.skip(0) =~= rv);
    }
    while j < rows.len()
        invariant
            1 <= j,
            j <= rows@.len(),
            rows@.len() >= 1,
            m.wf(),
            rv == behind_header(rows_view(rows@)),
            rv.len() == rows@.len() - 1,
            items_rows_fold(rv, old(m)@, any, section@) == items_rows_fold(
                rv.skip(j - 1),
                m@,
                got,
                section@,
            ),
        decreases rows@.len() - j,
    {
        proof {
            assert(rv.skip(j - 1)[0] == rv[j - 1]);
            assert(rv[j - 1] == rows@[j as int]@);
            assert(rv.skip(j - 1).drop_first() =~= rv.skip(j as int));
        }
        let row = &rows[j];
        let ghost rw = rows@[j as int]@;
        if row.cells.len() >= 5 {
            proof {
                assert(rw[0] == row.cells@[0]@);
                assert(rw[1] == row.cells@[1]@);
                assert(rw[4] == row.cells@[4]@);
                assert(rw.last() == row.cells@[row.cells@.len() - 1]@);
            }
            match extract_name_from_cell(&row.cells[0]) {
                None => {},
                Some(name) => {
                    if !should_skip_item(name.as_str()) {
                        let kind: String = match extract_type_from_cell(&row.cells[1]) {
                            Some(t) => t,
                            None => section.to_owned(),
                        };
                        let class_name: String = match extract_class_name_from_cell(
                            &row.cells[4],
                        ) {
                            Some(c) => c,
                            None => "Unknown".to_owned(),
                        };
                        let last_cell = &row.cells[row.cells.len() - 1];
                        let blueprint: String = match extract_blueprint(
                            last_cell.text.as_str(),
                        ) {
                            Some(bp) => bp,
                            None => "Unknown".to_owned(),
                        };
                        let key_chars = chars_replace(&chars_of(name.as_str()), ' ', '_');
                        let key = string_of(&key_chars);
                        let mod_name = extract_mod_name(blueprint.as_str());
                        m.insert(key, Item { kind, name, mod_name, class_name, blueprint });
                        got = true;
                    }
                },
            }
        }
        j += 1;
    }
    proof {
        assert(rv.skip(rows@.len() - 1) =~= Seq::<Seq<PageCellV>>::empty());
    }
    got
}

/// Item extraction over one section page: the verified heart of the item
/// stage. Returns whether this page contributed any record.
pub fn items_from_page(
    nodes: &Vec<PageNode>,
    section: &str,
    items: &mut CategoryMap<Item>,
) -> (added: bool)
    requires
        old(items).wf(),
    ensures
        final(items).wf(),
        (final(items)@, added) == items_nodes_fold(
            nodes_view(nodes@),
            old(items)@,
            false,
            section@,
        ),
{
    let mut got = false;
    let mut i: usize = 0;
    proof {
        assert(nodes_view(nodes@).skip(0) =~= nodes_view(nodes@));
    }
    while i < nodes.len()
        invariant
            i <= nodes@.len(),
            items.wf(),
            items_nodes_fold(nodes_view(nodes@), old(items)@, false, section@)
                == items_nodes_fold(nodes_view(nodes@).skip(i as int), items@, got, section@),
        decreases nodes@.len() - i,
    {
        let ghost nv = nodes_view(nodes@);
        proof {
            assert(nv.skip(i as int)[0] == nv[i as int]);
            assert(nv[i as int] == nodes@[i as int]@);
            assert(nv.skip(i as int).drop_first() =~= nv.skip(i + 1));
        }
        match &nodes[i] {
            PageNode::Heading(_) => {},
            PageNode::Table(rows) => {
                got = items_from_rows(rows, section, items, got);
            },
        }
        i += 1;
    }
    proof {
        assert(nodes_view(nodes@).skip(nodes@.len() as int) =~= Seq::<PageNodeV>::empty());
    }
    got
}

/// The zero-items rule: a completed item stage with an empty map is a
/// failure for the whole category.
pub fn finish_items(items: CategoryMap<Item>) -> (r: Result<CategoryMap<Item>, String>)
    ensures
        items@.len() == 0 <==> r is Err,
        r matches Ok(m) ==> m@ == items@,
        r matches Err(e) ==> e@ == "No items were successfully scraped"@,
{
    if items.is_empty() {
        Err("No items were successfully scraped".to_owned())
    } else {
        Ok(items)
    }
}

} // verus!
