//! Extraction rules for the creature category: rows of the creature table
//! become records keyed by mod-prefixed display name, with rows attributed
//! to the nearest preceding section heading.
use crate::category_map::{key_update, CategoryMap};
use crate::common::{blueprint_spec, clean_name, clean_name_spec, extract_blueprint};
use crate::page::{behind_header, nodes_view, rows_view, PageCell, PageCellV, PageNode, PageNodeV, TableRow};
use crate::text::{chars_of, chars_replace, contains_seq, replace_char, str_contains, string_of};
use crate::types::{Creature, CreatureV};
use vstd::prelude::*;

verus! {

/// A creature name containing any of these fragments is left out.
pub open spec fn skip_creature_spec(name: Seq<char>) -> bool {
    ||| contains_seq(name, "Alpha"@)
    ||| contains_seq(name, "VR"@)
    ||| contains_seq(name, "Malfunctioned"@)
    ||| contains_seq(name, "Retrieve"@)
    ||| contains_seq(name, "Escort"@)
    ||| contains_seq(name, "Minion"@)
    ||| contains_seq(name, "Race"@)
    ||| contains_seq(name, "Sport"@)
    ||| contains_seq(name, "Summoned"@)
    ||| contains_seq(name, "Hunt"@)
    ||| contains_seq(name, "Mashup"@)
}

/// The creature skip list: mission variants, malfunctioned and alpha
/// creatures and the like are deliberately dropped.
pub fn should_skip_creature(name: &str) -> (r: bool)
    ensures
        r == skip_creature_spec(name@),
{
    str_contains(name, "Alpha") || str_contains(name, "VR") || str_contains(
        name,
        "Malfunctioned",
    ) || str_contains(name, "Retrieve") || str_contains(name, "Escort") || str_contains(
        name,
        "Minion",
    ) || str_contains(name, "Race") || str_contains(name, "Sport") || str_contains(
        name,
        "Summoned",
    ) || str_contains(name, "Hunt") || str_contains(name, "Mashup")
}

/// The mod a section heading announces; the base game when none of the
/// known DLC names occurs.
pub open spec fn header_mod_spec(h: Seq<char>) -> Seq<char> {
    if contains_seq(h, "Scorched Earth"@) {
        "Scorched Earth"@
    } else if contains_seq(h, "Aberration"@) {
        "Aberration"@
    } else if contains_seq(h, "Extinction"@) {
        "Extinction"@
    } else if contains_seq(h, "Genesis"@) {
        "Genesis"@
    } else {
        "Ark"@
    }
}

/// Reads the mod name out of a section heading.
pub fn extract_mod_from_header(header: &str) -> (r: String)
    ensures
        r@ == header_mod_spec(header@),
{
    if str_contains(header, "Scorched Earth") {
        "Scorched Earth".to_owned()
    } else if str_contains(header, "Aberration") {
        "Aberration".to_owned()
    } else if str_contains(header, "Extinction") {
        "Extinction".to_owned()
    } else if str_contains(header, "Genesis") {
        "Genesis".to_owned()
    } else {
        "Ark".to_owned()
    }
}

/// The dedup key: the mod name and the display name, spaces (and dashes in
/// the name) turned to underscores, joined by an underscore.
pub open spec fn unique_key_spec(name: Seq<char>, mod_name: Seq<char>) -> Seq<char> {
    replace_char(mod_name, ' ', '_') + seq!['_'] + replace_char(
        replace_char(name, ' ', '_'),
        '-',
        '_',
    )
}

/// Builds the dedup key for a record. The blueprint does not take part;
/// the parameter stands so callers hand the full row context over.
pub fn generate_unique_key(name: &str, blueprint: &str, mod_name: &str) -> (r: String)
    ensures
        r@ == unique_key_spec(name@, mod_name@),
{
    let _ = blueprint;
    let m = chars_replace(&chars_of(mod_name), ' ', '_');
    let n1 = chars_replace(&chars_of(name), ' ', '_');
    let mut n2 = chars_replace(&n1, '-', '_');
    let mut out = m;
    out.push('_');
    out.append(&mut n2);
    proof {
        assert(out@ =~= unique_key_spec(name@, mod_name@));
    }
    string_of(&out)
}

/// The display name a cell yields: the title of its last link, else that
/// link's text, else the cell's own text, cleaned.
pub open spec fn cell_name_last_link(c: PageCellV) -> Seq<char> {
    if c.links.len() > 0 {
        match c.links.last().title {
            Some(t) => clean_name_spec(t),
            None => clean_name_spec(c.links.last().text),
        }
    } else {
        clean_name_spec(c.text)
    }
}

/// Reads the display name of a creature row's first cell.
pub fn cell_display_name_last(c: &PageCell) -> (r: String)
    ensures
        r@ == cell_name_last_link(c@),
{
    if c.links.len() > 0 {
        let l = &c.links[c.links.len() - 1];
        proof {
            assert(c@.links.last() == c.links@[c.links@.len() - 1]@);
        }
        match &l.title {
            Some(t) => clean_name(t.as_str()),
            None => clean_name(l.text.as_str()),
        }
    } else {
        clean_name(c.text.as_str())
    }
}

/// The record one data row yields, if any: rows with fewer than four
/// cells and skipped names yield nothing; a row whose blueprint cell has
/// no readable blueprint gets the explicit sentinel instead.
pub open spec fn creature_from_row(row: Seq<PageCellV>, cur_mod: Seq<char>) -> Option<
    (Seq<char>, CreatureV),
> {
    if row.len() < 4 {
        None
    } else {
        let name = cell_name_last_link(row[0]);
        if skip_creature_spec(name) {
            None
        } else {
            let bp = match blueprint_spec(row.last().text) {
                Some(b) => b,
                None => "Unknown"@,
            };
            Some(
                (
                    unique_key_spec(name, cur_mod),
                    CreatureV {
                        kind: "creature"@,
                        name: name,
                        mod_name: cur_mod,
                        entity_id: clean_name_spec(row[3].text),
                        blueprint: bp,
                    },
                ),
            )
        }
    }
}

/// The creature map after folding a table's data rows into `acc`, last
/// write winning per key.
pub open spec fn creatures_rows_fold(
    rows: Seq<Seq<PageCellV>>,
    acc: Seq<(Seq<char>, CreatureV)>,
    cur_mod: Seq<char>,
) -> Seq<(Seq<char>, CreatureV)>
    decreases rows.len(),
{
    if rows.len() == 0 {
        acc
    } else {
        let acc2 = match creature_from_row(rows[0], cur_mod) {
            Some(kv) => key_update(acc, kv.0, kv.1),
            None => acc,
        };
        creatures_rows_fold(rows.drop_first(), acc2, cur_mod)
    }
}

/// The creature map after walking the page: headings switch the current
/// mod, tables contribute their rows behind the header row.
pub open spec fn creatures_nodes_fold(
    nodes: Seq<PageNodeV>,
    acc: Seq<(Seq<char>, CreatureV)>,
    cur_mod: Seq<char>,
) -> Seq<(Seq<char>, CreatureV)>
    decreases nodes.len(),
{
    if nodes.len() == 0 {
        acc
    } else {
        match nodes[0] {
            PageNodeV::Heading(h) => creatures_nodes_fold(
                nodes.drop_first(),
                acc,
                header_mod_spec(h),
            ),
            PageNodeV::Table(rows) => creatures_nodes_fold(
                nodes.drop_first(),
                creatures_rows_fold(behind_header(rows), acc, cur_mod),
                cur_mod,
            ),
        }
    }
}

/// What creature extraction produces for a whole page, starting from an
/// empty map and the base game as current mod.
pub open spec fn creatures_extract_spec(nodes: Seq<PageNodeV>) -> Seq<(Seq<char>, CreatureV)> {
    creatures_nodes_fold(nodes, Seq::empty(), "Ark"@)
}

/// No record of the map carries a name the creature skip list catches.
pub open spec fn no_skipped_creatures(s: Seq<(Seq<char>, CreatureV)>) -> bool {
    forall|t: int| 0 <= t < s.len() ==> !skip_creature_spec((#[trigger] s[t].1).name)
}

proof fn lemma_rows_fold_skip(
    rows: Seq<Seq<PageCellV>>,
    acc: Seq<(Seq<char>, CreatureV)>,
    cur_mod: Seq<char>,
)
    requires
        no_skipped_creatures(acc),
    ensures
        no_skipped_creatures(creatures_rows_fold(rows, acc, cur_mod)),
    decreases rows.len(),
{
    if rows.len() > 0 {
        let acc2 = match creature_from_row(rows[0], cur_mod) {
            Some(kv) => key_update(acc, kv.0, kv.1),
            None => acc,
        };
        assert(no_skipped_creatures(acc2)) by {
            match creature_from_row(rows[0], cur_mod) {
                Some(kv) => {
                    assert(!skip_creature_spec(kv.1.name));
                    assert forall|t: int| 0 <= t < acc2.len() implies !skip_creature_spec(
                        (#[trigger] acc2[t].1).name,
                    ) by {
                        crate::category_map::lemma_key_update_values(acc, kv.0, kv.1, t);
                        if acc2[t].1 != kv.1 {
                            let u = choose|u: int| 0 <= u < acc.len() && acc2[t].1 == acc[u].1;
                            assert(!skip_creature_spec(acc[u].1.name));
                        }
                    }
                },
                None => {},
            }
        }
        lemma_rows_fold_skip(rows.drop_first(), acc2, cur_mod);
    }
}

proof fn lemma_nodes_fold_skip(
    nodes: Seq<PageNodeV>,
    acc: Seq<(Seq<char>, CreatureV)>,
    cur_mod: Seq<char>,
)
    requires
        no_skipped_creatures(acc),
    ensures
        no_skipped_creatures(creatures_nodes_fold(nodes, acc, cur_mod)),
    decreases nodes.len(),
{
    if nodes.len() > 0 {
        match nodes[0] {
            PageNodeV::Heading(h) => {
                lemma_nodes_fold_skip(nodes.drop_first(), acc, header_mod_spec(h));
            },
            PageNodeV::Table(rows) => {
                lemma_rows_fold_skip(behind_header(rows), acc, cur_mod);
                lemma_nodes_fold_skip(
                    nodes.drop_first(),
                    creatures_rows_fold(behind_header(rows), acc, cur_mod),
                    cur_mod,
                );
            },
        }
    }
}

/// Skip law: on any page, creature extraction emits no record whose name
/// the skip list catches — a row named for an alpha, mission or other
/// listed variant is silently dropped, never stored.
pub proof fn lemma_creatures_skip_respected(nodes: Seq<PageNodeV>)
    ensures
        no_skipped_creatures(creatures_extract_spec(nodes)),
{
    lemma_nodes_fold_skip(nodes, Seq::empty(), "Ark"@);
}

/// Folds one table's data rows into the creature map.
fn creatures_from_rows(rows: &Vec<TableRow>, cur_mod: &String, m: &mut CategoryMap<Creature>)
    requires
        old(m).wf(),
    ensures
        final(m).wf(),
        final(m)@ == creatures_rows_fold(behind_header(rows_view(rows@)), old(m)@, cur_mod@),
{
    let ghost rv = behind_header(rows_view(rows@));
    if rows.len() == 0 {
        return ;
    }
    let mut j: usize = 1;
    proof {
        assert(rv =~= rows_view(rows@).drop_first());
        assert(rv.skip(0) =~= rv);
    }
    while j < rows.len()
        invariant
            1 <= j,
            j <= rows@.len(),
            rows@.len() >= 1,
            m.wf(),
            rv == behind_header(rows_view(rows@)),
            rv.len() == rows@.len() - 1,
            creatures_rows_fold(rv, old(m)@, cur_mod@) == creatures_rows_fold(
                rv.skip(j - 1),
                m@,
                cur_mod@,
            ),
        decreases rows@.len() - j,
    {
        proof {
            assert(rv.skip(j - 1)[0] == rv[j - 1]);
            assert(rv[j - 1] == rows@[j as int]@);
            assert(rv.skip(j - 1).drop_first() =~= rv.skip(j as int));
        }
        let row = &rows[j];
        let ghost rw = rows@[j as int]@;
        if row.cells.len() >= 4 {
            let name = cell_display_name_last(&row.cells[0]);
            proof {
                assert(rw[0] == row.cells@[0]@);
            }
            if !should_skip_creature(name.as_str()) {
                let entity_id = clean_name(row.cells[3].text.as_str());
                let last_cell = &row.cells[row.cells.len() - 1];
                proof {
                    assert(rw[3] == row.cells@[3]@);
                    assert(rw.last() == row.cells@[row.cells@.len() - 1]@);
                }
                let blueprint: String = match extract_blueprint(last_cell.text.as_str()) {
                    Some(bp) => bp,
                    None => "Unknown".to_owned(),
                };
                let key = generate_unique_key(
                    name.as_str(),
                    blueprint.as_str(),
                    cur_mod.as_str(),
                );
                m.insert(
                    key,
                    Creature {
                        kind: "creature".to_owned(),
                        name,
                        mod_name: cur_mod.clone(),
                        entity_id,
                        blueprint,
                    },
                );
            }
        }
        j += 1;
    }
    proof {
        assert(rv.skip(rows@.len() - 1) =~= Seq::<Seq<PageCellV>>::empty());
    }
}

/// Creature extraction over a whole page model: the verified heart of the
/// creature stage.
pub fn creatures_from_page(nodes: &Vec<PageNode>) -> (m: CategoryMap<Creature>)
    ensures
        m.wf(),
        m@ == creatures_extract_spec(nodes_view(nodes@)),
{
    let mut m = CategoryMap::<Creature>::new();
    let mut cur_mod: String = "Ark".to_owned();
    proof {
        assert(nodes_view(nodes@).skip(0) =~= nodes_view(nodes@));
    }
    let mut i: usize = 0;
    while i < nodes.len()
        invariant
            i <= nodes@.len(),
            m.wf(),
            creatures_extract_spec(nodes_view(nodes@)) == creatures_nodes_fold(
                nodes_view(nodes@).skip(i as int),
                m@,
                cur_mod@,
            ),
        decreases nodes@.len() - i,
    {
        let ghost nv = nodes_view(nodes@);
        proof {
            assert(nv.skip(i as int)[0] == nv[i as int]);
            assert(nv[i as int] == nodes@[i as int]@);
            assert(nv.skip(i as int).drop_first() =~= nv.skip(i + 1));
        }
        match &nodes[i] {
            PageNode::Heading(h) => {
                cur_mod = extract_mod_from_header(h.as_str());
            },
            PageNode::Table(rows) => {
                creatures_from_rows(rows, &cur_mod, &mut m);
            },
        }
        i += 1;
    }
    proof {
        assert(nodes_view(nodes@).skip(nodes@.len() as int) =~= Seq::<PageNodeV>::empty());
    }
    m
}

} // verus!
