//! Extraction rules for the engram category: an index of display names to
//! class names, a list of detail-page links, and one record per detail
//! page. Detail pages are fetched concurrently by the host; results are
//! folded in one at a time, in completion order.
use crate::category_map::{key_lookup, key_update, CategoryMap};
use crate::common::{blueprint_spec, clean_name, clean_name_spec, extract_blueprint, extract_mod_name, mod_name_spec, BASE_URL};
use crate::page::{behind_header, nodes_view, rows_view, PageCellV, PageNode, PageNodeV, TableRow};
use crate::text::{chars_of, chars_replace, contains_chars, contains_seq, replace_char, str_contains, string_of};
use crate::types::{Engram, EngramV};
use vstd::prelude::*;

verus! {

/// An engram name containing any of these fragments is left out.
pub open spec fn skip_engram_spec(name: Seq<char>) -> bool {
    contains_seq(name, "Platform_Cart"@)
}

/// The engram skip list.
pub fn should_skip_engram(name: &str) -> (r: bool)
    ensures
        r == skip_engram_spec(name@),
{
    str_contains(name, "Platform_Cart")
}

/// The index entry one row of the class-name table yields: the first
/// link's text (else the cell's text) mapped to the second cell's text.
pub open spec fn class_row_spec(row: Seq<PageCellV>) -> Option<(Seq<char>, Seq<char>)> {
    if row.len() < 2 {
        None
    } else {
        let name = if row[0].links.len() > 0 {
            clean_name_spec(row[0].links[0].text)
        } else {
            clean_name_spec(row[0].text)
        };
        Some((name, clean_name_spec(row[1].text)))
    }
}

/// The class-name index after folding a table's data rows into `acc`.
pub open spec fn class_rows_fold(
    rows: Seq<Seq<PageCellV>>,
    acc: Seq<(Seq<char>, Seq<char>)>,
) -> Seq<(Seq<char>, Seq<char>)>
    decreases rows.len(),
{
    if rows.len() == 0 {
        acc
    } else {
        let acc2 = match class_row_spec(rows[0]) {
            Some(kv) => key_update(acc, kv.0, kv.1),
            None => acc,
        };
        class_rows_fold(rows.drop_first(), acc2)
    }
}

/// Builds the display-name to class-name index from the first table of
/// the class-name page, header row passed over.
pub fn class_names_from_rows(rows: &Vec<TableRow>) -> (m: CategoryMap<String>)
    ensures
        m.wf(),
        m@ == class_rows_fold(behind_header(rows_view(rows@)), Seq::empty()),
{
    let ghost rv = behind_header(rows_view(rows@));
    let mut m = CategoryMap::<String>::new();
    if rows.len() == 0 {
        return m;
    }
    let mut j: usize = 1;
    proof {
        assert(rv =~= rows_view(rows@).drop_first());
        assert(rv.skip(0) =~= rv);
    }
    while j < rows.len()
        invariant
            1 <= j,
            j <= rows@.len(),
            rows@.len() >= 1,
            m.wf(),
            rv == behind_header(rows_view(rows@)),
            rv.len() == rows@.len() - 1,
            class_rows_fold(rv, Seq::empty()) == class_rows_fold(rv.skip(j - 1), m@),
        decreases rows@.len() - j,
    {
        proof {
            assert(rv.skip(j - 1)[0] == rv[j - 1]);
            assert(rv[j - 1] == rows@[j as int]@);
            assert(rv.skip(j - 1).drop_first() =~= rv.skip(j as int));
        }
        let row = &rows[j];
        let ghost rw = rows@[j as int]@;
        if row.cells.len() >= 2 {
            proof {
                assert(rw[0] == row.cells@[0]@);
                assert(rw[1] == row.cells@[1]@);
            }
            let cell = &row.cells[0];
            let name: String = if cell.links.len() > 0 {
                proof {
                    assert(rw[0].links[0] == cell.links@[0]@);
                }
                clean_name(cell.links[0].text.as_str())
            } else {
                clean_name(cell.text.as_str())
            };
            let class_name = clean_name(row.cells[1].text.as_str());
            m.insert(name, class_name);
        }
        j += 1;
    }
    proof {
        assert(rv.skip(rows@.len() - 1) =~= Seq::<Seq<PageCellV>>::empty());
    }
    m
}

/// The detail-page address one row yields: the first cell's first link,
/// made absolute.
pub open spec fn link_from_row(row: Seq<PageCellV>) -> Option<Seq<char>> {
    if row.len() > 0 && row[0].links.len() > 0 && row[0].links[0].href is Some {
        Some("https://ark.wiki.gg"@ + row[0].links[0].href->0)
    } else {
        None
    }
}

/// The addresses collected from a table's data rows.
pub open spec fn links_rows_fold(rows: Seq<Seq<PageCellV>>, acc: Seq<Seq<char>>) -> Seq<Seq<char>>
    decreases rows.len(),
{
    if rows.len() == 0 {
        acc
    } else {
        let acc2 = match link_from_row(rows[0]) {
            Some(l) => acc.push(l),
            None => acc,
        };
        links_rows_fold(rows.drop_first(), acc2)
    }
}

/// The addresses collected from a whole page, tables only.
pub open spec fn links_nodes_fold(nodes: Seq<PageNodeV>, acc: Seq<Seq<char>>) -> Seq<Seq<char>>
    decreases nodes.len(),
{
    if nodes.len() == 0 {
        acc
    } else {
        match nodes[0] {
            PageNodeV::Heading(_) => links_nodes_fold(nodes.drop_first(), acc),
            PageNodeV::Table(rows) => links_nodes_fold(
                nodes.drop_first(),
                links_rows_fold(behind_header(rows), acc),
            ),
        }
    }
}

/// Collects the detail-page addresses from the engram overview page.
pub fn engram_links(nodes: &Vec<PageNode>) -> (r: Vec<String>)
    ensures
        r@.map_values(|s: String| s@) == links_nodes_fold(nodes_view(nodes@), Seq::empty()),
{
    let mut out: Vec<String> = Vec::new();
    let mut i: usize = 0;
    proof {
        assert(nodes_view(nodes@).skip(0) =~= nodes_view(nodes@));
        assert(out@.map_values(|s: String| s@) =~= Seq::<Seq<char>>::empty());
    }
    while i < nodes.len()
        invariant
            i <= nodes@.len(),
            links_nodes_fold(nodes_view(nodes@), Seq::empty()) == links_nodes_fold(
                nodes_view(nodes@).skip(i as int),
                out@.map_values(|s: String| s@),
            ),
        decreases nodes@.len() - i,
    {
        let ghost nv = nodes_view(nodes@);
        proof {
            assert(nv.skip(i as int)[0] == nv[i as int]);
            assert(nv[i as int] == nodes@[i as int]@);
            assert(nv.skip(i as int).drop_first() =~= nv.skip(i + 1));
        }
        match &nodes[i] {
            PageNode::Heading(_) => {},
            PageNode::Table(rows) => {
                links_from_rows(rows, &mut out);
            },
        }
        i += 1;
    }
    proof {
        assert(nodes_view(nodes@).skip(nodes@.len() as int) =~= Seq::<PageNodeV>::empty());
    }
    out
}

/// Collects the addresses of one table's data rows.
fn links_from_rows(rows: &Vec<TableRow>, out: &mut Vec<String>)
    ensures
        final(out)@.map_values(|s: String| s@) == links_rows_fold(
            behind_header(rows_view(rows@)),
            old(out)@.map_values(|s: String| s@),
        ),
{
    let ghost rv = behind_header(rows_view(rows@));
    if rows.len() == 0 {
        return ;
    }
    let mut j: usize = 1;
    proof {
        assert(rv =~= rows_view(rows@).drop_first());
        assert(rv.skip(0) =~= rv);
    }
    while j < rows.len()
        invariant
            1 <= j,
            j <= rows@.len(),
            rows@.len() >= 1,
            rv == behind_header(rows_view(rows@)),
            rv.len() == rows@.len() - 1,
            links_rows_fold(rv, old(out)@.map_values(|s: String| s@)) == links_rows_fold(
                rv.skip(j - 1),
                out@.map_values(|s: String| s@),
            ),
        decreases rows@.len() - j,
    {
        proof {
            assert(rv.skip(j - 1)[0] == rv[j - 1]);
            assert(rv[j - 1] == rows@[j as int]@);
            assert(rv.skip(j - 1).drop_first() =~= rv.skip(j as int));
        }
        let row = &rows[j];
        let ghost rw = rows@[j as int]@;
        if row.cells.len() > 0 {
            proof {
                assert(rw[0] == row.cells@[0]@);
            }
            let cell = &row.cells[0];
            if cell.links.len() > 0 {
                proof {
                    assert(rw[0].links[0] == cell.links@[0]@);
                }
                match &cell.links[0].href {
                    Some(href) => {
                        let ghost before = out@.map_values(|s: String| s@);
                        let url = BASE_URL.to_owned().concat(href.as_str());
                        out.push(url);
                        proof {
                            assert(out@.map_values(|s: String| s@) =~= before.push(
                                "https://ark.wiki.gg"@ + href@,
                            ));
                        }
                    },
                    None => {},
                }
            }
        }
        j += 1;
    }
    proof {
        assert(rv.skip(rows@.len() - 1) =~= Seq::<Seq<PageCellV>>::empty());
    }
}

/// One engram detail page, as the host hands it over: the heading's text
/// and the texts of the copyable command boxes.
pub struct EngramPage {
    pub title: Option<String>,
    pub commands: Vec<String>,
}

#[verifier::ext_equal]
pub ghost struct EngramPageV {
    pub title: Option<Seq<char>>,
    pub commands: Seq<Seq<char>>,
}

impl View for EngramPage {
    type V = EngramPageV;

    open spec fn view(&self) -> EngramPageV {
        EngramPageV {
            title: match self.title {
                Some(t) => Some(t@),
                None => None,
            },
            commands: self.commands@.map_values(|c: String| c@),
        }
    }
}

/// The first command text that mentions a blueprint.
pub open spec fn first_blueprint_command(cmds: Seq<Seq<char>>) -> Option<Seq<char>>
    decreases cmds.len(),
{
    if cmds.len() == 0 {
        None
    } else if contains_seq(cmds[0], "Blueprint"@) {
        Some(cmds[0])
    } else {
        first_blueprint_command(cmds.drop_first())
    }
}

/// The blueprint a detail page carries, or the sentinel when none is
/// found or it cannot be read.
pub open spec fn engram_blueprint_spec(cmds: Seq<Seq<char>>) -> Seq<char> {
    match first_blueprint_command(cmds) {
        None => "Unknown"@,
        Some(c) => match blueprint_spec(c) {
            Some(bp) => bp,
            None => "Unknown"@,
        },
    }
}

/// The record one detail page yields: nothing without a heading or for a
/// skipped name; otherwise the cleaned heading keyed with underscores,
/// the class name from the index or a fallback built from the key.
pub open spec fn engram_from_page_spec(
    page: EngramPageV,
    class_names: Seq<(Seq<char>, Seq<char>)>,
) -> Option<(Seq<char>, EngramV)> {
    match page.title {
        None => None,
        Some(t) => {
            let name = clean_name_spec(t);
            if skip_engram_spec(name) {
                None
            } else {
                let blueprint = engram_blueprint_spec(page.commands);
                let key = replace_char(name, ' ', '_');
                let class_name = match key_lookup(class_names, name) {
                    Some(c) => c,
                    None => "EngramEntry_"@ + key + "_C"@,
                };
                Some(
                    (
                        key,
                        EngramV {
                            kind: "engram"@,
                            name: name,
                            mod_name: mod_name_spec(blueprint),
                            blueprint: blueprint,
                            class_name: class_name,
                        },
                    ),
                )
            }
        },
    }
}

/// Reads one engram detail page against the class-name index.
pub fn engram_from_page(page: &EngramPage, class_names: &CategoryMap<String>) -> (r: Option<
    (String, Engram),
>)
    ensures
        match r {
            Some(kv) => engram_from_page_spec(page@, class_names@) == Some((kv.0@, kv.1@)),
            None => engram_from_page_spec(page@, class_names@) is None,
        },
{
    let title = match &page.title {
        None => {
            return None;
        },
        Some(t) => t,
    };
    let name = clean_name(title.as_str());
    if should_skip_engram(name.as_str()) {
        return None;
    }
    let blueprint = engram_blueprint(&page.commands);
    let key_chars = chars_replace(&chars_of(name.as_str()), ' ', '_');
    let key = string_of(&key_chars);
    let class_name: String = match class_names.get(name.as_str()) {
        Some(c) => c.clone(),
        None => {
            let mut f = chars_of("EngramEntry_");
            let mut kc = chars_replace(&chars_of(name.as_str()), ' ', '_');
            f.append(&mut kc);
            let mut suffix = chars_of("_C");
            f.append(&mut suffix);
            string_of(&f)
        },
    };
    let mod_name = extract_mod_name(blueprint.as_str());
    Some(
        (
            key,
            Engram { kind: "engram".to_owned(), name, mod_name, blueprint, class_name },
        ),
    )
}

/// Finds the blueprint among a page's command texts.
fn engram_blueprint(commands: &Vec<String>) -> (r: String)
    ensures
        r@ == engram_blueprint_spec(commands@.map_values(|c: String| c@)),
{
    let ghost cv = commands@.map_values(|c: String| c@);
    let pat = chars_of("Blueprint");
    let mut i: usize = 0;
    proof {
        assert(cv.skip(0) =~= cv);
    }
    while i < commands.len()
        invariant
            i <= commands@.len(),
            cv == commands@.map_values(|c: String| c@),
            pat@ == "Blueprint"@,
            first_blueprint_command(cv) == first_blueprint_command(cv.skip(i as int)),
        decreases commands@.len() - i,
    {
        proof {
            assert(cv.skip(i as int)[0] == cv[i as int]);
            assert(cv.skip(i as int).drop_first() =~= cv.skip(i + 1));
        }
        let c = chars_of(commands[i].as_str());
        if contains_chars(&c, &pat) {
            match extract_blueprint(commands[i].as_str()) {
                Some(bp) => {
                    return bp;
                },
                None => {
                    return "Unknown".to_owned();
                },
            }
        }
        i += 1;
    }
    proof {
        assert(cv.skip(commands@.len() as int) =~= Seq::<Seq<char>>::empty());
    }
    "Unknown".to_owned()
}

/// Folds one completed detail-page result into the engram map; the host
/// calls this once per completion, in completion order, so insertions
/// never race.
pub fn insert_engram_result(m: &mut CategoryMap<Engram>, result: Option<(String, Engram)>)
    requires
        old(m).wf(),
    ensures
        final(m).wf(),
        final(m)@ == match result {
            Some(kv) => key_update(old(m)@, kv.0@, kv.1@),
            None => old(m)@,
        },
{
    match result {
        Some(kv) => {
            m.insert(kv.0, kv.1);
        },
        None => {},
    }
}

} // verus!
