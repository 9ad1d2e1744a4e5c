//! Extraction rules for the beacon category: rows of the beacon tables
//! yield one record per class name found in the markup of the second
//! cell, with a "(Double)" suffix distinguishing repeats.
use crate::category_map::{insert_all, key_update, CategoryMap};
use crate::common::{clean_name, clean_name_spec};
use crate::page::{behind_header, nodes_view, rows_view, PageCellV, PageNode, PageNodeV, TableRow};
use crate::text::{
    chars_of, chars_replace, contains_chars, contains_seq, replace_char, str_contains, string_of,
};
use crate::types::{Beacon, BeaconV};
use vstd::prelude::*;

verus! {

/// A beacon name containing any of these fragments is left out.
pub open spec fn skip_beacon_spec(name: Seq<char>) -> bool {
    ||| contains_seq(name, "Genesis_2_"@)
    ||| contains_seq(name, "Genesis_1_Fishing"@)
    ||| contains_seq(name, "Choose_Your_Own_Adventure"@)
    ||| contains_seq(name, "Team_Downriver_Run"@)
    ||| contains_seq(name, "Starwing_Strike"@)
    ||| contains_seq(name, "Star_Dolphin"@)
    ||| contains_seq(name, "Slipstream_Sweep"@)
    ||| contains_seq(name, "Slide_and_Glide"@)
}

/// The beacon skip list: mission crates of the newer DLCs are dropped.
pub fn should_skip_beacon(name: &str) -> (r: bool)
    ensures
        r == skip_beacon_spec(name@),
{
    str_contains(name, "Genesis_2_") || str_contains(name, "Genesis_1_Fishing") || str_contains(
        name,
        "Choose_Your_Own_Adventure",
    ) || str_contains(name, "Team_Downriver_Run") || str_contains(name, "Starwing_Strike")
        || str_contains(name, "Star_Dolphin") || str_contains(name, "Slipstream_Sweep")
        || str_contains(name, "Slide_and_Glide")
}

/// A character that separates class names inside a cell's markup.
pub open spec fn is_break(c: char) -> bool {
    c == '\n' || c == '<'
}

/// The pieces of a cell's markup between newlines and tag openers.
pub open spec fn split_breaks(s: Seq<char>) -> Seq<Seq<char>>
    decreases s.len(),
{
    if s.len() == 0 {
        seq![Seq::<char>::empty()]
    } else if is_break(s[0]) {
        seq![Seq::<char>::empty()] + split_breaks(s.drop_first())
    } else {
        let r = split_breaks(s.drop_first());
        seq![seq![s[0]] + r[0]] + r.drop_first()
    }
}

proof fn lemma_split_breaks_nonempty(s: Seq<char>)
    ensures
        split_breaks(s).len() >= 1,
    decreases s.len(),
{
    if s.len() > 0 {
        lemma_split_breaks_nonempty(s.drop_first());
    }
}

/// The class names a cell's markup carries: the pieces holding the class
/// suffix marker, cleaned.
pub open spec fn class_list_spec(html: Seq<char>) -> Seq<Seq<char>> {
    split_breaks(html).filter(|p: Seq<char>| contains_seq(p, "_C"@)).map_values(
        |p: Seq<char>| clean_name_spec(p),
    )
}

/// Splits a cell's markup into pieces at newlines and tag openers.
fn split_breaks_of(v: &Vec<char>) -> (r: Vec<String>)
    ensures
        r@.len() == split_breaks(v@).len(),
        forall|k: int| 0 <= k < r@.len() ==> r@[k]@ == split_breaks(v@)[k],
{
    let n = v.len();
    let mut out: Vec<String> = Vec::new();
    let ghost mut pieces: Seq<Seq<char>> = Seq::empty();
    let mut cur: Vec<char> = Vec::new();
    let mut i: usize = 0;
    proof {
        assert(v@.skip(0) =~= v@);
    }
    while i < n
        invariant
            i <= n,
            n == v@.len(),
            split_breaks(v@) =~= ({
                let r = split_breaks(v@.skip(i as int));
                pieces + seq![cur@ + r[0]] + r.drop_first()
            }),
            out@.len() == pieces.len(),
            forall|k: int| 0 <= k < pieces.len() ==> out@[k]@ == pieces[k],
        decreases n - i,
    {
        let ghost rest = v@.skip(i as int);
        proof {
            assert(rest.drop_first() =~= v@.skip(i + 1));
            lemma_split_breaks_nonempty(v@.skip(i + 1));
        }
        let c = v[i];
        if c == '\n' || c == '<' {
            let ghost piece = cur@;
            let done = string_of(&cur);
            cur = Vec::new();
            out.push(done);
            proof {
                pieces = pieces.push(piece);
                let r2 = split_breaks(v@.skip(i + 1));
                assert(split_breaks(rest) == seq![Seq::<char>::empty()] + r2);
                assert(split_breaks(v@) =~= pieces + seq![cur@ + r2[0]] + r2.drop_first()) by {
                    assert(split_breaks(rest)[0] =~= Seq::<char>::empty());
                    assert(split_breaks(rest).drop_first() =~= r2);
                    assert(cur@ + r2[0] =~= r2[0]);
                }
            }
        } else {
            let ghost r2 = split_breaks(v@.skip(i + 1));
            proof {
                assert(split_breaks(rest) == seq![seq![rest[0]] + r2[0]] + r2.drop_first());
                assert(rest[0] == v@[i as int]);
                assert(split_breaks(rest)[0] =~= seq![v@[i as int]] + r2[0]);
                assert(split_breaks(rest).drop_first() =~= r2.drop_first());
                assert(cur@ + split_breaks(rest)[0] =~= cur@.push(v@[i as int]) + r2[0]);
            }
            cur.push(v[i]);
        }
        i += 1;
    }
    let done = string_of(&cur);
    out.push(done);
    proof {
        pieces = pieces.push(cur@);
        assert(v@.skip(n as int) =~= Seq::<char>::empty());
        assert(split_breaks(Seq::<char>::empty()) == seq![Seq::<char>::empty()]);
        assert(split_breaks(v@) =~= pieces) by {
            let r = split_breaks(Seq::<char>::empty());
            assert(r.drop_first() =~= Seq::<Seq<char>>::empty());
            assert(cur@ + r[0] =~= cur@);
        }
    }
    out
}

/// Reads the class names out of a cell's markup.
fn classes_of_markup(html: &str) -> (r: Vec<String>)
    ensures
        r@.map_values(|s: String| s@) == class_list_spec(html@),
{
    let hv = chars_of(html);
    let pieces = split_breaks_of(&hv);
    let ghost ps = split_breaks(hv@);
    let pat = chars_of("_C");
    let mut out: Vec<String> = Vec::new();
    let mut k: usize = 0;
    let ghost pred = |p: Seq<char>| contains_seq(p, "_C"@);
    proof {
        assert(ps.subrange(0, 0) =~= Seq::<Seq<char>>::empty());
        assert(ps.subrange(0, 0).filter(pred) =~= Seq::<Seq<char>>::empty());
    }
    while k < pieces.len()
        invariant
            k <= pieces@.len(),
            pieces@.len() == ps.len(),
            forall|t: int| 0 <= t < ps.len() ==> pieces@[t]@ == ps[t],
            pat@ == "_C"@,
            pred == (|p: Seq<char>| contains_seq(p, "_C"@)),
            out@.len() == ps.subrange(0, k as int).filter(pred).len(),
            forall|t: int| 0 <= t < out@.len() ==> out@[t]@ == clean_name_spec(
                #[trigger] ps.subrange(0, k as int).filter(pred)[t],
            ),
        decreases pieces@.len() - k,
    {
        let pv = chars_of(pieces[k].as_str());
        proof {
            reveal_with_fuel(Seq::filter, 2);
            assert(ps.subrange(0, k + 1).drop_last() =~= ps.subrange(0, k as int));
            assert(ps.subrange(0, k + 1).last() == ps[k as int]);
            assert(pv@ == ps[k as int]);
        }
        let ghost out0 = out@;
        if contains_chars(&pv, &pat) {
            let cleaned = clean_name(pieces[k].as_str());
            out.push(cleaned);
        }
        proof {
            reveal_with_fuel(Seq::filter, 2);
            let pre = ps.subrange(0, k as int);
            let post = ps.subrange(0, k + 1);
            if pred(ps[k as int]) {
                assert(post.filter(pred) == pre.filter(pred).push(ps[k as int]));
                assert(out@ == out0.push(out@.last()));
                assert(forall|t: int| 0 <= t < out0.len() ==> out@[t] == out0[t]);
                assert(forall|t: int|
                    0 <= t < pre.filter(pred).len() ==> #[trigger] post.filter(pred)[t]
                        == pre.filter(pred)[t]);
            } else {
                assert(post.filter(pred) == pre.filter(pred));
            }
        }
        k += 1;
    }
    proof {
        assert(ps.subrange(0, ps.len() as int) =~= ps);
        let f = ps.filter(pred);
        assert(out@.map_values(|s: String| s@) =~= f.map_values(|p: Seq<char>| clean_name_spec(p)))
            by {
            assert(forall|t: int| 0 <= t < out@.len() ==> out@[t]@ == clean_name_spec(
                #[trigger] f[t],
            ));
        }
    }
    out
}

/// One beacon record: the display name carries a "(Double)" marker past
/// the first class, and the key prefixes the mod.
pub open spec fn beacon_entry(
    name: Seq<char>,
    cur_mod: Seq<char>,
    class_name: Seq<char>,
    idx: int,
) -> (Seq<char>, BeaconV) {
    let display = if idx > 0 {
        name + " (Double)"@
    } else {
        name
    };
    (
        replace_char(cur_mod, ' ', '_') + seq!['_'] + replace_char(display, ' ', '_'),
        BeaconV { kind: "beacon"@, name: display, mod_name: cur_mod, class_name: class_name },
    )
}

/// The records one data row yields: none for narrow rows or skipped
/// names, one per class name otherwise.
pub open spec fn beacon_entries_from_row(row: Seq<PageCellV>, cur_mod: Seq<char>) -> Seq<
    (Seq<char>, BeaconV),
> {
    if row.len() < 2 {
        Seq::empty()
    } else {
        let name = clean_name_spec(row[0].text);
        if skip_beacon_spec(name) {
            Seq::empty()
        } else {
            let classes = class_list_spec(row[1].html);
            Seq::new(classes.len(), |idx: int| beacon_entry(name, cur_mod, classes[idx], idx))
        }
    }
}

/// The beacon map after folding a table's data rows into `acc`.
pub open spec fn beacons_rows_fold(
    rows: Seq<Seq<PageCellV>>,
    acc: Seq<(Seq<char>, BeaconV)>,
    cur_mod: Seq<char>,
) -> Seq<(Seq<char>, BeaconV)>
    decreases rows.len(),
{
    if rows.len() == 0 {
        acc
    } else {
        beacons_rows_fold(
            rows.drop_first(),
            insert_all(acc, beacon_entries_from_row(rows[0], cur_mod)),
            cur_mod,
        )
    }
}

/// The beacon map after walking the page: headings switch the current mod
/// (their cleaned text), tables contribute their rows behind the header.
pub open spec fn beacons_nodes_fold(
    nodes: Seq<PageNodeV>,
    acc: Seq<(Seq<char>, BeaconV)>,
    cur_mod: Seq<char>,
) -> Seq<(Seq<char>, BeaconV)>
    decreases nodes.len(),
{
    if nodes.len() == 0 {
        acc
    } else {
        match nodes[0] {
            PageNodeV::Heading(h) => beacons_nodes_fold(
                nodes.drop_first(),
                acc,
                clean_name_spec(h),
            ),
            PageNodeV::Table(rows) => beacons_nodes_fold(
                nodes.drop_first(),
                beacons_rows_fold(behind_header(rows), acc, cur_mod),
                cur_mod,
            ),
        }
    }
}

/// What beacon extraction produces for a whole page.
pub open spec fn beacons_extract_spec(nodes: Seq<PageNodeV>) -> Seq<(Seq<char>, BeaconV)> {
    beacons_nodes_fold(nodes, Seq::empty(), "Ark"@)
}

/// Folds one table's data rows into the beacon map.
fn beacons_from_rows(rows: &Vec<TableRow>, cur_mod: &String, m: &mut CategoryMap<Beacon>)
    requires
        old(m).wf(),
    ensures
        final(m).wf(),
        final(m)@ == beacons_rows_fold(behind_header(rows_view(rows@)), old(m)@, cur_mod@),
{
    let ghost rv = behind_header(rows_view(rows@));
    if rows.len() == 0 {
        return ;
    }
    let mut j: usize = 1;
    proof {
        assert(rv =~= rows_view(rows@).drop_first());
        assert(rv.skip(0) =~= rv);
    }
    while j < rows.len()
        invariant
            1 <= j,
            j <= rows@.len(),
            rows@.len() >= 1,
            m.wf(),
            rv == behind_header(rows_view(rows@)),
            rv.len() == rows@.len() - 1,
            beacons_rows_fold(rv, old(m)@, cur_mod@) == beacons_rows_fold(
                rv.skip(j - 1),
                m@,
                cur_mod@,
            ),
        decreases rows@.len() - j,
    {
        proof {
            assert(rv.skip(j - 1)[0] == rv[j - 1]);
            assert(rv[j - 1] == rows@[j as int]@);
            assert(rv.skip(j - 1).drop_first() =~= rv.skip(j as int));
        }
        let row = &rows[j];
        let ghost rw = rows@[j as int]@;
        if row.cells.len() >= 2 {
            let name = clean_name(row.cells[0].text.as_str());
            proof {
                assert(rw[0] == row.cells@[0]@);
                assert(rw[1] == row.cells@[1]@);
            }
            if !should_skip_beacon(name.as_str()) {
                let classes = classes_of_markup(row.cells[1].html.as_str());
                let ghost entries = beacon_entries_from_row(rw, cur_mod@);
                let ghost cs = class_list_spec(rw[1].html);
                proof {
                    assert(entries.len() == cs.len());
                }
                let mut idx: usize = 0;
                let ghost m0 = m@;
                proof {
                    assert(entries.skip(0) =~= entries);
                }
                while idx < classes.len()
                    invariant
                        idx <= classes@.len(),
                        classes@.map_values(|s: String| s@) == cs,
                        entries == beacon_entries_from_row(rw, cur_mod@),
                        entries.len() == cs.len(),
                        entries == Seq::new(
                            cs.len(),
                            |t: int| beacon_entry(clean_name_spec(rw[0].text), cur_mod@, cs[t], t),
                        ),
                        name@ == clean_name_spec(rw[0].text),
                        m.wf(),
                        insert_all(m0, entries) == insert_all(m@, entries.skip(idx as int)),
                    decreases classes@.len() - idx,
                {
                    proof {
                        assert(entries.skip(idx as int)[0] == entries[idx as int]);
                        assert(entries.skip(idx as int).drop_first() =~= entries.skip(idx + 1));
                        assert(cs[idx as int] == classes@[idx as int]@);
                    }
                    let display: String = if idx > 0 {
                        name.clone().concat(" (Double)")
                    } else {
                        name.clone()
                    };
                    let mut kc = chars_replace(&chars_of(cur_mod.as_str()), ' ', '_');
                    kc.push('_');
                    let mut dc = chars_replace(&chars_of(display.as_str()), ' ', '_');
                    kc.append(&mut dc);
                    proof {
                        assert(kc@ =~= entries[idx as int].0);
                    }
                    let key = string_of(&kc);
                    m.insert(
                        key,
                        Beacon {
                            kind: "beacon".to_owned(),
                            name: display,
                            mod_name: cur_mod.clone(),
                            class_name: classes[idx].clone(),
                        },
                    );
                    idx += 1;
                }
                proof {
                    assert(entries.skip(entries.len() as int) =~= Seq::<
                        (Seq<char>, BeaconV),
                    >::empty());
                }
            }
        }
        j += 1;
    }
    proof {
        assert(rv.skip(rows@.len() - 1) =~= Seq::<Seq<PageCellV>>::empty());
    }
}

/// Beacon extraction over a whole page model: the verified heart of the
/// beacon stage.
pub fn beacons_from_page(nodes: &Vec<PageNode>) -> (m: CategoryMap<Beacon>)
    ensures
        m.wf(),
        m@ == beacons_extract_spec(nodes_view(nodes@)),
{
    let mut m = CategoryMap::<Beacon>::new();
    let mut cur_mod: String = "Ark".to_owned();
    proof {
        assert(nodes_view(nodes@).skip(0) =~= nodes_view(nodes@));
    }
    let mut i: usize = 0;
    while i < nodes.len()
        invariant
            i <= nodes@.len(),
            m.wf(),
            beacons_extract_spec(nodes_view(nodes@)) == beacons_nodes_fold(
                nodes_view(nodes@).skip(i as int),
                m@,
                cur_mod@,
            ),
        decreases nodes@.len() - i,
    {
        let ghost nv = nodes_view(nodes@);
        proof {
            assert(nv.skip(i as int)[0] == nv[i as int]);
            assert(nv[i as int] == nodes@[i as int]@);
            assert(nv.skip(i as int).drop_first() =~= nv.skip(i + 1));
        }
        match &nodes[i] {
            PageNode::Heading(h) => {
                cur_mod = clean_name(h.as_str());
            },
            PageNode::Table(rows) => {
                beacons_from_rows(rows, &cur_mod, &mut m);
            },
        }
        i += 1;
    }
    proof {
        assert(nodes_view(nodes@).skip(nodes@.len() as int) =~= Seq::<PageNodeV>::empty());
    }
    m
}

} // verus!
