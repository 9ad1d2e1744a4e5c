//! Extraction rules for the icon category: a newline-delimited manifest of
//! file paths, each filename stem becoming key and name.
use crate::category_map::{key_update, CategoryMap};
use crate::text::{after_last, chars_of, prefix_before, string_of, take_after_last, take_before};
use crate::types::{Icon, IconV};
use vstd::prelude::*;

verus! {

/// The pieces of `s` between newlines; always at least one piece.
pub open spec fn split_nl(s: Seq<char>) -> Seq<Seq<char>>
    decreases s.len(),
{
    if s.len() == 0 {
        seq![Seq::<char>::empty()]
    } else if s[0] == '\n' {
        seq![Seq::<char>::empty()] + split_nl(s.drop_first())
    } else {
        let r = split_nl(s.drop_first());
        seq![seq![s[0]] + r[0]] + r.drop_first()
    }
}

/// A line without its trailing carriage return.
pub open spec fn strip_cr(l: Seq<char>) -> Seq<char> {
    if l.len() > 0 && l.last() == '\r' {
        l.drop_last()
    } else {
        l
    }
}

/// The lines of a text: newline-separated pieces, a final empty piece
/// dropped, each piece stripped of a trailing carriage return.
pub open spec fn lines_spec(s: Seq<char>) -> Seq<Seq<char>> {
    let p = split_nl(s);
    let q = if p.last().len() == 0 {
        p.drop_last()
    } else {
        p
    };
    q.map_values(|l: Seq<char>| strip_cr(l))
}

proof fn lemma_split_nl_nonempty(s: Seq<char>)
    ensures
        split_nl(s).len() >= 1,
    decreases s.len(),
{
    if s.len() > 0 {
        lemma_split_nl_nonempty(s.drop_first());
    }
}

/// Splits a text into lines.
fn lines_of(content: &str) -> (r: Vec<String>)
    ensures
        r@.map_values(|l: String| l@) == lines_spec(content@),
{
    let v = chars_of(content);
    let n = v.len();
    let mut out: Vec<String> = Vec::new();
    let ghost mut pieces: Seq<Seq<char>> = Seq::empty();
    let mut cur: Vec<char> = Vec::new();
    let mut i: usize = 0;
    proof {
        assert(v@.skip(0) =~= v@);
    }
    while i < n
        invariant
            i <= n,
            n == v@.len(),
            split_nl(v@) =~= ({
                let r = split_nl(v@.skip(i as int));
                pieces + seq![cur@ + r[0]] + r.drop_first()
            }),
            out@.len() == pieces.len(),
            forall|k: int| 0 <= k < pieces.len() ==> out@[k]@ == strip_cr(pieces[k]),
        decreases n - i,
    {
        let ghost rest = v@.skip(i as int);
        proof {
            assert(rest.drop_first() =~= v@.skip(i + 1));
            lemma_split_nl_nonempty(v@.skip(i + 1));
        }
        if v[i] == '\n' {
            let ghost piece = cur@;
            let done = finish_line(cur);
            cur = Vec::new();
            out.push(done);
            proof {
                pieces = pieces.push(piece);
                assert(split_nl(rest) == seq![Seq::<char>::empty()] + split_nl(v@.skip(i + 1)));
                let r2 = split_nl(v@.skip(i + 1));
                assert(split_nl(v@) =~= pieces + seq![cur@ + r2[0]] + r2.drop_first()) by {
                    assert(split_nl(rest)[0] =~= Seq::<char>::empty());
                    assert(split_nl(rest).drop_first() =~= r2);
                    assert(cur@ + r2[0] =~= r2[0]);
                }
            }
        } else {
            let ghost r2 = split_nl(v@.skip(i + 1));
            proof {
                assert(split_nl(rest) == seq![seq![rest[0]] + r2[0]] + r2.drop_first());
                assert(rest[0] == v@[i as int]);
                assert(split_nl(rest)[0] =~= seq![v@[i as int]] + r2[0]);
                assert(split_nl(rest).drop_first() =~= r2.drop_first());
                assert(cur@ + split_nl(rest)[0] =~= cur@.push(v@[i as int]) + r2[0]);
            }
            cur.push(v[i]);
        }
        i += 1;
    }
    proof {
        assert(v@.skip(n as int) =~= Seq::<char>::empty());
        assert(split_nl(Seq::<char>::empty()) == seq![Seq::<char>::empty()]);
        assert(split_nl(v@) =~= pieces.push(cur@)) by {
            let r = split_nl(Seq::<char>::empty());
            assert(r.drop_first() =~= Seq::<Seq<char>>::empty());
            assert(cur@ + r[0] =~= cur@);
            assert(pieces + seq![cur@] + Seq::<Seq<char>>::empty() =~= pieces.push(cur@));
        }
    }
    if cur.len() > 0 {
        let ghost piece = cur@;
        let done = finish_line(cur);
        out.push(done);
        proof {
            pieces = pieces.push(piece);
            assert(split_nl(v@).last() == piece);
            assert(split_nl(v@).len() >= 1) by {
                lemma_split_nl_nonempty(v@);
            }
            assert(split_nl(v@) =~= pieces);
            assert(lines_spec(content@) =~= out@.map_values(|l: String| l@)) by {
                assert(forall|k: int|
                    0 <= k < pieces.len() ==> out@[k]@ == strip_cr(pieces[k]));
            }
        }
    } else {
        proof {
            assert(split_nl(v@).last() =~= Seq::<char>::empty());
            assert(split_nl(v@).drop_last() =~= pieces);
            assert(lines_spec(content@) =~= out@.map_values(|l: String| l@)) by {
                assert(split_nl(v@).last().len() == 0);
                assert(forall|k: int|
                    0 <= k < pieces.len() ==> out@[k]@ == strip_cr(pieces[k]));
            }
        }
    }
    out
}

/// Finishes one line: strips a trailing carriage return.
fn finish_line(cur: Vec<char>) -> (r: String)
    ensures
        r@ == strip_cr(cur@),
{
    let ghost c0 = cur@;
    let mut c = cur;
    if c.len() > 0 {
        let last = c[c.len() - 1];
        if last == '\r' {
            c.pop();
            proof {
                assert(c@ =~= c0.drop_last());
            }
        }
    }
    string_of(&c)
}

/// The record one manifest line yields: the stem between the last slash
/// and the first dot after it is both key and name.
pub open spec fn icon_from_line(line: Seq<char>) -> (Seq<char>, IconV) {
    let stem = prefix_before(after_last(line, '/'), '.');
    (stem, IconV { kind: "icon"@, name: stem, path: line })
}

/// The icon map after folding the manifest lines into `acc`.
pub open spec fn icons_lines_fold(
    lines: Seq<Seq<char>>,
    acc: Seq<(Seq<char>, IconV)>,
) -> Seq<(Seq<char>, IconV)>
    decreases lines.len(),
{
    if lines.len() == 0 {
        acc
    } else {
        let kv = icon_from_line(lines[0]);
        icons_lines_fold(lines.drop_first(), key_update(acc, kv.0, kv.1))
    }
}

/// What icon extraction produces for a whole manifest.
pub open spec fn icons_extract_spec(content: Seq<char>) -> Seq<(Seq<char>, IconV)> {
    icons_lines_fold(lines_spec(content), Seq::empty())
}

/// Icon extraction over the manifest text: the verified heart of the icon
/// stage.
pub fn icons_from_manifest(content: &str) -> (m: CategoryMap<Icon>)
    ensures
        m.wf(),
        m@ == icons_extract_spec(content@),
{
    let lines = lines_of(content);
    let ghost lv = lines@.map_values(|l: String| l@);
    let mut m = CategoryMap::<Icon>::new();
    let mut i: usize = 0;
    proof {
        assert(lv.skip(0) =~= lv);
    }
    while i < lines.len()
        invariant
            i <= lines@.len(),
            lv == lines@.map_values(|l: String| l@),
            m.wf(),
            icons_lines_fold(lv, Seq::empty()) == icons_lines_fold(lv.skip(i as int), m@),
        decreases lines@.len() - i,
    {
        proof {
            assert(lv.skip(i as int)[0] == lv[i as int]);
            assert(lv.skip(i as int).drop_first() =~= lv.skip(i + 1));
        }
        let line = &lines[i];
        let lc = chars_of(line.as_str());
        let seg = take_after_last(&lc, '/');
        let stem = take_before(&seg, '.');
        let name = string_of(&stem);
        let key = string_of(&stem);
        m.insert(key, Icon { kind: "icon".to_owned(), name, path: line.clone() });
        i += 1;
    }
    proof {
        assert(lv.skip(lines@.len() as int) =~= Seq::<Seq<char>>::empty());
    }
    m
}

} // verus!
