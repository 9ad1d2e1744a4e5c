//! Name cleaning, mod/DLC attribution and blueprint extraction, shared by
//! every category's extraction rules.
use crate::text::{
    chars_of, chars_remove, contains_chars, contains_seq, matches_at, prefix_before, remove_char,
    string_of, take_before,
};
use vstd::prelude::*;

verus! {

/// The wiki all category pages are fetched from.
pub const BASE_URL: &'static str = "https://ark.wiki.gg";

/// ASCII whitespace as the name cleaner understands it.
pub open spec fn is_space(c: char) -> bool {
    c == ' ' || c == '\t' || c == '\n' || c == '\r'
}

fn is_space_exec(c: char) -> (r: bool)
    ensures
        r == is_space(c),
{
    c == ' ' || c == '\t' || c == '\n' || c == '\r'
}

/// `s` without its leading whitespace.
pub open spec fn trim_start(s: Seq<char>) -> Seq<char>
    decreases s.len(),
{
    if s.len() > 0 && is_space(s[0]) {
        trim_start(s.drop_first())
    } else {
        s
    }
}

/// `s` without its trailing whitespace.
pub open spec fn trim_end(s: Seq<char>) -> Seq<char>
    decreases s.len(),
{
    if s.len() > 0 && is_space(s.last()) {
        trim_end(s.drop_last())
    } else {
        s
    }
}

/// `s` without leading or trailing whitespace.
pub open spec fn trim_spec(s: Seq<char>) -> Seq<char> {
    trim_end(trim_start(s))
}

proof fn lemma_trim_start_skip(s: Seq<char>, i: int)
    requires
        0 <= i <= s.len(),
        forall|j: int| 0 <= j < i ==> is_space(s[j]),
        i < s.len() ==> !is_space(s[i]),
    ensures
        trim_start(s) == s.skip(i),
    decreases i,
{
    if i == 0 {
        assert(s.skip(0) =~= s);
    } else {
        assert(is_space(s[0]));
        assert(s.drop_first() =~= s.skip(1));
        assert(forall|j: int| 0 <= j < i - 1 ==> is_space(s.skip(1)[j]));
        lemma_trim_start_skip(s.skip(1), i - 1);
        assert(s.skip(1).skip(i - 1) =~= s.skip(i));
    }
}

proof fn lemma_trim_end_take(s: Seq<char>, e: int)
    requires
        0 <= e <= s.len(),
        forall|j: int| e <= j < s.len() ==> is_space(s[j]),
        e > 0 ==> !is_space(s[e - 1]),
    ensures
        trim_end(s) == s.take(e),
    decreases s.len(),
{
    if e == s.len() {
        if s.len() > 0 && is_space(s.last()) {
            assert(!is_space(s[e - 1]));
        }
        assert(s.take(e) =~= s);
    } else {
        assert(is_space(s.last()));
        assert(s.drop_last() =~= s.take(s.len() - 1));
        assert(forall|j: int| e <= j < s.drop_last().len() ==> is_space(s.drop_last()[j]));
        assert(e > 0 ==> !is_space(s.drop_last()[e - 1]));
        lemma_trim_end_take(s.drop_last(), e);
        assert(s.drop_last().take(e) =~= s.take(e));
    }
}

/// Strips leading and trailing whitespace.
fn trim_chars(v: &Vec<char>) -> (r: Vec<char>)
    ensures
        r@ == trim_spec(v@),
{
    let n = v.len();
    let mut start: usize = 0;
    while start < n && is_space_exec(v[start])
        invariant
            start <= n,
            n == v@.len(),
            forall|j: int| 0 <= j < start ==> is_space(v@[j]),
        decreases n - start,
    {
        start += 1;
    }
    proof {
        lemma_trim_start_skip(v@, start as int);
    }
    let mut end: usize = n;
    while end > start && is_space_exec(v[end - 1])
        invariant
            start <= end <= n,
            n == v@.len(),
            forall|j: int| end <= j < n ==> is_space(v@[j]),
        decreases end,
    {
        end -= 1;
    }
    proof {
        let t = v@.skip(start as int);
        assert(forall|j: int| end - start <= j < t.len() ==> is_space(t[j]));
        assert(end > start ==> !is_space(t[end - start - 1]));
        lemma_trim_end_take(t, end - start);
    }
    let mut r: Vec<char> = Vec::new();
    let mut i: usize = start;
    while i < end
        invariant
            start <= i <= end <= n,
            n == v@.len(),
            r@ == v@.subrange(start as int, i as int),
        decreases end - i,
    {
        r.push(v[i]);
        assert(r@ =~= v@.subrange(start as int, i + 1));
        i += 1;
    }
    proof {
        assert(v@.skip(start as int).take(end - start) =~= v@.subrange(start as int, end as int));
    }
    r
}

/// Each pair of adjacent spaces contracted to one, scanning left to right.
pub open spec fn collapse_double_spaces(s: Seq<char>) -> Seq<char>
    decreases s.len(),
{
    if s.len() >= 2 && s[0] == ' ' && s[1] == ' ' {
        seq![' '] + collapse_double_spaces(s.skip(2))
    } else if s.len() >= 1 {
        seq![s[0]] + collapse_double_spaces(s.drop_first())
    } else {
        s
    }
}

fn collapse_doubles(v: &Vec<char>) -> (r: Vec<char>)
    ensures
        r@ == collapse_double_spaces(v@),
{
    let n = v.len();
    let mut r: Vec<char> = Vec::new();
    let mut i: usize = 0;
    proof {
        assert(v@.skip(0) =~= v@);
        assert(Seq::<char>::empty() + collapse_double_spaces(v@) =~= collapse_double_spaces(v@));
    }
    while i < n
        invariant
            i <= n,
            n == v@.len(),
            collapse_double_spaces(v@) == r@ + collapse_double_spaces(v@.skip(i as int)),
        decreases n - i,
    {
        let ghost rest = v@.skip(i as int);
        if i + 1 < n && v[i] == ' ' && v[i + 1] == ' ' {
            proof {
                assert(rest.skip(2) =~= v@.skip(i + 2));
                assert(collapse_double_spaces(rest) == seq![' '] + collapse_double_spaces(
                    v@.skip(i + 2),
                ));
                assert((r@ + collapse_double_spaces(rest)) =~= (r@.push(' ')
                    + collapse_double_spaces(v@.skip(i + 2))));
            }
            r.push(' ');
            i += 2;
        } else {
            proof {
                assert(rest.drop_first() =~= v@.skip(i + 1));
                assert(collapse_double_spaces(rest) == seq![rest[0]] + collapse_double_spaces(
                    v@.skip(i + 1),
                ));
                assert((r@ + collapse_double_spaces(rest)) =~= (r@.push(v@[i as int])
                    + collapse_double_spaces(v@.skip(i + 1))));
            }
            r.push(v[i]);
            i += 1;
        }
    }
    proof {
        assert(v@.skip(n as int) =~= Seq::<char>::empty());
        assert(collapse_double_spaces(v@) =~= r@);
    }
    r
}

/// What `clean_name` computes: the part before any parenthesis, trimmed,
/// with newlines and carriage returns removed and adjacent double spaces
/// contracted, trimmed again.
pub open spec fn clean_name_spec(s: Seq<char>) -> Seq<char> {
    trim_spec(
        collapse_double_spaces(
            remove_char(remove_char(trim_spec(prefix_before(s, '(')), '\n'), '\r'),
        ),
    )
}

/// Normalizes a display name: drops a parenthesized suffix, stray line
/// breaks and doubled spaces, and surrounding whitespace.
pub fn clean_name(name: &str) -> (r: String)
    ensures
        r@ == clean_name_spec(name@),
{
    let v = chars_of(name);
    let v1 = take_before(&v, '(');
    let v2 = trim_chars(&v1);
    let v3 = chars_remove(&v2, '\n');
    let v4 = chars_remove(&v3, '\r');
    let v5 = collapse_doubles(&v4);
    let v6 = trim_chars(&v5);
    string_of(&v6)
}

/// The mod or DLC a blueprint path belongs to, decided by its known path
/// segments.
pub open spec fn mod_name_spec(bp: Seq<char>) -> Seq<char> {
    if contains_seq(bp, "/PrimalEarth/"@) {
        "Ark"@
    } else if contains_seq(bp, "/ScorchedEarth/"@) {
        "Scorched Earth"@
    } else if contains_seq(bp, "/Aberration/"@) {
        "Aberration"@
    } else if contains_seq(bp, "/Extinction/"@) {
        "Extinction"@
    } else if contains_seq(bp, "/Genesis/"@) {
        "Genesis"@
    } else if contains_seq(bp, "/Gen2/"@) {
        "Genesis 2"@
    } else if contains_seq(bp, "/Valguero/"@) {
        "Valguero"@
    } else if contains_seq(bp, "/CrystalIsles/"@) {
        "Crystal Isles"@
    } else if contains_seq(bp, "/Ragnarok/"@) {
        "Ragnarok"@
    } else if contains_seq(bp, "/TheCenter/"@) {
        "The Center"@
    } else if contains_seq(bp, "/LostIsland/"@) {
        "Lost Island"@
    } else if contains_seq(bp, "/Fjordur/"@) {
        "Fjordur"@
    } else {
        "Unknown"@
    }
}

/// Attributes a blueprint path to the base game, a DLC, or "Unknown".
pub fn extract_mod_name(blueprint: &str) -> (r: String)
    ensures
        r@ == mod_name_spec(blueprint@),
{
    let v = chars_of(blueprint);
    if contains_chars(&v, &chars_of("/PrimalEarth/")) {
        "Ark".to_owned()
    } else if contains_chars(&v, &chars_of("/ScorchedEarth/")) {
        "Scorched Earth".to_owned()
    } else if contains_chars(&v, &chars_of("/Aberration/")) {
        "Aberration".to_owned()
    } else if contains_chars(&v, &chars_of("/Extinction/")) {
        "Extinction".to_owned()
    } else if contains_chars(&v, &chars_of("/Genesis/")) {
        "Genesis".to_owned()
    } else if contains_chars(&v, &chars_of("/Gen2/")) {
        "Genesis 2".to_owned()
    } else if contains_chars(&v, &chars_of("/Valguero/")) {
        "Valguero".to_owned()
    } else if contains_chars(&v, &chars_of("/CrystalIsles/")) {
        "Crystal Isles".to_owned()
    } else if contains_chars(&v, &chars_of("/Ragnarok/")) {
        "Ragnarok".to_owned()
    } else if contains_chars(&v, &chars_of("/TheCenter/")) {
        "The Center".to_owned()
    } else if contains_chars(&v, &chars_of("/LostIsland/")) {
        "Lost Island".to_owned()
    } else if contains_chars(&v, &chars_of("/Fjordur/")) {
        "Fjordur".to_owned()
    } else {
        "Unknown".to_owned()
    }
}

/// The position of the first occurrence of `needle` at or after `i`.
pub open spec fn find_from(hay: Seq<char>, needle: Seq<char>, i: int) -> Option<int>
    recommends
        0 <= i,
    decreases hay.len() - i
        when i <= hay.len() && needle.len() > 0
{
    if i + needle.len() > hay.len() {
        None
    } else if matches_at(hay, needle, i) {
        Some(i)
    } else {
        find_from(hay, needle, i + 1)
    }
}

/// A character that ends the scan for a blueprint span: the closing
/// apostrophe, or a line break that voids the occurrence.
pub open spec fn is_stop(c: char) -> bool {
    c == '\'' || c == '\n'
}

/// The position of the first apostrophe or line break at or after `i`.
pub open spec fn find_stop_from(hay: Seq<char>, i: int) -> Option<int>
    recommends
        0 <= i,
    decreases hay.len() - i
        when i <= hay.len()
{
    if i >= hay.len() {
        None
    } else if is_stop(hay[i]) {
        Some(i)
    } else {
        find_stop_from(hay, i + 1)
    }
}

/// Scans for the first occurrence of `pat` in `v` at or after `from`.
fn find_pattern_from(v: &Vec<char>, pat: &Vec<char>, from: usize) -> (r: Option<usize>)
    requires
        pat@.len() > 0,
        from <= v@.len(),
    ensures
        match r {
            Some(i) => from <= i && i + pat@.len() <= v@.len() && find_from(v@, pat@, from as int)
                == Some(i as int),
            None => find_from(v@, pat@, from as int) is None,
        },
{
    let n = v.len();
    let m = pat.len();
    if m > n {
        return None;
    }
    let mut i = from;
    while i <= n - m
        invariant
            from <= i <= n,
            m <= n,
            m > 0,
            n == v@.len(),
            m == pat@.len(),
            find_from(v@, pat@, from as int) == find_from(v@, pat@, i as int),
        decreases n - i,
    {
        let mut k: usize = 0;
        while k < m && v[i + k] == pat[k]
            invariant
                k <= m,
                i + m <= n,
                n == v@.len(),
                m == pat@.len(),
                forall|t: int| 0 <= t < k ==> v@[i + t] == pat@[t],
            decreases m - k,
        {
            k += 1;
        }
        if k == m {
            proof {
                assert(v@.subrange(i as int, i + m) =~= pat@);
                assert(matches_at(v@, pat@, i as int));
            }
            return Some(i);
        }
        proof {
            assert(!matches_at(v@, pat@, i as int)) by {
                if matches_at(v@, pat@, i as int) {
                    assert(v@.subrange(i as int, i + m)[k as int] == pat@[k as int]);
                }
            }
        }
        i += 1;
    }
    None
}

/// Scans for the first apostrophe or line break at or after `from`.
fn find_stop(v: &Vec<char>, from: usize) -> (r: Option<usize>)
    requires
        from <= v@.len(),
    ensures
        match r {
            Some(i) => from <= i && i < v@.len() && find_stop_from(v@, from as int) == Some(
                i as int,
            ) && is_stop(v@[i as int]),
            None => find_stop_from(v@, from as int) is None,
        },
{
    let n = v.len();
    let mut i = from;
    while i < n
        invariant
            from <= i <= n,
            n == v@.len(),
            find_stop_from(v@, from as int) == find_stop_from(v@, i as int),
        decreases n - i,
    {
        if v[i] == '\'' || v[i] == '\n' {
            return Some(i);
        }
        i += 1;
    }
    None
}

/// What `extract_blueprint` returns when the search stands at `pos`: the
/// span from the next occurrence of the blueprint prefix through the
/// first apostrophe after it, provided no line break comes first; a line
/// break voids the occurrence and the search goes on behind `pos`.
pub open spec fn bp_from(s: Seq<char>, pos: int) -> Option<Seq<char>>
    recommends
        0 <= pos,
    decreases s.len() - pos
        when 0 <= pos
{
    let pre = "Blueprint'/Game/"@;
    match find_from(s, pre, pos) {
        None => None,
        Some(i) => match find_stop_from(s, i + pre.len()) {
            None => None,
            Some(j) => if s[j] == '\'' {
                Some(s.subrange(i, j + 1))
            } else if pos < s.len() {
                bp_from(s, pos + 1)
            } else {
                None
            },
        },
    }
}

/// What `extract_blueprint` returns: the first blueprint span whose
/// closing apostrophe stands on the same line as its prefix.
pub open spec fn blueprint_spec(s: Seq<char>) -> Option<Seq<char>> {
    bp_from(s, 0)
}

/// Extracts the first substring of the form `Blueprint'/Game/...'`. The
/// span closes at the first apostrophe after the prefix; an occurrence
/// broken by a line break before that apostrophe is passed over.
pub fn extract_blueprint(text: &str) -> (r: Option<String>)
    ensures
        match r {
            Some(bp) => blueprint_spec(text@) == Some(bp@),
            None => blueprint_spec(text@) is None,
        },
{
    let v = chars_of(text);
    let pat = chars_of("Blueprint'/Game/");
    let vn = v.len();
    proof {
        reveal_strlit("Blueprint'/Game/");
        assert(v@.skip(0) =~= v@);
    }
    let mut pos: usize = 0;
    while pos <= vn
        invariant
            pos <= vn,
            vn == v@.len(),
            v@ == text@,
            pat@ == "Blueprint'/Game/"@,
            pat@.len() == 16,
            blueprint_spec(text@) == bp_from(v@, pos as int),
        decreases vn - pos,
    {
        let i = match find_pattern_from(&v, &pat, pos) {
            None => {
                return None;
            },
            Some(i) => i,
        };
        let j = match find_stop(&v, i + pat.len()) {
            None => {
                return None;
            },
            Some(j) => j,
        };
        if v[j] == '\'' {
            let mut out: Vec<char> = Vec::new();
            let mut t = i;
            while t <= j
                invariant
                    i <= t <= j + 1,
                    j < vn,
                    vn == v@.len(),
                    out@ == v@.subrange(i as int, t as int),
                decreases j + 1 - t,
            {
                out.push(v[t]);
                assert(out@ =~= v@.subrange(i as int, t + 1));
                t += 1;
            }
            proof {
                assert(bp_from(v@, pos as int) == Some(v@.subrange(i as int, j + 1)));
            }
            return Some(string_of(&out));
        }
        proof {
            assert(v@[j as int] == '\n');
            assert(pos < vn) by {
                assert(j >= i + 16);
            }
            assert(bp_from(v@, pos as int) == bp_from(v@, pos + 1));
        }
        pos += 1;
    }
    proof {
        assert(false);
    }
    None
}

} // verus!
