//! Character-level text utilities shared by the extraction rules and the
//! dataset codec. All executable work happens on `Vec<char>` buffers whose
//! views match the `Seq<char>` views of `&str` and `String`.
use vstd::prelude::*;

verus! {

/// Relies on `String::push` from std: appends the given character to the
/// end of the string.
pub assume_specification[ String::push ](s: &mut String, c: char)
    ensures
        final(s)@ == old(s)@.push(c),
;

/// Copies the characters of a string slice into a vector.
pub fn chars_of(s: &str) -> (r: Vec<char>)
    ensures
        r@ == s@,
{
    let n = s.unicode_len();
    let mut r: Vec<char> = Vec::new();
    let mut i: usize = 0;
    while i < n
        invariant
            n == s@.len(),
            i <= n,
            r@ == s@.subrange(0, i as int),
        decreases n - i,
    {
        r.push(s.get_char(i));
        assert(r@ =~= s@.subrange(0, i + 1 as int));
        i += 1;
    }
    assert(r@ =~= s@);
    r
}

/// Builds a string out of a vector of characters.
pub fn string_of(v: &Vec<char>) -> (r: String)
    ensures
        r@ == v@,
{
    let mut r = String::new();
    let mut i: usize = 0;
    while i < v.len()
        invariant
            i <= v@.len(),
            r@ == v@.subrange(0, i as int),
        decreases v@.len() - i,
    {
        r.push(v[i]);
        assert(r@ =~= v@.subrange(0, i + 1 as int));
        i += 1;
    }
    assert(r@ =~= v@);
    r
}

/// Character-for-character equality of two string slices.
pub fn str_eq(a: &str, b: &str) -> (r: bool)
    ensures
        r == (a@ == b@),
{
    let sa = a.to_owned();
    let sb = b.to_owned();
    sa == sb
}

/// `needle` occurs in `hay` starting at position `i`.
pub open spec fn matches_at(hay: Seq<char>, needle: Seq<char>, i: int) -> bool {
    &&& 0 <= i
    &&& i + needle.len() <= hay.len()
    &&& hay.subrange(i, i + needle.len()) == needle
}

/// `needle` occurs somewhere in `hay`.
pub open spec fn contains_seq(hay: Seq<char>, needle: Seq<char>) -> bool {
    exists|i: int| matches_at(hay, needle, i)
}

/// Substring search over character vectors.
pub fn contains_chars(hay: &Vec<char>, needle: &Vec<char>) -> (r: bool)
    ensures
        r == contains_seq(hay@, needle@),
{
    let h = hay.len();
    let n = needle.len();
    if n > h {
        assert(!contains_seq(hay@, needle@));
        return false;
    }
    let mut i: usize = 0;
    let mut found = false;
    while i <= h - n && !found
        invariant
            n <= h,
            h == hay@.len(),
            n == needle@.len(),
            i <= h - n + 1,
            found ==> contains_seq(hay@, needle@),
            !found ==> forall|j: int| 0 <= j < i ==> !matches_at(hay@, needle@, j),
        decreases h - n + 1 - i, (if found { 0int } else { 1int }),
    {
        let mut k: usize = 0;
        while k < n && hay[i + k] == needle[k]
            invariant
                k <= n,
                i + n <= h,
                h == hay@.len(),
                n == needle@.len(),
                forall|t: int| 0 <= t < k ==> hay@[i + t] == needle@[t],
            decreases n - k,
        {
            k += 1;
        }
        if k == n {
            assert(matches_at(hay@, needle@, i as int)) by {
                assert(hay@.subrange(i as int, i + n) =~= needle@);
            }
            found = true;
        } else {
            assert(!matches_at(hay@, needle@, i as int)) by {
                if matches_at(hay@, needle@, i as int) {
                    assert(hay@.subrange(i as int, i + n)[k as int] == needle@[k as int]);
                }
            }
            i += 1;
        }
    }
    if !found {
        assert(forall|j: int| !matches_at(hay@, needle@, j)) by {
            assert forall|j: int| !matches_at(hay@, needle@, j) by {
                if matches_at(hay@, needle@, j) {
                    assert(0 <= j <= h - n < i);
                }
            }
        }
    }
    found
}

/// Substring search over string slices.
pub fn str_contains(hay: &str, needle: &str) -> (r: bool)
    ensures
        r == contains_seq(hay@, needle@),
{
    let hv = chars_of(hay);
    let nv = chars_of(needle);
    contains_chars(&hv, &nv)
}

/// `pre` is a prefix of `s`.
pub open spec fn starts_with_seq(s: Seq<char>, pre: Seq<char>) -> bool {
    matches_at(s, pre, 0)
}

/// Prefix test over string slices.
pub fn str_starts_with(s: &str, pre: &str) -> (r: bool)
    ensures
        r == starts_with_seq(s@, pre@),
{
    let sv = chars_of(s);
    let pv = chars_of(pre);
    let n = pv.len();
    if n > sv.len() {
        return false;
    }
    let mut k: usize = 0;
    while k < n && sv[k] == pv[k]
        invariant
            k <= n,
            n <= sv@.len(),
            sv@ == s@,
            pv@ == pre@,
            n == pre@.len(),
            forall|t: int| 0 <= t < k ==> s@[t] == pre@[t],
        decreases n - k,
    {
        k += 1;
    }
    if k == n {
        assert(s@.subrange(0, n as int) =~= pre@);
        true
    } else {
        assert(!starts_with_seq(s@, pre@)) by {
            if starts_with_seq(s@, pre@) {
                assert(s@.subrange(0, n as int)[k as int] == pre@[k as int]);
            }
        }
        false
    }
}

/// `suf` is a suffix of `s`.
pub open spec fn ends_with_seq(s: Seq<char>, suf: Seq<char>) -> bool {
    suf.len() <= s.len() && s.subrange(s.len() - suf.len(), s.len() as int) == suf
}

/// Suffix test over string slices.
pub fn str_ends_with(s: &str, suf: &str) -> (r: bool)
    ensures
        r == ends_with_seq(s@, suf@),
{
    let sv = chars_of(s);
    let fv = chars_of(suf);
    let n = fv.len();
    let l = sv.len();
    if n > l {
        return false;
    }
    let mut k: usize = 0;
    while k < n && sv[l - n + k] == fv[k]
        invariant
            k <= n,
            n <= l,
            l == s@.len(),
            sv@ == s@,
            fv@ == suf@,
            n == suf@.len(),
            forall|t: int| 0 <= t < k ==> s@[l - n + t] == suf@[t],
        decreases n - k,
    {
        k += 1;
    }
    if k == n {
        assert(s@.subrange(l - n, l as int) =~= suf@);
        true
    } else {
        assert(!ends_with_seq(s@, suf@)) by {
            if ends_with_seq(s@, suf@) {
                assert(s@.subrange(l - n, l as int)[k as int] == suf@[k as int]);
            }
        }
        false
    }
}

/// Every occurrence of `from` replaced by `to`, element by element.
pub open spec fn replace_char(s: Seq<char>, from: char, to: char) -> Seq<char> {
    s.map_values(|c: char| if c == from { to } else { c })
}

/// Replaces every occurrence of one character by another.
pub fn chars_replace(v: &Vec<char>, from: char, to: char) -> (r: Vec<char>)
    ensures
        r@ == replace_char(v@, from, to),
{
    let mut r: Vec<char> = Vec::new();
    let mut i: usize = 0;
    while i < v.len()
        invariant
            i <= v@.len(),
            r@ == replace_char(v@.subrange(0, i as int), from, to),
        decreases v@.len() - i,
    {
        let c = v[i];
        if c == from {
            r.push(to);
        } else {
            r.push(c);
        }
        assert(r@ =~= replace_char(v@.subrange(0, i + 1 as int), from, to));
        i += 1;
    }
    assert(v@.subrange(0, v@.len() as int) =~= v@);
    r
}

/// The part of `s` before the first occurrence of `c` (all of `s` when
/// there is none).
pub open spec fn prefix_before(s: Seq<char>, c: char) -> Seq<char>
    decreases s.len(),
{
    if s.len() == 0 {
        s
    } else if s[0] == c {
        Seq::empty()
    } else {
        seq![s[0]] + prefix_before(s.drop_first(), c)
    }
}

/// Copies the part of `v` before the first occurrence of `c`.
pub fn take_before(v: &Vec<char>, c: char) -> (r: Vec<char>)
    ensures
        r@ == prefix_before(v@, c),
{
    let mut r: Vec<char> = Vec::new();
    let mut i: usize = 0;
    proof {
        assert(v@.skip(0) =~= v@);
        assert(v@.subrange(0, 0) =~= Seq::<char>::empty());
        assert(Seq::<char>::empty() + prefix_before(v@, c) =~= prefix_before(v@, c));
    }
    while i < v.len()
        invariant
            i <= v@.len(),
            r@ == v@.subrange(0, i as int),
            prefix_before(v@, c) == r@ + prefix_before(v@.skip(i as int), c),
        decreases v@.len() - i,
    {
        if v[i] == c {
            proof {
                assert(prefix_before(v@.skip(i as int), c) =~= Seq::<char>::empty());
                assert(prefix_before(v@, c) =~= r@);
            }
            return r;
        }
        proof {
            assert(v@.skip(i as int).drop_first() =~= v@.skip(i + 1));
            assert(r@.push(v@[i as int]) =~= v@.subrange(0, i + 1));
            assert((r@ + prefix_before(v@.skip(i as int), c)) =~= (r@.push(v@[i as int])
                + prefix_before(v@.skip(i + 1), c)));
        }
        r.push(v[i]);
        i += 1;
    }
    proof {
        assert(v@.skip(v@.len() as int) =~= Seq::<char>::empty());
        assert(prefix_before(v@, c) =~= r@);
    }
    r
}

/// The part of `s` after the last occurrence of `c` (all of `s` when there
/// is none).
pub open spec fn after_last(s: Seq<char>, c: char) -> Seq<char>
    decreases s.len(),
{
    if s.len() == 0 {
        s
    } else if s.last() == c {
        Seq::empty()
    } else {
        after_last(s.drop_last(), c).push(s.last())
    }
}

/// Copies the part of `v` after the last occurrence of `c`.
pub fn take_after_last(v: &Vec<char>, c: char) -> (r: Vec<char>)
    ensures
        r@ == after_last(v@, c),
{
    let n = v.len();
    let mut cut: usize = n;
    while cut > 0 && v[cut - 1] != c
        invariant
            cut <= n,
            n == v@.len(),
            forall|j: int| cut <= j < n ==> v@[j] != c,
        decreases cut,
    {
        cut -= 1;
    }
    proof {
        lemma_after_last_cut(v@, c, cut as int);
    }
    let mut r: Vec<char> = Vec::new();
    let mut i = cut;
    while i < n
        invariant
            cut <= i <= n,
            n == v@.len(),
            r@ == v@.subrange(cut as int, i as int),
        decreases n - i,
    {
        r.push(v[i]);
        assert(r@ =~= v@.subrange(cut as int, i + 1));
        i += 1;
    }
    proof {
        assert(r@ =~= v@.skip(cut as int));
    }
    r
}

proof fn lemma_after_last_cut(s: Seq<char>, c: char, cut: int)
    requires
        0 <= cut <= s.len(),
        forall|j: int| cut <= j < s.len() ==> s[j] != c,
        cut > 0 ==> s[cut - 1] == c,
    ensures
        after_last(s, c) == s.skip(cut),
    decreases s.len(),
{
    if cut == s.len() {
        if s.len() > 0 {
            assert(s.last() == c);
            assert(s.skip(cut) =~= Seq::<char>::empty());
        } else {
            assert(s.skip(0) =~= s);
        }
    } else {
        assert(s.last() != c);
        assert(forall|j: int| cut <= j < s.drop_last().len() ==> s.drop_last()[j] != c);
        assert(cut > 0 ==> s.drop_last()[cut - 1] == c);
        lemma_after_last_cut(s.drop_last(), c, cut);
        assert(s.drop_last().skip(cut).push(s.last()) =~= s.skip(cut));
    }
}

/// Every occurrence of the pattern `pat`, scanning left to right without
/// overlap, replaced by `rep`.
pub open spec fn replace_all(s: Seq<char>, pat: Seq<char>, rep: Seq<char>) -> Seq<char>
    decreases s.len()
        when pat.len() > 0
{
    if s.len() == 0 {
        s
    } else if starts_with_seq(s, pat) {
        rep + replace_all(s.skip(pat.len() as int), pat, rep)
    } else {
        seq![s[0]] + replace_all(s.drop_first(), pat, rep)
    }
}

/// Replaces every non-overlapping occurrence of `pat` by `rep`.
pub fn chars_replace_all(v: &Vec<char>, pat: &Vec<char>, rep: &Vec<char>) -> (r: Vec<char>)
    requires
        pat@.len() > 0,
    ensures
        r@ == replace_all(v@, pat@, rep@),
{
    let n = v.len();
    let m = pat.len();
    let mut r: Vec<char> = Vec::new();
    let mut i: usize = 0;
    proof {
        assert(v@.skip(0) =~= v@);
        assert(Seq::<char>::empty() + replace_all(v@, pat@, rep@) =~= replace_all(v@, pat@, rep@));
    }
    while i < n
        invariant
            i <= n,
            n == v@.len(),
            m == pat@.len(),
            m > 0,
            replace_all(v@, pat@, rep@) == r@ + replace_all(v@.skip(i as int), pat@, rep@),
        decreases n - i,
    {
        let ghost rest = v@.skip(i as int);
        let mut k: usize = 0;
        while k < m && k < n - i && v[i + k] == pat[k]
            invariant
                k <= m,
                i < n,
                i + k <= n,
                n == v@.len(),
                m == pat@.len(),
                forall|t: int| 0 <= t < k ==> v@[i + t] == pat@[t],
            decreases m - k,
        {
            k += 1;
        }
        if k == m {
            proof {
                assert(m <= rest.len());
                assert(rest.subrange(0, m as int) =~= pat@);
                assert(starts_with_seq(rest, pat@));
                assert(rest.skip(m as int) =~= v@.skip(i + m));
                assert((r@ + replace_all(rest, pat@, rep@)) =~= ((r@ + rep@) + replace_all(
                    v@.skip(i + m),
                    pat@,
                    rep@,
                )));
            }
            let ghost r0 = r@;
            let mut t: usize = 0;
            proof {
                assert(r@ =~= r0 + rep@.subrange(0, 0));
            }
            while t < rep.len()
                invariant
                    t <= rep@.len(),
                    r@ == r0 + rep@.subrange(0, t as int),
                decreases rep@.len() - t,
            {
                r.push(rep[t]);
                assert(r@ =~= r0 + rep@.subrange(0, t + 1));
                t += 1;
            }
            proof {
                assert(rep@.subrange(0, rep@.len() as int) =~= rep@);
            }
            i += m;
        } else {
            proof {
                assert(!starts_with_seq(rest, pat@)) by {
                    if starts_with_seq(rest, pat@) {
                        assert(pat@.len() <= rest.len());
                        assert(i + k < n);
                        assert(rest.subrange(0, m as int)[k as int] == pat@[k as int]);
                        assert(rest[k as int] == v@[i + k]);
                    }
                }
                assert(rest.drop_first() =~= v@.skip(i + 1));
                assert((r@ + replace_all(rest, pat@, rep@)) =~= (r@.push(v@[i as int])
                    + replace_all(v@.skip(i + 1), pat@, rep@)));
            }
            r.push(v[i]);
            i += 1;
        }
    }
    proof {
        assert(v@.skip(n as int) =~= Seq::<char>::empty());
        assert(replace_all(v@, pat@, rep@) =~= r@);
    }
    r
}

/// Every character of `s` for which `from` holds removed.
pub open spec fn remove_char(s: Seq<char>, from: char) -> Seq<char> {
    s.filter(|c: char| c != from)
}

/// Removes every occurrence of a character.
pub fn chars_remove(v: &Vec<char>, from: char) -> (r: Vec<char>)
    ensures
        r@ == remove_char(v@, from),
{
    let mut r: Vec<char> = Vec::new();
    let mut i: usize = 0;
    while i < v.len()
        invariant
            i <= v@.len(),
            r@ == remove_char(v@.subrange(0, i as int), from),
        decreases v@.len() - i,
    {
        let c = v[i];
        proof {
            reveal_with_fuel(Seq::filter, 2);
            assert(v@.subrange(0, i + 1 as int).drop_last() =~= v@.subrange(0, i as int));
            assert(v@.subrange(0, i + 1 as int).last() == v@[i as int]);
        }
        if c != from {
            r.push(c);
        }
        assert(r@ == remove_char(v@.subrange(0, i + 1 as int), from));
        i += 1;
    }
    assert(v@.subrange(0, v@.len() as int) =~= v@);
    r
}

} // verus!
