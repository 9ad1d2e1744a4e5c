//! A small JSON value type and a verified codec for it: the encoder is
//! exact, and the parser returns precisely the encoded value on any text
//! the encoder produces. The persisted dataset format is built on it.
use crate::num::{
    all_digits, dec_digits, dec_int, digit_of, digit_value, digits_value, i64_to_chars, is_digit,
    is_digit_exec, lemma_dec_digits_inverse, lemma_dec_digits_shape, lemma_digits_value_mono,
};
use crate::text::{chars_of, string_of};
use vstd::prelude::*;

verus! {

/// A JSON value as this library uses it: strings, integers, and objects.
pub enum Json {
    Str(String),
    Int(i64),
    Obj(Vec<(String, Json)>),
}

/// The mathematical shape of a JSON value.
#[verifier::ext_equal]
pub ghost enum JsonV {
    Str(Seq<char>),
    Int(int),
    Obj(Seq<(Seq<char>, JsonV)>),
}

/// The view of a JSON value.
pub open spec fn json_view(j: Json) -> JsonV
    decreases j,
{
    match j {
        Json::Str(s) => JsonV::Str(s@),
        Json::Int(n) => JsonV::Int(n as int),
        Json::Obj(fs) => JsonV::Obj(fields_view(fs@)),
    }
}

/// The views of an object's fields.
pub open spec fn fields_view(fs: Seq<(String, Json)>) -> Seq<(Seq<char>, JsonV)>
    decreases fs,
{
    if fs.len() == 0 {
        Seq::empty()
    } else {
        seq![(fs[0].0@, json_view(fs[0].1))] + fields_view(fs.drop_first())
    }
}

pub proof fn lemma_fields_view_index(fs: Seq<(String, Json)>, i: int)
    requires
        0 <= i < fs.len(),
    ensures
        fields_view(fs).len() == fs.len(),
        fields_view(fs)[i] == (fs[i].0@, json_view(fs[i].1)),
    decreases fs.len(),
{
    lemma_fields_view_len(fs);
    if i > 0 {
        lemma_fields_view_index(fs.drop_first(), i - 1);
    }
}

pub proof fn lemma_fields_view_len(fs: Seq<(String, Json)>)
    ensures
        fields_view(fs).len() == fs.len(),
    decreases fs.len(),
{
    if fs.len() > 0 {
        lemma_fields_view_len(fs.drop_first());
    }
}

pub proof fn lemma_fields_view_push(fs: Seq<(String, Json)>, k: String, v: Json)
    ensures
        fields_view(fs.push((k, v))) == fields_view(fs).push((k@, json_view(v))),
    decreases fs.len(),
{
    let p = fs.push((k, v));
    if fs.len() == 0 {
        assert(p.len() == 1);
        assert(p[0] == (k, v));
        assert(p.drop_first() =~= Seq::<(String, Json)>::empty());
        assert(fields_view(p) == seq![(p[0].0@, json_view(p[0].1))] + fields_view(p.drop_first()));
        assert(fields_view(p.drop_first()) == Seq::<(Seq<char>, JsonV)>::empty());
        assert(fields_view(fs) == Seq::<(Seq<char>, JsonV)>::empty());
        assert(fields_view(p) =~= fields_view(fs).push((k@, json_view(v))));
    } else {
        assert(p[0] == fs[0]);
        assert(p.drop_first() =~= fs.drop_first().push((k, v)));
        lemma_fields_view_push(fs.drop_first(), k, v);
        assert(fields_view(p) == seq![(p[0].0@, json_view(p[0].1))] + fields_view(p.drop_first()));
        assert(fields_view(fs) == seq![(fs[0].0@, json_view(fs[0].1))] + fields_view(
            fs.drop_first(),
        ));
        assert(fields_view(p) =~= fields_view(fs).push((k@, json_view(v))));
    }
}

/// How one character is written inside a JSON string.
pub open spec fn esc_char(c: char) -> Seq<char> {
    if c == '"' {
        seq!['\\', '"']
    } else if c == '\\' {
        seq!['\\', '\\']
    } else if c == '\n' {
        seq!['\\', 'n']
    } else if c == '\r' {
        seq!['\\', 'r']
    } else if c == '\t' {
        seq!['\\', 't']
    } else {
        seq![c]
    }
}

/// The escaped body of a JSON string.
pub open spec fn esc(s: Seq<char>) -> Seq<char>
    decreases s.len(),
{
    if s.len() == 0 {
        Seq::empty()
    } else {
        esc_char(s[0]) + esc(s.drop_first())
    }
}

pub proof fn lemma_esc_take_step(s: Seq<char>, k: int)
    requires
        0 <= k < s.len(),
    ensures
        esc(s.take(k + 1)) == esc(s.take(k)) + esc_char(s[k]),
    decreases k,
{
    if k == 0 {
        assert(s.take(1)[0] == s[0]);
        assert(s.take(1).drop_first() =~= Seq::<char>::empty());
        assert(s.take(0) =~= Seq::<char>::empty());
        assert(esc(s.take(1)) =~= esc(s.take(0)) + esc_char(s[0]));
    } else {
        let t = s.drop_first();
        assert(s.take(k + 1)[0] == s[0]);
        assert(s.take(k + 1).drop_first() =~= t.take(k));
        assert(s.take(k).drop_first() =~= t.take(k - 1));
        assert(s.take(k)[0] == s[0]);
        lemma_esc_take_step(t, k - 1);
        assert(t[k - 1] == s[k]);
        assert(esc(s.take(k + 1)) == esc_char(s[0]) + esc(t.take(k)));
        assert(esc(s.take(k)) == esc_char(s[0]) + esc(t.take(k - 1)));
        assert((esc_char(s[0]) + (esc(t.take(k - 1)) + esc_char(s[k]))) =~= ((esc_char(s[0]) + esc(
            t.take(k - 1),
        )) + esc_char(s[k])));
    }
}

/// The text of a JSON string: the escaped body between quotes.
pub open spec fn enc_str(s: Seq<char>) -> Seq<char> {
    seq!['"'] + esc(s) + seq!['"']
}

/// The text of a JSON value.
pub open spec fn enc_json(j: JsonV) -> Seq<char>
    decreases j,
{
    match j {
        JsonV::Str(s) => enc_str(s),
        JsonV::Int(n) => dec_int(n),
        JsonV::Obj(fs) => seq!['{'] + enc_fields(fs) + seq!['}'],
    }
}

/// The text of an object's fields: entries separated by commas.
pub open spec fn enc_fields(fs: Seq<(Seq<char>, JsonV)>) -> Seq<char>
    decreases fs, 1int,
{
    if fs.len() == 0 {
        Seq::empty()
    } else {
        enc_entry(fs[0]) + enc_fields_rest(fs.drop_first())
    }
}

/// The text of the fields after the first: each led by a comma.
pub open spec fn enc_fields_rest(fs: Seq<(Seq<char>, JsonV)>) -> Seq<char>
    decreases fs, 2int,
{
    if fs.len() == 0 {
        Seq::empty()
    } else {
        seq![','] + enc_entry(fs[0]) + enc_fields_rest(fs.drop_first())
    }
}

/// The text of one field: key, colon, value.
pub open spec fn enc_entry(f: (Seq<char>, JsonV)) -> Seq<char>
    decreases f, 0int,
{
    enc_str(f.0) + seq![':'] + enc_json(f.1)
}

/// Integers within the machine range; every value the encoder is handed
/// satisfies this.
pub open spec fn wf_json(j: JsonV) -> bool
    decreases j, 1int,
{
    match j {
        JsonV::Str(_) => true,
        JsonV::Int(n) => i64::MIN <= n <= i64::MAX,
        JsonV::Obj(fs) => wf_fields(fs),
    }
}

pub open spec fn wf_fields(fs: Seq<(Seq<char>, JsonV)>) -> bool
    decreases fs, 0int,
{
    if fs.len() == 0 {
        true
    } else {
        wf_json(fs[0].1) && wf_fields(fs.drop_first())
    }
}

pub proof fn lemma_wf_fields_index(fs: Seq<(Seq<char>, JsonV)>, i: int)
    requires
        wf_fields(fs),
        0 <= i < fs.len(),
    ensures
        wf_json(fs[i].1),
    decreases i,
{
    if i > 0 {
        lemma_wf_fields_index(fs.drop_first(), i - 1);
    }
}

/// Appends the escaped body of `s` between quotes.
fn write_str(s: &str, out: &mut Vec<char>)
    ensures
        final(out)@ == old(out)@ + enc_str(s@),
{
    let v = chars_of(s);
    out.push('"');
    let ghost base = out@;
    let mut i: usize = 0;
    proof {
        assert(v@.take(0) =~= Seq::<char>::empty());
        assert(base + esc(v@.take(0)) =~= base);
    }
    while i < v.len()
        invariant
            i <= v@.len(),
            v@ == s@,
            out@ == base + esc(v@.take(i as int)),
        decreases v@.len() - i,
    {
        let c = v[i];
        proof {
            lemma_esc_take_step(v@, i as int);
        }
        let ghost before = out@;
        if c == '"' {
            out.push('\\');
            out.push('"');
        } else if c == '\\' {
            out.push('\\');
            out.push('\\');
        } else if c == '\n' {
            out.push('\\');
            out.push('n');
        } else if c == '\r' {
            out.push('\\');
            out.push('r');
        } else if c == '\t' {
            out.push('\\');
            out.push('t');
        } else {
            out.push(c);
        }
        proof {
            assert(out@ =~= before + esc_char(v@[i as int]));
            assert(out@ =~= base + esc(v@.take(i + 1)));
        }
        i += 1;
    }
    out.push('"');
    proof {
        assert(v@.take(v@.len() as int) =~= v@);
        assert(out@ =~= old(out)@ + enc_str(s@));
    }
}

/// Appends the text of a JSON value.
pub fn write_json(j: &Json, out: &mut Vec<char>)
    ensures
        final(out)@ == old(out)@ + enc_json(json_view(*j)),
    decreases *j,
{
    match j {
        Json::Str(s) => {
            write_str(s.as_str(), out);
        },
        Json::Int(n) => {
            let mut d = i64_to_chars(*n);
            out.append(&mut d);
        },
        Json::Obj(fields) => {
            let ghost fv = fields_view(fields@);
            out.push('{');
            let ghost base = out@;
            let mut i: usize = 0;
            proof {
                lemma_fields_view_len(fields@);
            }
            while i < fields.len()
                invariant
                    i <= fields@.len(),
                    fv == fields_view(fields@),
                    fv.len() == fields@.len(),
                    *j == Json::Obj(*fields),
                    out@ == base + (if i == 0 {
                        Seq::<char>::empty()
                    } else {
                        enc_entry(fv[0]) + enc_fields_upto(fv, i as int)
                    }),
                decreases fields@.len() - i,
            {
                proof {
                    lemma_fields_view_index(fields@, i as int);
                    assert(*fields == j->Obj_0);
                    assert(decreases_to!(*j => j->Obj_0));
                    assert(decreases_to!(j->Obj_0 => j->Obj_0@));
                    assert(decreases_to!(j->Obj_0@ => j->Obj_0@[i as int]));
                    assert(decreases_to!(j->Obj_0@[i as int] => j->Obj_0@[i as int].1));
                    assert(decreases_to!(*j => fields@[i as int].1));
                }
                if i > 0 {
                    out.push(',');
                }
                let ghost mid = out@;
                let entry = &fields[i];
                write_str(entry.0.as_str(), out);
                out.push(':');
                write_json(&entry.1, out);
                proof {
                    assert(out@ =~= mid + enc_str(fv[i as int].0) + seq![':'] + enc_json(
                        fv[i as int].1,
                    ));
                    assert(enc_entry(fv[i as int]) =~= enc_str(fv[i as int].0) + seq![':']
                        + enc_json(fv[i as int].1));
                    if i == 0 {
                        assert(enc_fields_upto(fv, 1) =~= Seq::<char>::empty());
                        assert(out@ =~= base + (enc_entry(fv[0]) + enc_fields_upto(fv, 1)));
                    } else {
                        lemma_enc_fields_upto_step(fv, i as int);
                        assert(out@ =~= base + (enc_entry(fv[0]) + enc_fields_upto(
                            fv,
                            i + 1,
                        )));
                    }
                }
                i += 1;
            }
            out.push('}');
            proof {
                if fv.len() == 0 {
                    assert(enc_fields(fv) =~= Seq::<char>::empty());
                } else {
                    lemma_enc_fields_upto_full(fv);
                    assert(enc_fields(fv) == enc_entry(fv[0]) + enc_fields_rest(fv.drop_first()));
                }
                assert(out@ =~= old(out)@ + enc_json(json_view(*j)));
            }
        },
    }
}

/// The comma-led entries from position one up to `i`.
pub open spec fn enc_fields_upto(fs: Seq<(Seq<char>, JsonV)>, i: int) -> Seq<char>
    decreases i,
{
    if i <= 1 {
        Seq::empty()
    } else {
        enc_fields_upto(fs, i - 1) + seq![','] + enc_entry(fs[i - 1])
    }
}

proof fn lemma_enc_fields_upto_step(fs: Seq<(Seq<char>, JsonV)>, i: int)
    requires
        1 <= i,
    ensures
        enc_fields_upto(fs, i + 1) == enc_fields_upto(fs, i) + seq![','] + enc_entry(fs[i]),
{
}

/// The trailing entries of `enc_fields` equal the accumulated prefix form.
proof fn lemma_enc_fields_upto_full(fs: Seq<(Seq<char>, JsonV)>)
    requires
        fs.len() >= 1,
    ensures
        enc_fields_rest(fs.drop_first()) == enc_fields_upto(fs, fs.len() as int),
    decreases fs.len(),
{
    lemma_enc_rest_upto(fs, 1);
}

/// The comma-led encoding of entries `i..` of `fs`, related to the
/// accumulated form.
proof fn lemma_enc_rest_upto(fs: Seq<(Seq<char>, JsonV)>, i: int)
    requires
        1 <= i <= fs.len(),
    ensures
        enc_fields_upto(fs, i) + enc_fields_rest(fs.skip(i)) == enc_fields_upto(
            fs,
            fs.len() as int,
        ),
    decreases fs.len() - i,
{
    if i == fs.len() {
        assert(fs.skip(i) =~= Seq::<(Seq<char>, JsonV)>::empty());
        assert(enc_fields_upto(fs, i) + enc_fields_rest(fs.skip(i)) =~= enc_fields_upto(fs, i));
    } else {
        lemma_enc_rest_upto(fs, i + 1);
        assert(fs.skip(i)[0] == fs[i]);
        assert(fs.skip(i).drop_first() =~= fs.skip(i + 1));
        assert(enc_fields_rest(fs.skip(i)) == seq![','] + enc_entry(fs[i]) + enc_fields_rest(
            fs.skip(i + 1),
        ));
        assert(enc_fields_upto(fs, i + 1) == enc_fields_upto(fs, i) + seq![','] + enc_entry(
            fs[i],
        ));
        assert(enc_fields_upto(fs, i) + (seq![','] + enc_entry(fs[i]) + enc_fields_rest(
            fs.skip(i + 1),
        )) =~= (enc_fields_upto(fs, i) + seq![','] + enc_entry(fs[i])) + enc_fields_rest(
            fs.skip(i + 1),
        ));
    }
}

/// Writes a JSON value as text.
pub fn json_to_text(j: &Json) -> (r: String)
    ensures
        r@ == enc_json(json_view(*j)),
{
    let mut out: Vec<char> = Vec::new();
    write_json(j, &mut out);
    string_of(&out)
}

/// What may follow an encoded value for the parser to recognize it: after
/// an integer, no digit.
pub open spec fn follow_ok(j: JsonV, rest: Seq<char>) -> bool {
    j is Int ==> rest.len() == 0 || !is_digit(rest[0])
}

/// The first character of an encoding tells the variant apart.
proof fn lemma_enc_shape(j: JsonV)
    requires
        wf_json(j),
    ensures
        enc_json(j).len() >= 1,
        j is Str ==> enc_json(j)[0] == '"',
        j is Int ==> enc_json(j)[0] == '-' || is_digit(enc_json(j)[0]),
        j is Obj ==> enc_json(j)[0] == '{',
{
    match j {
        JsonV::Str(s) => {
            assert(enc_json(j)[0] == '"');
        },
        JsonV::Int(n) => {
            if n < 0 {
                assert(enc_json(j)[0] == '-');
            } else {
                lemma_dec_digits_shape(n);
                assert(enc_json(j) == dec_digits(n));
                assert(is_digit(dec_digits(n)[0]));
            }
        },
        JsonV::Obj(fs) => {
            assert(enc_json(j)[0] == '{');
        },
    }
}

/// Dropping a known prefix of a suffix of `v`.
proof fn lemma_skip_append(v: Seq<char>, j: int, a: Seq<char>, b: Seq<char>)
    requires
        0 <= j <= v.len(),
        v.skip(j) == a + b,
    ensures
        j + a.len() <= v.len(),
        v.skip(j + a.len()) == b,
{
    assert(v.skip(j).len() == v.len() - j);
    assert(v.skip(j + a.len()) =~= (a + b).skip(a.len() as int));
    assert((a + b).skip(a.len() as int) =~= b);
}

/// The escaped body grows one escape at a time.
proof fn lemma_esc_push(s: Seq<char>, c: char)
    ensures
        esc(s.push(c)) == esc(s) + esc_char(c),
    decreases s.len(),
{
    let p = s.push(c);
    if s.len() == 0 {
        assert(p[0] == c);
        assert(p.drop_first() =~= Seq::<char>::empty());
        assert(esc(Seq::<char>::empty()) == Seq::<char>::empty());
        assert(esc(p) == esc_char(c) + esc(p.drop_first()));
        assert(esc(s) == Seq::<char>::empty());
        assert(esc(p) =~= esc(s) + esc_char(c));
    } else {
        assert(p[0] == s[0]);
        assert(p.drop_first() =~= s.drop_first().push(c));
        lemma_esc_push(s.drop_first(), c);
        assert(esc(p) == esc_char(s[0]) + (esc(s.drop_first()) + esc_char(c)));
        assert(esc(p) =~= esc(s) + esc_char(c));
    }
}

/// Reads a JSON string starting at the opening quote. On any text that
/// starts (at `i`) with the encoding of a string `s`, the parse succeeds
/// and returns exactly `s` and the position just past its encoding; a
/// success always consumed exactly the encoding of what it returned.
fn parse_str(v: &Vec<char>, i: usize) -> (r: Option<(String, usize)>)
    requires
        i < v@.len(),
        v@[i as int] == '"',
    ensures
        r is Some ==> i < (r->0).1 <= v@.len(),
        r is Some ==> v@.subrange(i as int, (r->0).1 as int) == enc_str((r->0).0@),
        forall|s: Seq<char>, rest: Seq<char>|
            v@.skip(i as int) == enc_str(s) + rest ==> r is Some && (r->0).0@ == s && (r->0).1 == i
                + enc_str(s).len(),
{
    let n = v.len();
    let mut out: Vec<char> = Vec::new();
    let mut j = i + 1;
    proof {
        assert forall|s: Seq<char>, rest: Seq<char>|
            v@.skip(i as int) == enc_str(s) + rest implies out@ == s.take(out@.len() as int)
            && v@.skip(i + 1) == esc(s.skip(out@.len() as int)) + seq!['"'] + rest by {
            assert(enc_str(s) + rest =~= seq!['"'] + (esc(s) + seq!['"'] + rest));
            lemma_skip_append(v@, i as int, seq!['"'], esc(s) + seq!['"'] + rest);
            assert(s.skip(0) =~= s);
            assert(out@ =~= s.take(0));
        }
        assert(v@.subrange(i + 1, i + 1) =~= Seq::<char>::empty());
        assert(esc(out@) =~= Seq::<char>::empty());
    }
    while j < n
        invariant
            i < j <= n,
            n == v@.len(),
            v@[i as int] == '"',
            v@.subrange(i + 1, j as int) == esc(out@),
            forall|s: Seq<char>, rest: Seq<char>|
                v@.skip(i as int) == enc_str(s) + rest ==> out@.len() <= s.len() && out@
                    == s.take(out@.len() as int) && v@.skip(j as int) == esc(
                    s.skip(out@.len() as int),
                ) + seq!['"'] + rest,
        decreases n - j,
    {
        let c = v[j];
        if c == '"' {
            let result = string_of(&out);
            proof {
                assert(v@.subrange(i as int, j + 1) =~= seq!['"'] + v@.subrange(i + 1, j as int)
                    + seq!['"']);
                assert(v@.subrange(i as int, j + 1) == enc_str(out@));
                assert forall|s: Seq<char>, rest: Seq<char>|
                    v@.skip(i as int) == enc_str(s) + rest implies result@ == s && j + 1 == i
                    + enc_str(s).len() by {
                    let k = out@.len() as int;
                    if k < s.len() {
                        let t = s.skip(k);
                        assert(t.len() > 0);
                        assert(esc(t) == esc_char(t[0]) + esc(t.drop_first()));
                        assert(v@.skip(j as int)[0] == esc_char(t[0])[0]);
                        assert(esc_char(t[0])[0] != '"');
                        assert(false);
                    }
                    assert(s.take(k) =~= s);
                    assert(esc(s.skip(k)) =~= Seq::<char>::empty());
                    assert(v@.skip(j as int) =~= seq!['"'] + rest);
                    assert(v@.skip(j as int).len() == n - j);
                    assert(v@.skip(i as int).len() == n - i);
                    assert((enc_str(s) + rest).len() == enc_str(s).len() + rest.len());
                }
            }
            return Some((result, j + 1));
        } else if c == '\\' {
            if j + 1 >= n {
                proof {
                    assert forall|s: Seq<char>, rest: Seq<char>|
                        !(v@.skip(i as int) == enc_str(s) + rest) by {
                        if v@.skip(i as int) == enc_str(s) + rest {
                            str_hyp_escape_facts(v@, i as int, j as int, out@, s, rest);
                        }
                    }
                }
                return None;
            }
            let e = v[j + 1];
            let decoded: char = if e == '"' {
                '"'
            } else if e == '\\' {
                '\\'
            } else if e == 'n' {
                '\n'
            } else if e == 'r' {
                '\r'
            } else if e == 't' {
                '\t'
            } else {
                proof {
                    assert forall|s: Seq<char>, rest: Seq<char>|
                        !(v@.skip(i as int) == enc_str(s) + rest) by {
                        if v@.skip(i as int) == enc_str(s) + rest {
                            str_hyp_escape_facts(v@, i as int, j as int, out@, s, rest);
                        }
                    }
                }
                return None;
            };
            proof {
                assert forall|s: Seq<char>, rest: Seq<char>|
                    v@.skip(i as int) == enc_str(s) + rest implies out@.push(decoded).len()
                    <= s.len() && out@.push(decoded) == s.take(out@.push(decoded).len() as int)
                    && v@.skip(j + 2) == esc(s.skip(out@.push(decoded).len() as int)) + seq!['"']
                    + rest by {
                    str_hyp_escape_facts(v@, i as int, j as int, out@, s, rest);
                    let k = out@.len() as int;
                    let t = s.skip(k);
                    assert(s[k] == decoded);
                    assert(esc_char(t[0]).len() == 2);
                    assert(v@.skip(j as int) == esc_char(t[0]) + (esc(t.drop_first()) + seq!['"']
                        + rest)) by {
                        assert(esc_char(t[0]) + esc(t.drop_first()) + seq!['"'] + rest
                            =~= esc_char(t[0]) + (esc(t.drop_first()) + seq!['"'] + rest));
                    }
                    lemma_skip_append(
                        v@,
                        j as int,
                        esc_char(t[0]),
                        esc(t.drop_first()) + seq!['"'] + rest,
                    );
                    assert(t.drop_first() =~= s.skip(k + 1));
                    assert(out@.push(decoded) =~= s.take(k + 1));
                }
                lemma_esc_push(out@, decoded);
                assert(esc_char(decoded) =~= seq![v@[j as int], v@[j + 1]]);
                assert(v@.subrange(i + 1, j + 2) =~= v@.subrange(i + 1, j as int) + seq![
                    v@[j as int],
                    v@[j + 1],
                ]);
                assert(v@.subrange(i + 1, j + 2) == esc(out@.push(decoded)));
            }
            out.push(decoded);
            j += 2;
        } else if c == '\n' || c == '\r' || c == '\t' {
            // The encoder writes these escaped; a raw control character is
            // no canonical text.
            proof {
                assert forall|s: Seq<char>, rest: Seq<char>|
                    !(v@.skip(i as int) == enc_str(s) + rest) by {
                    if v@.skip(i as int) == enc_str(s) + rest {
                        let k = out@.len() as int;
                        if k == s.len() {
                            assert(esc(s.skip(k)) =~= Seq::<char>::empty());
                            assert(v@.skip(j as int) =~= seq!['"'] + rest);
                            assert(v@.skip(j as int)[0] == '"');
                        } else {
                            let t = s.skip(k);
                            assert(t.len() > 0);
                            assert(esc(t) == esc_char(t[0]) + esc(t.drop_first()));
                            assert(v@.skip(j as int)[0] == esc_char(t[0])[0]);
                            if t[0] == '"' || t[0] == '\\' || t[0] == '\n' || t[0] == '\r'
                                || t[0] == '\t' {
                                assert(esc_char(t[0])[0] == '\\');
                            } else {
                                assert(esc_char(t[0]) =~= seq![t[0]]);
                            }
                        }
                    }
                }
            }
            return None;
        } else {
            proof {
                assert forall|s: Seq<char>, rest: Seq<char>|
                    v@.skip(i as int) == enc_str(s) + rest implies out@.push(c).len() <= s.len()
                    && out@.push(c) == s.take(out@.push(c).len() as int) && v@.skip(j + 1) == esc(
                    s.skip(out@.push(c).len() as int),
                ) + seq!['"'] + rest by {
                    let k = out@.len() as int;
                    if k == s.len() {
                        assert(esc(s.skip(k)) =~= Seq::<char>::empty());
                        assert(v@.skip(j as int) =~= seq!['"'] + rest);
                        assert(v@.skip(j as int)[0] == '"');
                        assert(false);
                    }
                    let t = s.skip(k);
                    assert(t.len() > 0);
                    assert(esc(t) == esc_char(t[0]) + esc(t.drop_first()));
                    assert(v@.skip(j as int)[0] == esc_char(t[0])[0]);
                    if t[0] == '"' || t[0] == '\\' || t[0] == '\n' || t[0] == '\r' || t[0]
                        == '\t' {
                        assert(esc_char(t[0])[0] == '\\');
                        assert(false);
                    }
                    assert(esc_char(t[0]) =~= seq![t[0]]);
                    assert(s[k] == c);
                    assert(v@.skip(j as int) == seq![t[0]] + (esc(t.drop_first()) + seq!['"']
                        + rest)) by {
                        assert(seq![t[0]] + esc(t.drop_first()) + seq!['"'] + rest =~= seq![t[0]]
                            + (esc(t.drop_first()) + seq!['"'] + rest));
                    }
                    lemma_skip_append(
                        v@,
                        j as int,
                        seq![t[0]],
                        esc(t.drop_first()) + seq!['"'] + rest,
                    );
                    assert(t.drop_first() =~= s.skip(k + 1));
                    assert(out@.push(c) =~= s.take(k + 1));
                }
                lemma_esc_push(out@, c);
                assert(esc_char(c) =~= seq![c]);
                assert(v@.subrange(i + 1, j + 1) =~= v@.subrange(i + 1, j as int) + seq![
                    v@[j as int],
                ]);
                assert(v@.subrange(i + 1, j + 1) == esc(out@.push(c)));
            }
            out.push(c);
            j += 1;
        }
    }
    proof {
        assert forall|s: Seq<char>, rest: Seq<char>|
            !(v@.skip(i as int) == enc_str(s) + rest) by {
            if v@.skip(i as int) == enc_str(s) + rest {
                assert(v@.skip(j as int).len() == 0);
                assert((esc(s.skip(out@.len() as int)) + seq!['"'] + rest).len() >= 1);
            }
        }
    }
    None
}

/// Facts available when the scanner stands on a backslash and the text is
/// the encoding of `s`: the next source character decides one escaped
/// character of `s`.
proof fn str_hyp_escape_facts(
    v: Seq<char>,
    i: int,
    j: int,
    out: Seq<char>,
    s: Seq<char>,
    rest: Seq<char>,
)
    requires
        0 <= i < j < v.len(),
        v.skip(i) == enc_str(s) + rest,
        out.len() <= s.len(),
        out == s.take(out.len() as int),
        v.skip(j) == esc(s.skip(out.len() as int)) + seq!['"'] + rest,
        v[j] == '\\',
    ensures
        out.len() < s.len(),
        j + 1 < v.len(),
        esc_char(s.skip(out.len() as int)[0]).len() == 2,
        v[j + 1] == esc_char(s.skip(out.len() as int)[0])[1],
        s[out.len() as int] == s.skip(out.len() as int)[0],
        (v[j + 1] == '"' ==> s[out.len() as int] == '"'),
        (v[j + 1] == '\\' ==> s[out.len() as int] == '\\'),
        (v[j + 1] == 'n' ==> s[out.len() as int] == '\n'),
        (v[j + 1] == 'r' ==> s[out.len() as int] == '\r'),
        (v[j + 1] == 't' ==> s[out.len() as int] == '\t'),
        v[j + 1] == '"' || v[j + 1] == '\\' || v[j + 1] == 'n' || v[j + 1] == 'r' || v[j + 1]
            == 't',
{
    let k = out.len() as int;
    if k == s.len() {
        assert(esc(s.skip(k)) =~= Seq::<char>::empty());
        assert(v.skip(j) =~= seq!['"'] + rest);
        assert(v.skip(j)[0] == '"');
        assert(false);
    }
    let t = s.skip(k);
    assert(t.len() > 0);
    assert(esc(t) == esc_char(t[0]) + esc(t.drop_first()));
    assert(v.skip(j)[0] == esc_char(t[0])[0]);
    if !(t[0] == '"' || t[0] == '\\' || t[0] == '\n' || t[0] == '\r' || t[0] == '\t') {
        assert(esc_char(t[0]) =~= seq![t[0]]);
        assert(t[0] == '\\');
        assert(false);
    }
    assert(esc_char(t[0]).len() == 2);
    assert(v.skip(j).len() >= 3);
    assert(v.skip(j)[1] == esc_char(t[0])[1]);
    assert(v[j + 1] == esc_char(t[0])[1]);
}

/// Facts available when scanning digits at `p` and the text is the
/// decimal form of `m`: the scanned digits are a prefix of that form.
proof fn int_hyp_facts(v: Seq<char>, i: int, start: int, p: int, m: int, rest: Seq<char>)
    requires
        0 <= i < v.len(),
        v.skip(i) == dec_int(m) + rest,
        rest.len() == 0 || !is_digit(rest[0]),
        start == if m < 0 {
            i + 1
        } else {
            i
        },
        start <= p <= v.len(),
        all_digits(v.subrange(start, p)),
    ensures
        ({
            let mag = if m < 0 {
                -m
            } else {
                m
            };
            let ds = dec_digits(mag);
            &&& v.skip(start) == ds + rest
            &&& start + ds.len() + rest.len() == v.len()
            &&& p - start <= ds.len()
            &&& v.subrange(start, p) == ds.take(p - start)
            &&& all_digits(ds)
            &&& digits_value(ds) == mag
            &&& ds.len() >= 1
        }),
{
    let mag = if m < 0 {
        -m
    } else {
        m
    };
    let ds = dec_digits(mag);
    lemma_dec_digits_shape(mag);
    if m < 0 {
        assert(dec_int(m) + rest =~= seq!['-'] + (ds + rest));
        lemma_skip_append(v, i, seq!['-'], ds + rest);
    } else {
        assert(dec_int(m) == ds);
    }
    assert(v.skip(start).len() == v.len() - start);
    if p - start > ds.len() {
        if rest.len() == 0 {
            assert(v.len() - start == ds.len());
        } else {
            let q = ds.len() as int;
            assert(v.skip(start)[q] == rest[0]);
            assert(v[start + q] == rest[0]);
            assert(v.subrange(start, p)[q] == v[start + q]);
            assert(is_digit(rest[0]));
        }
    }
    assert(v.subrange(start, p) =~= ds.take(p - start)) by {
        assert forall|t: int| 0 <= t < p - start implies v.subrange(start, p)[t] == ds.take(
            p - start,
        )[t] by {
            assert(v.subrange(start, p)[t] == v[start + t]);
            assert(v[start + t] == v.skip(start)[t]);
            assert((ds + rest)[t] == ds[t]);
        }
    }
}

/// Reads a JSON integer starting at its sign or first digit. On any text
/// that starts (at `i`) with the decimal form of an in-range `m` followed
/// by anything but a digit, the parse succeeds with exactly `m`.
fn parse_int(v: &Vec<char>, i: usize) -> (r: Option<(i64, usize)>)
    requires
        i < v@.len(),
    ensures
        r is Some ==> i < (r->0).1 <= v@.len(),
        r is Some ==> v@.subrange(i as int, (r->0).1 as int) == dec_int((r->0).0 as int),
        forall|m: int, rest: Seq<char>|
            (i64::MIN <= m <= i64::MAX && v@.skip(i as int) == dec_int(m) + rest && (rest.len()
                == 0 || !is_digit(rest[0]))) ==> r is Some && (r->0).0 == m && (r->0).1 == i
                + dec_int(m).len(),
{
    let n = v.len();
    let neg = v[i] == '-';
    proof {
        assert forall|m: int, rest: Seq<char>|
            v@.skip(i as int) == dec_int(m) + rest implies neg == (m < 0) by {
            lemma_dec_digits_shape(if m < 0 { -m } else { m });
            assert(v@.skip(i as int)[0] == v@[i as int]);
            if m < 0 {
                assert(dec_int(m)[0] == '-');
                assert((dec_int(m) + rest)[0] == '-');
            } else {
                assert(dec_int(m)[0] == dec_digits(m)[0]);
                assert(is_digit(dec_digits(m)[0]));
                assert((dec_int(m) + rest)[0] == dec_digits(m)[0]);
            }
        }
    }
    let start = if neg {
        i + 1
    } else {
        i
    };
    let mut p = start;
    let mut acc: u64 = 0;
    proof {
        assert(v@.subrange(start as int, start as int) =~= Seq::<char>::empty());
    }
    while p < n && is_digit_exec(v[p])
        invariant
            i < n,
            start <= p <= n,
            n == v@.len(),
            neg == (v@[i as int] == '-'),
            start == i + (if neg {
                1int
            } else {
                0int
            }),
            all_digits(v@.subrange(start as int, p as int)),
            acc == digits_value(v@.subrange(start as int, p as int)),
            acc <= 9223372036854775808,
            forall|m: int, rest: Seq<char>|
                v@.skip(i as int) == dec_int(m) + rest ==> neg == (m < 0),
        decreases n - p,
    {
        proof {
            assert(v@.subrange(start as int, p + 1).drop_last() =~= v@.subrange(
                start as int,
                p as int,
            ));
            assert(v@.subrange(start as int, p + 1).last() == v@[p as int]);
        }
        if acc > 922337203685477580 {
            proof {
                assert forall|m: int, rest: Seq<char>|
                    !(i64::MIN <= m <= i64::MAX && v@.skip(i as int) == dec_int(m) + rest && (
                    rest.len() == 0 || !is_digit(rest[0]))) by {
                    if i64::MIN <= m <= i64::MAX && v@.skip(i as int) == dec_int(m) + rest && (
                    rest.len() == 0 || !is_digit(rest[0])) {
                        let mag = if m < 0 {
                            -m
                        } else {
                            m
                        };
                        let ds = dec_digits(mag);
                        int_hyp_facts(v@, i as int, start as int, p as int, m, rest);
                        let k = p - start;
                        assert(k < ds.len()) by {
                            if k == ds.len() {
                                assert(v@[p as int] == v@.skip(start as int)[k]);
                                assert((ds + rest)[k] == rest[0]);
                                assert(rest.len() > 0 && is_digit(rest[0]));
                            }
                        }
                        assert(digits_value(ds.take(k + 1)) == digits_value(ds.take(k)) * 10
                            + digit_of(ds[k])) by {
                            assert(ds.take(k + 1).drop_last() =~= ds.take(k));
                            assert(ds.take(k + 1).last() == ds[k]);
                        }
                        assert(all_digits(ds.take(k + 1))) by {
                            assert(forall|t: int|
                                0 <= t < k + 1 ==> ds.take(k + 1)[t] == ds[t]);
                        }
                        assert(digit_of(ds[k]) >= 0);
                        lemma_digits_value_mono(ds, k + 1);
                        assert(digits_value(ds) >= acc * 10);
                        assert(mag <= 9223372036854775808);
                        assert(false);
                    }
                }
            }
            return None;
        }
        let d = digit_value(v[p]);
        acc = acc * 10 + d;
        if acc > 9223372036854775808 {
            proof {
                assert forall|m: int, rest: Seq<char>|
                    !(i64::MIN <= m <= i64::MAX && v@.skip(i as int) == dec_int(m) + rest && (
                    rest.len() == 0 || !is_digit(rest[0]))) by {
                    if i64::MIN <= m <= i64::MAX && v@.skip(i as int) == dec_int(m) + rest && (
                    rest.len() == 0 || !is_digit(rest[0])) {
                        let mag = if m < 0 {
                            -m
                        } else {
                            m
                        };
                        let ds = dec_digits(mag);
                        assert(all_digits(v@.subrange(start as int, p + 1)));
                        int_hyp_facts(v@, i as int, start as int, p + 1, m, rest);
                        assert(acc == digits_value(ds.take(p + 1 - start)));
                        lemma_digits_value_mono(ds, p + 1 - start);
                        assert(mag <= 9223372036854775808);
                        assert(false);
                    }
                }
            }
            return None;
        }
        p += 1;
    }
    if p == start {
        proof {
            assert forall|m: int, rest: Seq<char>|
                !(i64::MIN <= m <= i64::MAX && v@.skip(i as int) == dec_int(m) + rest && (
                rest.len() == 0 || !is_digit(rest[0]))) by {
                if i64::MIN <= m <= i64::MAX && v@.skip(i as int) == dec_int(m) + rest && (
                rest.len() == 0 || !is_digit(rest[0])) {
                    let mag = if m < 0 {
                        -m
                    } else {
                        m
                    };
                    let ds = dec_digits(mag);
                    int_hyp_facts(v@, i as int, start as int, p as int, m, rest);
                    assert(start < n) by {
                        assert(v@.skip(start as int).len() >= 1);
                    }
                    assert(v@[start as int] == v@.skip(start as int)[0]);
                    assert((ds + rest)[0] == ds[0]);
                    assert(is_digit(v@[start as int]));
                    assert(false);
                }
            }
        }
        return None;
    }
    proof {
        assert forall|m: int, rest: Seq<char>|
            (i64::MIN <= m <= i64::MAX && v@.skip(i as int) == dec_int(m) + rest && (rest.len()
                == 0 || !is_digit(rest[0]))) implies ({
            let mag = if m < 0 {
                -m
            } else {
                m
            };
            acc == mag && p == i + dec_int(m).len() && v@.subrange(start as int, p as int)
                == dec_digits(mag)
        }) by {
            let mag = if m < 0 {
                -m
            } else {
                m
            };
            let ds = dec_digits(mag);
            int_hyp_facts(v@, i as int, start as int, p as int, m, rest);
            let k = p - start;
            assert(k == ds.len()) by {
                if k < ds.len() {
                    assert(v@[start + k] == v@.skip(start as int)[k]);
                    assert((ds + rest)[k] == ds[k]);
                    assert(is_digit(ds[k]));
                    assert(p < n) by {
                        assert(start + ds.len() <= v@.len());
                    }
                    assert(!is_digit(v@[p as int]));
                }
            }
            assert(v@.subrange(start as int, p as int) == ds.take(k));
            assert(ds.take(k) =~= ds);
            assert(acc == digits_value(ds));
            assert(dec_int(m).len() == (if m < 0 {
                1int
            } else {
                0int
            }) + ds.len());
        }
    }
    if v[start] == '0' && p - start > 1 {
        // A canonical decimal form has no leading zero.
        proof {
            assert forall|m: int, rest: Seq<char>|
                !(i64::MIN <= m <= i64::MAX && v@.skip(i as int) == dec_int(m) + rest && (
                rest.len() == 0 || !is_digit(rest[0]))) by {
                if i64::MIN <= m <= i64::MAX && v@.skip(i as int) == dec_int(m) + rest && (
                rest.len() == 0 || !is_digit(rest[0])) {
                    let mag = if m < 0 {
                        -m
                    } else {
                        m
                    };
                    let ds = dec_digits(mag);
                    assert(v@.subrange(start as int, p as int) == ds);
                    assert(ds[0] == v@[start as int]) by {
                        assert(v@.subrange(start as int, p as int)[0] == v@[start as int]);
                    }
                    assert(ds.len() > 1);
                    assert(mag >= 10) by {
                        if mag < 10 {
                            assert(ds == seq![crate::num::digit_char(mag)]);
                        }
                    }
                    lemma_dec_digits_shape(mag);
                    assert(ds[0] != '0');
                }
            }
        }
        return None;
    }
    if neg && acc == 0 {
        // A canonical negative form never writes negative zero.
        proof {
            assert forall|m: int, rest: Seq<char>|
                !(i64::MIN <= m <= i64::MAX && v@.skip(i as int) == dec_int(m) + rest && (
                rest.len() == 0 || !is_digit(rest[0]))) by {
                if i64::MIN <= m <= i64::MAX && v@.skip(i as int) == dec_int(m) + rest && (
                rest.len() == 0 || !is_digit(rest[0])) {
                    assert(m < 0);
                    assert(acc == -m);
                }
            }
        }
        return None;
    }
    proof {
        assert(all_digits(v@.subrange(start as int, p as int)));
        assert(v@.subrange(start as int, p as int).len() >= 1);
        assert(v@.subrange(start as int, p as int)[0] == v@[start as int]);
        lemma_dec_digits_inverse(v@.subrange(start as int, p as int));
        assert(dec_digits(acc as int) == v@.subrange(start as int, p as int));
    }
    if neg {
        if acc > 9223372036854775808 {
            return None;
        }
        let val: i64 = if acc == 0 {
            0
        } else {
            -((acc - 1) as i64) - 1
        };
        proof {
            assert(val as int == -(acc as int));
            assert(val < 0);
            assert(dec_int(val as int) == seq!['-'] + dec_digits(acc as int));
            assert(v@.subrange(i as int, p as int) =~= seq![v@[i as int]] + v@.subrange(
                start as int,
                p as int,
            ));
            assert(v@.subrange(i as int, p as int) == dec_int(val as int));
        }
        Some((val, p))
    } else {
        if acc > 9223372036854775807 {
            proof {
                assert forall|m: int, rest: Seq<char>|
                    !(i64::MIN <= m <= i64::MAX && v@.skip(i as int) == dec_int(m) + rest && (
                    rest.len() == 0 || !is_digit(rest[0]))) by {
                    if i64::MIN <= m <= i64::MAX && v@.skip(i as int) == dec_int(m) + rest && (
                    rest.len() == 0 || !is_digit(rest[0])) {
                        assert(m >= 0);
                        assert(acc == m);
                    }
                }
            }
            return None;
        }
        proof {
            assert(v@.subrange(i as int, p as int) == dec_int(acc as int));
        }
        Some((acc as i64, p))
    }
}

/// The comma-led tail grows one entry at a time.
proof fn lemma_enc_rest_push(fs: Seq<(Seq<char>, JsonV)>, f: (Seq<char>, JsonV))
    ensures
        enc_fields_rest(fs.push(f)) == enc_fields_rest(fs) + seq![','] + enc_entry(f),
    decreases fs.len(),
{
    let p = fs.push(f);
    if fs.len() == 0 {
        assert(p[0] == f);
        assert(p.drop_first() =~= Seq::<(Seq<char>, JsonV)>::empty());
        assert(enc_fields_rest(p.drop_first()) == Seq::<char>::empty());
        assert(enc_fields_rest(p) == seq![','] + enc_entry(f) + enc_fields_rest(p.drop_first()));
        assert(enc_fields_rest(p) =~= enc_fields_rest(fs) + seq![','] + enc_entry(f));
    } else {
        assert(p[0] == fs[0]);
        assert(p.drop_first() =~= fs.drop_first().push(f));
        lemma_enc_rest_push(fs.drop_first(), f);
        assert(enc_fields_rest(p) == seq![','] + enc_entry(fs[0]) + (enc_fields_rest(
            fs.drop_first(),
        ) + seq![','] + enc_entry(f)));
        assert(enc_fields_rest(p) =~= enc_fields_rest(fs) + seq![','] + enc_entry(f));
    }
}

/// The object body grows one entry at a time: a first entry plainly, a
/// later one behind a comma.
proof fn lemma_enc_fields_push(fs: Seq<(Seq<char>, JsonV)>, f: (Seq<char>, JsonV))
    ensures
        fs.len() == 0 ==> enc_fields(fs.push(f)) == enc_entry(f),
        fs.len() > 0 ==> enc_fields(fs.push(f)) == enc_fields(fs) + seq![','] + enc_entry(f),
{
    let p = fs.push(f);
    if fs.len() == 0 {
        assert(p[0] == f);
        assert(p.drop_first() =~= Seq::<(Seq<char>, JsonV)>::empty());
        assert(enc_fields_rest(p.drop_first()) == Seq::<char>::empty());
        assert(enc_fields(p) =~= enc_entry(f));
    } else {
        assert(p[0] == fs[0]);
        assert(p.drop_first() =~= fs.drop_first().push(f));
        lemma_enc_rest_push(fs.drop_first(), f);
        assert(enc_fields(p) == enc_entry(fs[0]) + (enc_fields_rest(fs.drop_first()) + seq![',']
            + enc_entry(f)));
        assert(enc_fields(p) =~= enc_fields(fs) + seq![','] + enc_entry(f));
    }
}

/// What the scanner consumed before standing at the start of the next
/// field: the opening brace and every finished field, a comma trailing
/// when at least one field is done.
pub open spec fn obj_front(v: Seq<char>, i: int, j: int, fs: Seq<(Seq<char>, JsonV)>) -> bool {
    if fs.len() == 0 {
        v.subrange(i, j) == seq!['{']
    } else {
        v.subrange(i, j) == seq!['{'] + enc_fields(fs) + seq![',']
    }
}

/// The text at `i` is an encoded object with fields `fs` followed by
/// `rest`.
pub open spec fn obj_hyp(
    v: Seq<char>,
    i: int,
    fs: Seq<(Seq<char>, JsonV)>,
    rest: Seq<char>,
) -> bool {
    wf_fields(fs) && v.skip(i) == seq!['{'] + enc_fields(fs) + seq!['}'] + rest
}

/// The scanner's position after `t` parsed fields: at the start of the
/// encoding of field `t`.
pub open spec fn obj_at_field(
    v: Seq<char>,
    j: int,
    fs: Seq<(Seq<char>, JsonV)>,
    t: int,
    rest: Seq<char>,
) -> bool {
    t < fs.len() && v.skip(j) == enc_entry(fs[t]) + enc_fields_rest(fs.skip(t + 1)) + seq!['}']
        + rest
}

/// The first character of an encoded value is a quote, a sign or digit,
/// or an opening brace, by variant.
proof fn value_first_char(v: Seq<char>, i: int, jv: JsonV, rest: Seq<char>)
    requires
        0 <= i < v.len(),
        wf_json(jv),
        v.skip(i) == enc_json(jv) + rest,
    ensures
        v[i] == enc_json(jv)[0],
        jv is Str <==> v[i] == '"',
        jv is Obj <==> v[i] == '{',
        jv is Int <==> (v[i] == '-' || is_digit(v[i])),
{
    lemma_enc_shape(jv);
    assert(v.skip(i)[0] == v[i]);
    assert((enc_json(jv) + rest)[0] == enc_json(jv)[0]);
}

/// Splits an object-field position into its parts: key text, colon,
/// value text, and what follows.
proof fn obj_field_parts(
    v: Seq<char>,
    j: int,
    fs: Seq<(Seq<char>, JsonV)>,
    t: int,
    rest: Seq<char>,
)
    requires
        0 <= j <= v.len(),
        0 <= t,
        wf_fields(fs),
        obj_at_field(v, j, fs, t, rest),
    ensures
        ({
            let key = fs[t].0;
            let val = fs[t].1;
            let after = enc_fields_rest(fs.skip(t + 1)) + seq!['}'] + rest;
            &&& v.skip(j) == enc_str(key) + (seq![':'] + enc_json(val) + after)
            &&& j + enc_str(key).len() + 1 + enc_json(val).len() + after.len() == v.len()
            &&& v.skip(j + enc_str(key).len()) == seq![':'] + (enc_json(val) + after)
            &&& v.skip(j + enc_str(key).len() + 1) == enc_json(val) + after
            &&& v.skip(j + enc_str(key).len() + 1 + enc_json(val).len()) == after
            &&& wf_json(val)
            &&& follow_ok(val, after)
            &&& after.len() >= 1
            &&& (fs.len() > t + 1 ==> after[0] == ',')
            &&& (fs.len() == t + 1 ==> after[0] == '}')
        }),
{
    let key = fs[t].0;
    let val = fs[t].1;
    let after = enc_fields_rest(fs.skip(t + 1)) + seq!['}'] + rest;
    assert(enc_entry(fs[t]) == enc_str(key) + seq![':'] + enc_json(val));
    assert(v.skip(j) == enc_str(key) + (seq![':'] + enc_json(val) + after)) by {
        assert(enc_entry(fs[t]) + enc_fields_rest(fs.skip(t + 1)) + seq!['}'] + rest =~= enc_str(
            key,
        ) + (seq![':'] + enc_json(val) + after));
    }
    lemma_skip_append(v, j, enc_str(key), seq![':'] + enc_json(val) + after);
    let j2 = j + enc_str(key).len();
    assert(v.skip(j2) == seq![':'] + (enc_json(val) + after)) by {
        assert(seq![':'] + enc_json(val) + after =~= seq![':'] + (enc_json(val) + after));
    }
    lemma_skip_append(v, j2, seq![':'], enc_json(val) + after);
    lemma_skip_append(v, j2 + 1, enc_json(val), after);
    lemma_wf_fields_index(fs, t);
    let tail = fs.skip(t + 1);
    if fs.len() > t + 1 {
        assert(tail.len() > 0);
        assert(enc_fields_rest(tail) == seq![','] + enc_entry(tail[0]) + enc_fields_rest(
            tail.drop_first(),
        ));
        assert(after[0] == ',');
    } else {
        assert(tail.len() == 0);
        assert(enc_fields_rest(tail).len() == 0);
        assert(after =~= seq!['}'] + rest);
        assert(after[0] == '}');
    }
    assert(follow_ok(val, after)) by {
        assert(!is_digit(','));
        assert(!is_digit('}'));
    }
}

/// Reads the remaining fields of an object, the scanner standing at the
/// start of a field.
#[verifier::rlimit(100)]
fn parse_obj_fields(v: &Vec<char>, i: usize, j: usize, done: Vec<(String, Json)>) -> (r: Option<
    (Json, usize),
>)
    requires
        i < j <= v@.len(),
        obj_front(v@, i as int, j as int, fields_view(done@)),
        forall|fs: Seq<(Seq<char>, JsonV)>, rest: Seq<char>|
            obj_hyp(v@, i as int, fs, rest) ==> fields_view(done@) == fs.take(
                done@.len() as int,
            ) && obj_at_field(v@, j as int, fs, done@.len() as int, rest),
    ensures
        r is Some ==> i < (r->0).1 <= v@.len(),
        r is Some ==> v@.subrange(i as int, (r->0).1 as int) == enc_json(json_view((r->0).0)),
        forall|fs: Seq<(Seq<char>, JsonV)>, rest: Seq<char>|
            obj_hyp(v@, i as int, fs, rest) ==> r is Some && json_view((r->0).0) == JsonV::Obj(fs)
                && (r->0).1 == i + enc_json(JsonV::Obj(fs)).len(),
    decreases v@.len() - j, 0int,
{
    let n = v.len();
    if j >= n || v[j] != '"' {
        proof {
            assert forall|fs: Seq<(Seq<char>, JsonV)>, rest: Seq<char>|
                !obj_hyp(v@, i as int, fs, rest) by {
                if obj_hyp(v@, i as int, fs, rest) {
                    let t = done@.len() as int;
                    obj_field_parts(v@, j as int, fs, t, rest);
                    assert(v@.skip(j as int)[0] == '"');
                    assert(v@[j as int] == '"');
                }
            }
        }
        return None;
    }
    let key_parse = parse_str(v, j);
    let (key, j2) = match key_parse {
        Some(p) => p,
        None => {
            proof {
                assert forall|fs: Seq<(Seq<char>, JsonV)>, rest: Seq<char>|
                    !obj_hyp(v@, i as int, fs, rest) by {
                    if obj_hyp(v@, i as int, fs, rest) {
                        let t = done@.len() as int;
                        obj_field_parts(v@, j as int, fs, t, rest);
                    }
                }
            }
            return None;
        },
    };
    if j2 >= n || v[j2] != ':' {
        proof {
            assert forall|fs: Seq<(Seq<char>, JsonV)>, rest: Seq<char>|
                !obj_hyp(v@, i as int, fs, rest) by {
                if obj_hyp(v@, i as int, fs, rest) {
                    let t = done@.len() as int;
                    obj_field_parts(v@, j as int, fs, t, rest);
                    assert(j2 == j + enc_str(fs[t].0).len());
                    assert(v@.skip(j2 as int)[0] == ':');
                    assert(v@[j2 as int] == ':');
                }
            }
        }
        return None;
    }
    let j3 = j2 + 1;
    let val_parse = parse_value(v, j3);
    let (val, j4) = match val_parse {
        Some(p) => p,
        None => {
            proof {
                assert forall|fs: Seq<(Seq<char>, JsonV)>, rest: Seq<char>|
                    !obj_hyp(v@, i as int, fs, rest) by {
                    if obj_hyp(v@, i as int, fs, rest) {
                        let t = done@.len() as int;
                        obj_field_parts(v@, j as int, fs, t, rest);
                        assert(j3 == j + enc_str(fs[t].0).len() + 1);
                    }
                }
            }
            return None;
        },
    };
    let mut done2 = done;
    let ghost done1 = done2@;
    done2.push((key, val));
    proof {
        assert(done2@ =~= done1.push((key, val)));
        lemma_fields_view_push(done1, key, val);
        assert(v@.subrange(j as int, j4 as int) =~= v@.subrange(j as int, j2 as int) + seq![
            v@[j2 as int],
        ] + v@.subrange(j3 as int, j4 as int));
        assert(v@.subrange(j as int, j4 as int) == enc_entry((key@, json_view(val))));
        assert forall|fs: Seq<(Seq<char>, JsonV)>, rest: Seq<char>|
            obj_hyp(v@, i as int, fs, rest) implies fields_view(done2@) == fs.take(
            done2@.len() as int,
        ) && v@.skip(j4 as int) == enc_fields_rest(fs.skip(done2@.len() as int)) + seq!['}']
            + rest by {
            let t = done1.len() as int;
            obj_field_parts(v@, j as int, fs, t, rest);
            assert(key@ == fs[t].0);
            assert(j2 == j + enc_str(fs[t].0).len());
            assert(json_view(val) == fs[t].1);
            assert(j4 == j3 + enc_json(fs[t].1).len());
            assert(fields_view(done2@) == fields_view(done1).push((key@, json_view(val))));
            assert((fs[t].0, fs[t].1) == fs[t]);
            assert(fields_view(done2@) =~= fs.take(t + 1));
        }
    }
    let n2 = v.len();
    if j4 >= n2 {
        proof {
            assert forall|fs: Seq<(Seq<char>, JsonV)>, rest: Seq<char>|
                !obj_hyp(v@, i as int, fs, rest) by {
                if obj_hyp(v@, i as int, fs, rest) {
                    let t2 = done2@.len() as int;
                    assert(v@.skip(j4 as int).len() >= 1) by {
                        assert((enc_fields_rest(fs.skip(t2)) + seq!['}'] + rest).len() >= 1);
                    }
                }
            }
        }
        return None;
    }
    let c = v[j4];
    if c == ',' {
        proof {
            assert forall|fs: Seq<(Seq<char>, JsonV)>, rest: Seq<char>|
                obj_hyp(v@, i as int, fs, rest) implies fields_view(done2@) == fs.take(
                done2@.len() as int,
            ) && obj_at_field(v@, j4 + 1, fs, done2@.len() as int, rest) by {
                let t2 = done2@.len() as int;
                let tail = fs.skip(t2);
                assert(v@.skip(j4 as int) == enc_fields_rest(tail) + seq!['}'] + rest);
                if tail.len() == 0 {
                    assert(enc_fields_rest(tail).len() == 0);
                    assert(v@.skip(j4 as int) =~= seq!['}'] + rest);
                    assert(v@.skip(j4 as int)[0] == '}');
                    assert(false);
                }
                assert(enc_fields_rest(tail) == seq![','] + enc_entry(tail[0])
                    + enc_fields_rest(tail.drop_first()));
                assert(tail[0] == fs[t2]);
                assert(tail.drop_first() =~= fs.skip(t2 + 1));
                assert(v@.skip(j4 as int) == seq![','] + (enc_entry(fs[t2]) + enc_fields_rest(
                    fs.skip(t2 + 1),
                ) + seq!['}'] + rest)) by {
                    assert((seq![','] + enc_entry(fs[t2]) + enc_fields_rest(fs.skip(t2 + 1)))
                        + seq!['}'] + rest =~= seq![','] + (enc_entry(fs[t2]) + enc_fields_rest(
                        fs.skip(t2 + 1),
                    ) + seq!['}'] + rest));
                }
                lemma_skip_append(
                    v@,
                    j4 as int,
                    seq![','],
                    enc_entry(fs[t2]) + enc_fields_rest(fs.skip(t2 + 1)) + seq!['}'] + rest,
                );
                assert(t2 < fs.len());
            }
            assert(v@.subrange(i as int, j4 + 1) =~= v@.subrange(i as int, j as int)
                + v@.subrange(j as int, j4 as int) + seq![v@[j4 as int]]);
            let fvd = fields_view(done1);
            let fnew = (key@, json_view(val));
            lemma_enc_fields_push(fvd, fnew);
            assert(fields_view(done2@) == fvd.push(fnew));
            if fvd.len() == 0 {
                assert(v@.subrange(i as int, j as int) == seq!['{']);
                assert(v@.subrange(i as int, j4 + 1) =~= seq!['{'] + enc_fields(
                    fields_view(done2@),
                ) + seq![',']);
            } else {
                assert(v@.subrange(i as int, j as int) == seq!['{'] + enc_fields(fvd)
                    + seq![',']);
                assert(v@.subrange(i as int, j4 + 1) =~= seq!['{'] + enc_fields(
                    fields_view(done2@),
                ) + seq![',']);
            }
            assert(fields_view(done2@).len() > 0) by {
                lemma_fields_view_len(done2@);
            }
        }
        parse_obj_fields(v, i, j4 + 1, done2)
    } else if c == '}' {
        let result = Some((Json::Obj(done2), j4 + 1));
        proof {
            assert(v@.subrange(i as int, j4 + 1) =~= v@.subrange(i as int, j as int)
                + v@.subrange(j as int, j4 as int) + seq![v@[j4 as int]]);
            let fvd = fields_view(done1);
            let fnew = (key@, json_view(val));
            lemma_enc_fields_push(fvd, fnew);
            assert(fields_view(done2@) == fvd.push(fnew));
            if fvd.len() == 0 {
                assert(v@.subrange(i as int, j as int) == seq!['{']);
            } else {
                assert(v@.subrange(i as int, j as int) == seq!['{'] + enc_fields(fvd)
                    + seq![',']);
            }
            assert(v@.subrange(i as int, j4 + 1) =~= seq!['{'] + enc_fields(fields_view(done2@))
                + seq!['}']);
            assert(enc_json(json_view(Json::Obj(done2))) == seq!['{'] + enc_fields(
                fields_view(done2@),
            ) + seq!['}']);
            assert forall|fs: Seq<(Seq<char>, JsonV)>, rest: Seq<char>|
                obj_hyp(v@, i as int, fs, rest) implies json_view(Json::Obj(done2))
                == JsonV::Obj(fs) && j4 + 1 == i + enc_json(JsonV::Obj(fs)).len() by {
                let t2 = done2@.len() as int;
                let tail = fs.skip(t2);
                assert(v@.skip(j4 as int) == enc_fields_rest(tail) + seq!['}'] + rest);
                if tail.len() > 0 {
                    assert(enc_fields_rest(tail) == seq![','] + enc_entry(tail[0])
                        + enc_fields_rest(tail.drop_first()));
                    assert(v@.skip(j4 as int)[0] == ',');
                    assert(false);
                }
                assert(t2 == fs.len());
                assert(fs.take(t2) =~= fs);
                assert(fields_view(done2@) == fs);
                assert(enc_fields_rest(tail).len() == 0);
                assert(v@.skip(j4 as int) =~= seq!['}'] + rest);
                assert(v@.skip(j4 as int).len() == v@.len() - j4);
                assert(v@.skip(i as int).len() == v@.len() - i);
                assert((seq!['{'] + enc_fields(fs) + seq!['}'] + rest).len() == 2 + enc_fields(
                    fs,
                ).len() + rest.len());
                assert(enc_json(JsonV::Obj(fs)).len() == 2 + enc_fields(fs).len());
            }
        }
        result
    } else {
        proof {
            assert forall|fs: Seq<(Seq<char>, JsonV)>, rest: Seq<char>|
                !obj_hyp(v@, i as int, fs, rest) by {
                if obj_hyp(v@, i as int, fs, rest) {
                    let t2 = done2@.len() as int;
                    let tail = fs.skip(t2);
                    assert(v@.skip(j4 as int) == enc_fields_rest(tail) + seq!['}'] + rest);
                    if tail.len() > 0 {
                        assert(enc_fields_rest(tail) == seq![','] + enc_entry(tail[0])
                            + enc_fields_rest(tail.drop_first()));
                        assert(v@.skip(j4 as int)[0] == ',');
                    } else {
                        assert(enc_fields_rest(tail).len() == 0);
                        assert(v@.skip(j4 as int) =~= seq!['}'] + rest);
                        assert(v@.skip(j4 as int)[0] == '}');
                    }
                }
            }
        }
        None
    }
}

/// Reads one JSON value starting at `i`. On any text that starts there
/// with the encoding of a well-formed value, followed by nothing that
/// could extend it, the parse succeeds and returns exactly that value
/// and the position just past its encoding.
pub fn parse_value(v: &Vec<char>, i: usize) -> (r: Option<(Json, usize)>)
    requires
        i <= v@.len(),
    ensures
        r is Some ==> i < (r->0).1 <= v@.len(),
        r is Some ==> v@.subrange(i as int, (r->0).1 as int) == enc_json(json_view((r->0).0)),
        forall|jv: JsonV, rest: Seq<char>|
            (wf_json(jv) && v@.skip(i as int) == enc_json(jv) + rest && follow_ok(jv, rest))
                ==> r is Some && json_view((r->0).0) == jv && (r->0).1 == i + enc_json(jv).len(),
    decreases v@.len() - i, 1int,
{
    let n = v.len();
    if i >= n {
        proof {
            assert forall|jv: JsonV, rest: Seq<char>|
                !(wf_json(jv) && v@.skip(i as int) == enc_json(jv) + rest && follow_ok(jv, rest))
                by {
                if wf_json(jv) && v@.skip(i as int) == enc_json(jv) + rest {
                    lemma_enc_shape(jv);
                    assert(v@.skip(i as int).len() == 0);
                }
            }
        }
        return None;
    }
    let c = v[i];
    if c == '"' {
        match parse_str(v, i) {
            Some(p) => {
                let result = Some((Json::Str(p.0), p.1));
                proof {
                    assert(v@.subrange(i as int, p.1 as int) == enc_json(json_view(Json::Str(
                        p.0,
                    ))));
                    assert forall|jv: JsonV, rest: Seq<char>|
                        (wf_json(jv) && v@.skip(i as int) == enc_json(jv) + rest && follow_ok(
                            jv,
                            rest,
                        )) implies result is Some && json_view((result->0).0) == jv && (
                    result->0).1 == i + enc_json(jv).len() by {
                        value_first_char(v@, i as int, jv, rest);
                        match jv {
                            JsonV::Str(s) => {
                                assert(v@.skip(i as int) == enc_str(s) + rest);
                            },
                            _ => {
                                assert(false);
                            },
                        }
                    }
                }
                result
            },
            None => {
                proof {
                    assert forall|jv: JsonV, rest: Seq<char>|
                        !(wf_json(jv) && v@.skip(i as int) == enc_json(jv) + rest && follow_ok(
                            jv,
                            rest,
                        )) by {
                        if wf_json(jv) && v@.skip(i as int) == enc_json(jv) + rest {
                            value_first_char(v@, i as int, jv, rest);
                            match jv {
                                JsonV::Str(s) => {
                                    assert(v@.skip(i as int) == enc_str(s) + rest);
                                },
                                _ => {
                                    assert(false);
                                },
                            }
                        }
                    }
                }
                None
            },
        }
    } else if c == '-' || is_digit_exec(c) {
        match parse_int(v, i) {
            Some(p) => {
                let result = Some((Json::Int(p.0), p.1));
                proof {
                    assert(v@.subrange(i as int, p.1 as int) == enc_json(json_view(Json::Int(
                        p.0,
                    ))));
                    assert forall|jv: JsonV, rest: Seq<char>|
                        (wf_json(jv) && v@.skip(i as int) == enc_json(jv) + rest && follow_ok(
                            jv,
                            rest,
                        )) implies result is Some && json_view((result->0).0) == jv && (
                    result->0).1 == i + enc_json(jv).len() by {
                        value_first_char(v@, i as int, jv, rest);
                        match jv {
                            JsonV::Int(m) => {
                                assert(v@.skip(i as int) == dec_int(m) + rest);
                            },
                            _ => {
                                assert(false);
                            },
                        }
                    }
                }
                result
            },
            None => {
                proof {
                    assert forall|jv: JsonV, rest: Seq<char>|
                        !(wf_json(jv) && v@.skip(i as int) == enc_json(jv) + rest && follow_ok(
                            jv,
                            rest,
                        )) by {
                        if wf_json(jv) && v@.skip(i as int) == enc_json(jv) + rest && follow_ok(
                            jv,
                            rest,
                        ) {
                            value_first_char(v@, i as int, jv, rest);
                            match jv {
                                JsonV::Int(m) => {
                                    assert(v@.skip(i as int) == dec_int(m) + rest);
                                },
                                _ => {
                                    assert(false);
                                },
                            }
                        }
                    }
                }
                None
            },
        }
    } else if c == '{' {
        if i + 1 >= n {
            proof {
                assert forall|jv: JsonV, rest: Seq<char>|
                    !(wf_json(jv) && v@.skip(i as int) == enc_json(jv) + rest && follow_ok(
                        jv,
                        rest,
                    )) by {
                    if wf_json(jv) && v@.skip(i as int) == enc_json(jv) + rest {
                        value_first_char(v@, i as int, jv, rest);
                        match jv {
                            JsonV::Obj(fs) => {
                                assert(v@.skip(i as int).len() == (enc_json(jv) + rest).len());
                                assert(enc_json(jv).len() >= 2) by {
                                    assert(enc_json(jv) == seq!['{'] + enc_fields(fs)
                                        + seq!['}']);
                                }
                            },
                            _ => {
                                assert(false);
                            },
                        }
                    }
                }
            }
            return None;
        }
        if v[i + 1] == '}' {
            let empty_fields: Vec<(String, Json)> = Vec::new();
            let result = Some((Json::Obj(empty_fields), i + 2));
            proof {
                assert(fields_view(empty_fields@) == Seq::<(Seq<char>, JsonV)>::empty());
                assert(enc_fields(fields_view(empty_fields@)) == Seq::<char>::empty());
                assert(v@.subrange(i as int, i + 2) =~= seq!['{'] + enc_fields(
                    fields_view(empty_fields@),
                ) + seq!['}']);
                assert(v@.subrange(i as int, i + 2) == enc_json(json_view(Json::Obj(
                    empty_fields,
                ))));
                assert forall|jv: JsonV, rest: Seq<char>|
                    (wf_json(jv) && v@.skip(i as int) == enc_json(jv) + rest && follow_ok(
                        jv,
                        rest,
                    )) implies result is Some && json_view((result->0).0) == jv && (result->0).1
                    == i + enc_json(jv).len() by {
                    value_first_char(v@, i as int, jv, rest);
                    match jv {
                        JsonV::Obj(fs) => {
                            assert(v@.skip(i as int) == seq!['{'] + (enc_fields(fs) + seq!['}']
                                + rest)) by {
                                assert(seq!['{'] + enc_fields(fs) + seq!['}'] + rest
                                    =~= seq!['{'] + (enc_fields(fs) + seq!['}'] + rest));
                            }
                            lemma_skip_append(
                                v@,
                                i as int,
                                seq!['{'],
                                enc_fields(fs) + seq!['}'] + rest,
                            );
                            if fs.len() > 0 {
                                assert(enc_fields(fs) == enc_entry(fs[0]) + enc_fields_rest(
                                    fs.drop_first(),
                                ));
                                assert(enc_entry(fs[0]) == enc_str(fs[0].0) + seq![':']
                                    + enc_json(fs[0].1));
                                assert(v@.skip(i + 1)[0] == '"');
                                assert(v@[i + 1] == '"');
                                assert(false);
                            }
                            assert(enc_fields(fs).len() == 0);
                            assert(fields_view(empty_fields@) =~= fs);
                            assert(enc_json(jv).len() == 2) by {
                                assert(enc_json(jv) =~= seq!['{', '}']);
                            }
                        },
                        _ => {
                            assert(false);
                        },
                    }
                }
            }
            return result;
        }
        let start_fields: Vec<(String, Json)> = Vec::new();
        proof {
            assert(fields_view(start_fields@) == Seq::<(Seq<char>, JsonV)>::empty());
            assert(v@.subrange(i as int, i + 1) =~= seq!['{']);
            assert(obj_front(v@, i as int, i + 1, fields_view(start_fields@)));
            assert forall|fs: Seq<(Seq<char>, JsonV)>, rest: Seq<char>|
                obj_hyp(v@, i as int, fs, rest) implies fields_view(start_fields@) == fs.take(
                start_fields@.len() as int,
            ) && obj_at_field(v@, i + 1, fs, start_fields@.len() as int, rest) by {
                assert(v@.skip(i as int) == seq!['{'] + (enc_fields(fs) + seq!['}'] + rest)) by {
                    assert(seq!['{'] + enc_fields(fs) + seq!['}'] + rest =~= seq!['{'] + (
                    enc_fields(fs) + seq!['}'] + rest));
                }
                lemma_skip_append(v@, i as int, seq!['{'], enc_fields(fs) + seq!['}'] + rest);
                if fs.len() == 0 {
                    assert(enc_fields(fs).len() == 0);
                    assert(v@.skip(i + 1) =~= seq!['}'] + rest);
                    assert(v@.skip(i + 1).len() >= 1);
                    assert(v@.skip(i + 1)[0] == v@[i + 1]);
                    assert(v@.skip(i + 1)[0] == '}');
                    assert(false);
                }
                assert(enc_fields(fs) == enc_entry(fs[0]) + enc_fields_rest(fs.drop_first()));
                assert(fs.drop_first() =~= fs.skip(1));
                assert(v@.skip(i + 1) == enc_entry(fs[0]) + enc_fields_rest(fs.skip(1))
                    + seq!['}'] + rest) by {
                    assert((enc_entry(fs[0]) + enc_fields_rest(fs.skip(1))) + seq!['}'] + rest
                        =~= enc_entry(fs[0]) + enc_fields_rest(fs.skip(1)) + seq!['}'] + rest);
                }
                assert(fields_view(start_fields@) =~= fs.take(0));
            }
        }
        let r = parse_obj_fields(v, i, i + 1, start_fields);
        proof {
            assert forall|jv: JsonV, rest: Seq<char>|
                (wf_json(jv) && v@.skip(i as int) == enc_json(jv) + rest && follow_ok(jv, rest))
                implies r is Some && json_view((r->0).0) == jv && (r->0).1 == i + enc_json(
                jv,
            ).len() by {
                value_first_char(v@, i as int, jv, rest);
                match jv {
                    JsonV::Obj(fs) => {
                        assert(obj_hyp(v@, i as int, fs, rest));
                    },
                    _ => {
                        assert(false);
                    },
                }
            }
        }
        r
    } else {
        proof {
            assert forall|jv: JsonV, rest: Seq<char>|
                !(wf_json(jv) && v@.skip(i as int) == enc_json(jv) + rest && follow_ok(jv, rest))
                by {
                if wf_json(jv) && v@.skip(i as int) == enc_json(jv) + rest {
                    value_first_char(v@, i as int, jv, rest);
                }
            }
        }
        None
    }
}

/// Reads a whole JSON text: one value covering every character. A success
/// means the text is exactly the encoding of the returned value.
pub fn text_to_json(s: &str) -> (r: Option<Json>)
    ensures
        r is Some ==> s@ == enc_json(json_view(r->0)),
        forall|jv: JsonV|
            (wf_json(jv) && s@ == enc_json(jv)) ==> r is Some && json_view(r->0) == jv,
{
    let v = chars_of(s);
    proof {
        assert(v@.skip(0) =~= v@);
        assert forall|jv: JsonV| (wf_json(jv) && s@ == enc_json(jv)) implies v@.skip(0)
            == enc_json(jv) + Seq::<char>::empty() && follow_ok(jv, Seq::<char>::empty()) by {
            assert(enc_json(jv) + Seq::<char>::empty() =~= enc_json(jv));
        }
    }
    match parse_value(&v, 0) {
        Some(p) => {
            if p.1 == v.len() {
                proof {
                    assert(v@.subrange(0, p.1 as int) =~= v@);
                }
                Some(p.0)
            } else {
                proof {
                    assert forall|jv: JsonV| !(wf_json(jv) && s@ == enc_json(jv)) by {
                        if wf_json(jv) && s@ == enc_json(jv) {
                            assert(p.1 == 0 + enc_json(jv).len());
                        }
                    }
                }
                None
            }
        },
        None => {
            proof {
                assert forall|jv: JsonV| !(wf_json(jv) && s@ == enc_json(jv)) by {
                    if wf_json(jv) && s@ == enc_json(jv) {
                        assert(v@.skip(0) == enc_json(jv) + Seq::<char>::empty());
                    }
                }
            }
            None
        },
    }
}

} // verus!
