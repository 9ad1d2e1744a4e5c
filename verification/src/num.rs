//! Decimal formatting and parsing of integers, shared by the color rules
//! and the dataset codec.
use crate::text::chars_of;
use vstd::prelude::*;

verus! {

/// The decimal digit character for a value below ten.
pub open spec fn digit_char(d: int) -> char {
    if d == 0 {
        '0'
    } else if d == 1 {
        '1'
    } else if d == 2 {
        '2'
    } else if d == 3 {
        '3'
    } else if d == 4 {
        '4'
    } else if d == 5 {
        '5'
    } else if d == 6 {
        '6'
    } else if d == 7 {
        '7'
    } else if d == 8 {
        '8'
    } else {
        '9'
    }
}

/// The value of a decimal digit character, or a negative number for any
/// other character.
pub open spec fn digit_of(c: char) -> int {
    if c == '0' {
        0
    } else if c == '1' {
        1
    } else if c == '2' {
        2
    } else if c == '3' {
        3
    } else if c == '4' {
        4
    } else if c == '5' {
        5
    } else if c == '6' {
        6
    } else if c == '7' {
        7
    } else if c == '8' {
        8
    } else if c == '9' {
        9
    } else {
        -1
    }
}

pub open spec fn is_digit(c: char) -> bool {
    digit_of(c) >= 0
}

/// Every character of `s` is a decimal digit.
pub open spec fn all_digits(s: Seq<char>) -> bool {
    forall|i: int| 0 <= i < s.len() ==> is_digit(s[i])
}

/// The decimal digits of a non-negative integer, most significant first.
pub open spec fn dec_digits(n: int) -> Seq<char>
    decreases n when n >= 0
{
    if n < 10 {
        seq![digit_char(n)]
    } else {
        dec_digits(n / 10).push(digit_char(n % 10))
    }
}

/// The decimal form of an integer, a minus sign leading a negative one.
pub open spec fn dec_int(n: int) -> Seq<char> {
    if n < 0 {
        seq!['-'] + dec_digits(-n)
    } else {
        dec_digits(n)
    }
}

/// The value of a string of decimal digits.
pub open spec fn digits_value(s: Seq<char>) -> int
    decreases s.len(),
{
    if s.len() == 0 {
        0
    } else {
        digits_value(s.drop_last()) * 10 + digit_of(s.last())
    }
}

pub proof fn lemma_dec_digits_shape(n: int)
    requires
        n >= 0,
    ensures
        dec_digits(n).len() >= 1,
        all_digits(dec_digits(n)),
        n >= 10 ==> dec_digits(n).len() >= 2,
        n > 0 ==> dec_digits(n)[0] != '0',
        digits_value(dec_digits(n)) == n,
    decreases n,
{
    if n < 10 {
        assert(digits_value(dec_digits(n)) == n) by {
            assert(dec_digits(n) == seq![digit_char(n)]);
            assert(digits_value(Seq::<char>::empty()) == 0);
            assert(dec_digits(n).drop_last() =~= Seq::<char>::empty());
            assert(dec_digits(n).last() == digit_char(n));
            lemma_digit_round(n);
        }
    } else {
        lemma_dec_digits_shape(n / 10);
        let d = dec_digits(n / 10);
        assert(dec_digits(n) == d.push(digit_char(n % 10)));
        assert(dec_digits(n)[0] == d[0]);
        assert(all_digits(dec_digits(n))) by {
            assert(forall|i: int| 0 <= i < d.len() ==> dec_digits(n)[i] == d[i]);
        }
        assert(digits_value(dec_digits(n)) == n) by {
            assert(dec_digits(n).drop_last() =~= d);
            assert(dec_digits(n).last() == digit_char(n % 10));
            assert(digits_value(d) == n / 10);
            lemma_digit_round(n % 10);
        }
    }
}

proof fn lemma_digit_round(d: int)
    requires
        0 <= d <= 9,
    ensures
        digit_of(digit_char(d)) == d,
{
}

pub proof fn lemma_digits_value_nonneg(s: Seq<char>)
    requires
        all_digits(s),
    ensures
        digits_value(s) >= 0,
    decreases s.len(),
{
    if s.len() > 0 {
        assert(all_digits(s.drop_last())) by {
            assert(forall|i: int| 0 <= i < s.len() - 1 ==> s.drop_last()[i] == s[i]);
        }
        lemma_digits_value_nonneg(s.drop_last());
        assert(is_digit(s.last()));
    }
}

/// A longer digit string never has a smaller value.
pub proof fn lemma_digits_value_mono(s: Seq<char>, j: int)
    requires
        all_digits(s),
        0 <= j <= s.len(),
    ensures
        digits_value(s) >= digits_value(s.take(j)),
    decreases s.len() - j,
{
    if j < s.len() {
        lemma_digits_value_mono(s, j + 1);
        assert(s.take(j + 1).drop_last() =~= s.take(j));
        assert(s.take(j + 1).last() == s[j]);
        assert(all_digits(s.take(j))) by {
            assert(forall|i: int| 0 <= i < j ==> s.take(j)[i] == s[i]);
        }
        lemma_digits_value_nonneg(s.take(j));
        assert(is_digit(s[j]));
        assert(digits_value(s.take(j + 1)) >= digits_value(s.take(j)));
    } else {
        assert(s.take(j) =~= s);
    }
}

/// The digit character of a value below ten.
pub fn digit_char_exec(d: u64) -> (c: char)
    requires
        d < 10,
    ensures
        c == digit_char(d as int),
{
    if d == 0 {
        '0'
    } else if d == 1 {
        '1'
    } else if d == 2 {
        '2'
    } else if d == 3 {
        '3'
    } else if d == 4 {
        '4'
    } else if d == 5 {
        '5'
    } else if d == 6 {
        '6'
    } else if d == 7 {
        '7'
    } else if d == 8 {
        '8'
    } else {
        '9'
    }
}

/// The value of a digit character, if it is one.
pub fn digit_of_exec(c: char) -> (r: Option<u64>)
    ensures
        match r {
            Some(d) => d < 10 && digit_of(c) == d as int,
            None => !is_digit(c),
        },
{
    if c == '0' {
        Some(0)
    } else if c == '1' {
        Some(1)
    } else if c == '2' {
        Some(2)
    } else if c == '3' {
        Some(3)
    } else if c == '4' {
        Some(4)
    } else if c == '5' {
        Some(5)
    } else if c == '6' {
        Some(6)
    } else if c == '7' {
        Some(7)
    } else if c == '8' {
        Some(8)
    } else if c == '9' {
        Some(9)
    } else {
        None
    }
}

proof fn lemma_char_round(c: char)
    requires
        is_digit(c),
    ensures
        digit_char(digit_of(c)) == c,
{
}

/// A digit string without a leading zero is the decimal form of its own
/// value.
pub proof fn lemma_dec_digits_inverse(s: Seq<char>)
    requires
        all_digits(s),
        s.len() >= 1,
        s.len() > 1 ==> s[0] != '0',
    ensures
        dec_digits(digits_value(s)) == s,
    decreases s.len(),
{
    lemma_digits_value_nonneg(s);
    let n = digits_value(s);
    if s.len() == 1 {
        assert(n == digits_value(s.drop_last()) * 10 + digit_of(s.last())) by {
            assert(s.drop_last() =~= Seq::<char>::empty());
        }
        assert(n == digit_of(s[0]));
        lemma_char_round(s[0]);
        assert(dec_digits(n) =~= s);
    } else {
        let front = s.drop_last();
        assert(all_digits(front)) by {
            assert(forall|i: int| 0 <= i < front.len() ==> front[i] == s[i]);
        }
        assert(front[0] == s[0]);
        assert(front[0] != '0');
        let q = digits_value(front);
        lemma_digits_value_nonneg(front);
        assert(q >= 1) by {
            lemma_digits_value_mono(front, 1);
            assert(digits_value(Seq::<char>::empty()) == 0);
            assert(front.take(1).drop_last() =~= Seq::<char>::empty());
            assert(front.take(1).last() == front[0]);
            assert(digits_value(front.take(1)) == digit_of(front[0]));
            assert(digit_of(front[0]) >= 1);
        }
        let d = digit_of(s.last());
        assert(n == q * 10 + d);
        assert(n >= 10);
        assert(n / 10 == q && n % 10 == d) by (nonlinear_arith)
            requires
                n == q * 10 + d,
                0 <= d < 10,
                q >= 0,
        ;
        lemma_dec_digits_inverse(front);
        lemma_char_round(s.last());
        assert(dec_digits(n) == dec_digits(q).push(digit_char(d)));
        assert(dec_digits(n) =~= s);
    }
}

/// Tests for a decimal digit character.
pub fn is_digit_exec(c: char) -> (r: bool)
    ensures
        r == is_digit(c),
{
    c == '0' || c == '1' || c == '2' || c == '3' || c == '4' || c == '5' || c == '6' || c == '7'
        || c == '8' || c == '9'
}

/// The value of a known digit character.
pub fn digit_value(c: char) -> (d: u64)
    requires
        is_digit(c),
    ensures
        d < 10,
        d as int == digit_of(c),
{
    match digit_of_exec(c) {
        Some(d) => d,
        None => {
            proof {
                assert(false);
            }
            0
        },
    }
}

/// Writes an unsigned integer in decimal.
pub fn u64_to_chars(n: u64) -> (r: Vec<char>)
    ensures
        r@ == dec_digits(n as int),
{
    let mut acc: Vec<char> = Vec::new();
    let mut x = n;
    proof {
        assert(dec_digits(n as int) =~= dec_digits(n as int) + acc@);
    }
    while x >= 10
        invariant
            dec_digits(n as int) == dec_digits(x as int) + acc@,
        decreases x,
    {
        let ghost acc0 = acc@;
        let d = digit_char_exec(x % 10);
        acc.insert(0, d);
        proof {
            assert(acc@ =~= seq![digit_char(x as int % 10)] + acc0);
            assert(dec_digits(x as int) == dec_digits(x as int / 10).push(
                digit_char(x as int % 10),
            ));
            assert((dec_digits(x as int) + acc0) =~= (dec_digits(x as int / 10) + acc@));
        }
        x = x / 10;
    }
    let ghost acc0 = acc@;
    let d = digit_char_exec(x);
    acc.insert(0, d);
    proof {
        assert(acc@ =~= seq![digit_char(x as int)] + acc0);
        assert(dec_digits(x as int) == seq![digit_char(x as int)]);
        assert((dec_digits(x as int) + acc0) =~= acc@);
    }
    acc
}

/// Writes a signed integer in decimal.
pub fn i64_to_chars(n: i64) -> (r: Vec<char>)
    ensures
        r@ == dec_int(n as int),
{
    if n >= 0 {
        u64_to_chars(n as u64)
    } else {
        let mag: u64 = ((-(n + 1)) as u64) + 1;
        proof {
            assert(mag as int == -(n as int));
        }
        let digits = u64_to_chars(mag);
        let mut out: Vec<char> = Vec::new();
        out.push('-');
        let mut i: usize = 0;
        while i < digits.len()
            invariant
                i <= digits@.len(),
                out@ == seq!['-'] + digits@.subrange(0, i as int),
            decreases digits@.len() - i,
        {
            out.push(digits[i]);
            assert(out@ =~= seq!['-'] + digits@.subrange(0, i + 1));
            i += 1;
        }
        proof {
            assert(digits@.subrange(0, digits@.len() as int) =~= digits@);
        }
        out
    }
}

/// What parsing a 32-bit integer accepts: an optional sign, then at least
/// one digit, the value within range.
pub open spec fn parse_i32_spec(s: Seq<char>) -> Option<int> {
    let neg = s.len() > 0 && s[0] == '-';
    let ds = if s.len() > 0 && (s[0] == '+' || s[0] == '-') {
        s.drop_first()
    } else {
        s
    };
    if ds.len() == 0 || !all_digits(ds) {
        None
    } else {
        let v = if neg {
            -digits_value(ds)
        } else {
            digits_value(ds)
        };
        if -2147483648 <= v <= 2147483647 {
            Some(v)
        } else {
            None
        }
    }
}

/// Parses a 32-bit integer as the color rules need it: sign, digits,
/// range-checked.
pub fn parse_i32(s: &str) -> (r: Option<i32>)
    ensures
        match r {
            Some(x) => parse_i32_spec(s@) == Some(x as int),
            None => parse_i32_spec(s@) is None,
        },
{
    let v = chars_of(s);
    let n = v.len();
    let mut start: usize = 0;
    let mut neg = false;
    if n > 0 && (v[0] == '+' || v[0] == '-') {
        neg = v[0] == '-';
        start = 1;
    }
    proof {
        if start == 1 {
            assert(v@.drop_first() =~= v@.skip(1));
        } else {
            assert(v@.skip(0) =~= v@);
        }
    }
    if start == n {
        return None;
    }
    let ghost ds = v@.skip(start as int);
    let mut acc: u64 = 0;
    let mut i = start;
    while i < n
        invariant
            start <= i <= n,
            n == v@.len(),
            v@ == s@,
            ds == v@.skip(start as int),
            neg == (s@.len() > 0 && s@[0] == '-'),
            ds == if s@.len() > 0 && (s@[0] == '+' || s@[0] == '-') {
                s@.drop_first()
            } else {
                s@
            },
            start < n,
            acc <= 2147483648,
            acc == digits_value(ds.take(i - start)),
            all_digits(ds.take(i - start)),
        decreases n - i,
    {
        proof {
            assert(ds[i - start] == v@[i as int]);
            assert(ds.take(i - start + 1).drop_last() =~= ds.take(i - start));
            assert(ds.take(i - start + 1).last() == ds[i - start]);
        }
        match digit_of_exec(v[i]) {
            None => {
                proof {
                    assert(!all_digits(ds));
                }
                return None;
            },
            Some(d) => {
                acc = acc * 10 + d;
                if acc > 2147483648 {
                    proof {
                        if all_digits(ds) {
                            lemma_digits_value_mono(ds, i - start + 1);
                        }
                    }
                    return None;
                }
            },
        }
        i += 1;
    }
    proof {
        assert(ds.take(n - start) =~= ds);
    }
    if neg {
        proof {
            assert(parse_i32_spec(s@) == Some(-(acc as int)));
        }
        let out: i64 = -(acc as i64);
        proof {
            assert(-2147483648 <= out <= 2147483647);
        }
        Some(out as i32)
    } else {
        if acc > 2147483647 {
            None
        } else {
            Some(acc as i32)
        }
    }
}

} // verus!
