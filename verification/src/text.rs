//! Verified text helpers: character classes, string equality, decimal
//! rendering of numbers, and decimal parsing with exact overflow bounds.

use vstd::prelude::*;
use vstd::string::*;

verus! {

/// Characters the shell treats as whitespace.
pub open spec fn is_space(c: char) -> bool {
    c == ' ' || c == '\t' || c == '\n' || c == '\r'
}

/// Executable test for [`is_space`].
pub fn is_space_char(c: char) -> (r: bool)
    ensures
        r == is_space(c),
{
    c == ' ' || c == '\t' || c == '\n' || c == '\r'
}

pub open spec fn is_digit(c: char) -> bool {
    48 <= c as u32 <= 57
}

pub open spec fn digit_of(c: char) -> int {
    c as u32 - 48
}

pub open spec fn all_digits(s: Seq<char>) -> bool {
    forall|i: int| 0 <= i < s.len() ==> is_digit(#[trigger] s[i])
}

/// Character-wise string equality, proved equivalent to view equality.
pub fn str_eq(a: &str, b: &str) -> (r: bool)
    ensures
        r == (a@ == b@),
{
    let alen = a.unicode_len();
    let blen = b.unicode_len();
    if alen != blen {
        return false;
    }
    let mut i: usize = 0;
    while i < alen
        invariant
            alen == a@.len(),
            blen == b@.len(),
            alen == blen,
            0 <= i <= alen,
            forall|j: int| 0 <= j < i ==> a@[j] == b@[j],
        decreases alen - i,
    {
        if a.get_char(i) != b.get_char(i) {
            return false;
        }
        i += 1;
    }
    proof {
        assert(a@ =~= b@);
    }
    true
}

/// The decimal digits of a non-negative number, most significant first.
pub open spec fn dec_rep(n: int) -> Seq<char>
    decreases n,
{
    if n < 0 {
        Seq::empty()
    } else if n < 10 {
        seq![spec_digit_char(n)]
    } else {
        dec_rep(n / 10).push(spec_digit_char(n % 10))
    }
}

/// The decimal text of a signed number: a minus sign for negatives.
pub open spec fn int_rep(v: int) -> Seq<char> {
    if v < 0 {
        seq!['-'] + dec_rep(-v)
    } else {
        dec_rep(v)
    }
}

pub open spec fn spec_digit_char(d: int) -> char {
    if d == 0 {
        '0'
    } else if d == 1 {
        '1'
    } else if d == 2 {
        '2'
    } else if d == 3 {
        '3'
    } else if d == 4 {
        '4'
    } else if d == 5 {
        '5'
    } else if d == 6 {
        '6'
    } else if d == 7 {
        '7'
    } else if d == 8 {
        '8'
    } else {
        '9'
    }
}

fn digit_str(d: usize) -> (r: &'static str)
    requires
        d < 10,
    ensures
        r@ == seq![spec_digit_char(d as int)],
{
    proof {
        reveal_strlit("0");
        reveal_strlit("1");
        reveal_strlit("2");
        reveal_strlit("3");
        reveal_strlit("4");
        reveal_strlit("5");
        reveal_strlit("6");
        reveal_strlit("7");
        reveal_strlit("8");
        reveal_strlit("9");
    }
    let r = if d == 0 {
        "0"
    } else if d == 1 {
        "1"
    } else if d == 2 {
        "2"
    } else if d == 3 {
        "3"
    } else if d == 4 {
        "4"
    } else if d == 5 {
        "5"
    } else if d == 6 {
        "6"
    } else if d == 7 {
        "7"
    } else if d == 8 {
        "8"
    } else {
        "9"
    };
    proof {
        assert(r@ =~= seq![spec_digit_char(d as int)]);
    }
    r
}

/// Render a number in decimal.
pub fn usize_to_string(n: usize) -> (r: String)
    ensures
        r@ == dec_rep(n as int),
    decreases n,
{
    if n < 10 {
        String::from_str(digit_str(n))
    } else {
        proof {
            assert(n / 10 < n && n / 10 >= 1) by (nonlinear_arith)
                requires
                    n >= 10,
            ;
        }
        let mut s = usize_to_string(n / 10);
        s.append(digit_str(n % 10));
        proof {
            assert(s@ =~= dec_rep(n as int));
        }
        s
    }
}

/// Render a signed number in decimal, with a leading minus for negatives.
pub fn i32_to_string(v: i32) -> (r: String)
    ensures
        r@ == int_rep(v as int),
{
    proof {
        reveal_strlit("-");
    }
    if v >= 0 {
        usize_to_string(v as usize)
    } else {
        let m = -(v as i64);
        let mut s = String::from_str("-");
        s.append(usize_to_string(m as usize).as_str());
        proof {
            assert(s@ =~= int_rep(v as int));
        }
        s
    }
}

/// The numeric value of a digit string, most significant digit first.
pub open spec fn digits_val(s: Seq<char>) -> int
    decreases s.len(),
{
    if s.len() == 0 {
        0
    } else {
        digits_val(s.drop_last()) * 10 + digit_of(s.last())
    }
}

/// A digit string's value is never negative.
proof fn lemma_digits_val_nonneg(s: Seq<char>)
    requires
        all_digits(s),
    ensures
        digits_val(s) >= 0,
    decreases s.len(),
{
    if s.len() > 0 {
        assert(all_digits(s.drop_last())) by {
            assert(forall|i: int|
                0 <= i < s.drop_last().len() ==> #[trigger] s.drop_last()[i] == s[i]);
        }
        lemma_digits_val_nonneg(s.drop_last());
    }
}

/// A prefix of a digit string never exceeds the whole string's value.
proof fn lemma_digits_val_prefix(s: Seq<char>, k: int)
    requires
        0 <= k <= s.len(),
        all_digits(s),
    ensures
        digits_val(s.take(k)) <= digits_val(s),
    decreases s.len() - k,
{
    if k < s.len() {
        lemma_digits_val_prefix(s, k + 1);
        assert(s.take(k + 1).drop_last() =~= s.take(k));
        assert(all_digits(s.take(k + 1))) by {
            assert(forall|i: int|
                0 <= i < s.take(k + 1).len() ==> #[trigger] s.take(k + 1)[i] == s[i]);
        }
        lemma_digits_val_nonneg(s.take(k));
        assert(digits_val(s.take(k + 1)) == digits_val(s.take(k)) * 10 + digit_of(s[k]));
        assert(digits_val(s.take(k)) <= digits_val(s.take(k)) * 10) by (nonlinear_arith)
            requires
                digits_val(s.take(k)) >= 0,
        ;
    } else {
        assert(s.take(k) =~= s);
    }
}

/// Parse the decimal digits of `s` from character `from` on.  Returns the
/// value exactly when every remaining character is a digit, at least one
/// digit is present, and the value does not exceed `bound`.
fn parse_digits(s: &str, from: usize, bound: u128) -> (r: Option<u128>)
    requires
        from <= s@.len(),
        bound <= 0xffff_ffff_ffff_ffff,
    ensures
        match r {
            Some(v) => {
                &&& s@.len() > from
                &&& all_digits(s@.skip(from as int))
                &&& v as int == digits_val(s@.skip(from as int))
                &&& v <= bound
            },
            None => {
                s@.len() == from || !all_digits(s@.skip(from as int)) || digits_val(
                    s@.skip(from as int),
                ) > bound
            },
        },
{
    let ghost d = s@.skip(from as int);
    let len = s.unicode_len();
    if from == len {
        return None;
    }
    let mut i: usize = from;
    let mut acc: u128 = 0;
    while i < len
        invariant
            from <= i <= len,
            len == s@.len(),
            from < len,
            d == s@.skip(from as int),
            bound <= 0xffff_ffff_ffff_ffff,
            all_digits(d.take(i - from)),
            acc as int == digits_val(d.take(i - from)),
            acc <= bound,
        decreases len - i,
    {
        let c = s.get_char(i);
        let cv = c as u32;
        if cv < 48 || cv > 57 {
            assert(!all_digits(d)) by {
                assert(d[i - from] == c);
            }
            return None;
        }
        let dv = (cv - 48) as u128;
        let next: u128 = acc * 10 + dv;
        proof {
            assert(d.take(i - from + 1).drop_last() =~= d.take(i - from));
            assert(d.take(i - from + 1).last() == c);
        }
        if next > bound {
            proof {
                assert(all_digits(d.take(i - from + 1)));
                if all_digits(d) {
                    lemma_digits_val_prefix(d, i - from + 1);
                }
            }
            return None;
        }
        acc = next;
        i += 1;
    }
    proof {
        assert(d.take(len - from) =~= d);
    }
    Some(acc)
}

/// `s` denotes a value of `usize`.
pub open spec fn is_usize_literal(s: Seq<char>) -> bool {
    s.len() > 0 && all_digits(s) && digits_val(s) <= usize::MAX
}

/// Parse an unsigned decimal number, exactly on the inputs that denote one.
pub fn parse_usize(s: &str) -> (r: Option<usize>)
    ensures
        r.is_some() == is_usize_literal(s@),
        r matches Some(v) ==> v as int == digits_val(s@),
{
    proof {
        assert(s@.skip(0) =~= s@);
    }
    match parse_digits(s, 0, usize::MAX as u128) {
        Some(v) => Some(v as usize),
        None => None,
    }
}

/// `s` denotes a value of `i32`: an optional sign and digits, in range.
pub open spec fn is_i32_literal(s: Seq<char>) -> bool {
    if s.len() == 0 {
        false
    } else if s[0] == '-' {
        s.len() > 1 && all_digits(s.skip(1)) && digits_val(s.skip(1)) <= 0x8000_0000
    } else if s[0] == '+' {
        s.len() > 1 && all_digits(s.skip(1)) && digits_val(s.skip(1)) <= 0x7fff_ffff
    } else {
        all_digits(s) && digits_val(s) <= 0x7fff_ffff
    }
}

/// The value denoted by an `i32` literal.
pub open spec fn i32_literal_val(s: Seq<char>) -> int {
    if s.len() > 0 && s[0] == '-' {
        -digits_val(s.skip(1))
    } else if s.len() > 0 && s[0] == '+' {
        digits_val(s.skip(1))
    } else {
        digits_val(s)
    }
}

/// Parse a signed decimal number, exactly on the inputs that denote one.
pub fn parse_i32(s: &str) -> (r: Option<i32>)
    ensures
        r.is_some() == is_i32_literal(s@),
        r matches Some(v) ==> v as int == i32_literal_val(s@),
{
    let len = s.unicode_len();
    if len == 0 {
        return None;
    }
    let c0 = s.get_char(0);
    if c0 == '-' {
        match parse_digits(s, 1, 0x8000_0000) {
            Some(v) => Some((-(v as i64)) as i32),
            None => None,
        }
    } else if c0 == '+' {
        match parse_digits(s, 1, 0x7fff_ffff) {
            Some(v) => Some(v as i32),
            None => None,
        }
    } else {
        proof {
            assert(s@.skip(0) =~= s@);
        }
        match parse_digits(s, 0, 0x7fff_ffff) {
            Some(v) => Some(v as i32),
            None => None,
        }
    }
}

} // verus!
