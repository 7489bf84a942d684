//! Decimal text to `u32` conversion, with an exact account of which
//! strings convert and to what value.

use vstd::prelude::*;
use vstd::string::StringExecFns;

verus! {

/// Whether `c` is an ASCII decimal digit.
pub open spec fn is_digit(c: char) -> bool {
    '0' as int <= c as int <= '9' as int
}

/// The numeric value of the digit `c`.
pub open spec fn digit_val(c: char) -> int {
    c as int - '0' as int
}

/// Whether every character of `s` is an ASCII decimal digit.
pub open spec fn all_digits(s: Seq<char>) -> bool {
    forall|i: int| 0 <= i < s.len() ==> is_digit(#[trigger] s[i])
}

/// The value of `s` read as a base-ten numeral.
pub open spec fn dec_value(s: Seq<char>) -> int
    decreases s.len(),
{
    if s.len() == 0 {
        0
    } else {
        dec_value(s.drop_last()) * 10 + digit_val(s.last())
    }
}

/// The digits of a numeral: `s` itself, after an optional leading plus
/// sign.
pub open spec fn dec_digits(s: Seq<char>) -> Seq<char> {
    if s.len() > 0 && s[0] == '+' {
        s.drop_first()
    } else {
        s
    }
}

/// What `parse_u32` returns: the value of `s` as a base-ten numeral, if
/// after an optional leading plus sign `s` is a non-empty string of digits
/// whose value fits in a `u32`.
pub open spec fn parse_u32_spec(s: Seq<char>) -> Option<u32> {
    let ds = dec_digits(s);
    if ds.len() > 0 && all_digits(ds) && dec_value(ds) <= u32::MAX {
        Some(dec_value(ds) as u32)
    } else {
        None
    }
}

pub proof fn lemma_dec_value_nonneg(s: Seq<char>)
    requires
        all_digits(s),
    ensures
        dec_value(s) >= 0,
    decreases s.len(),
{
    if s.len() > 0 {
        assert(all_digits(s.drop_last()));
        lemma_dec_value_nonneg(s.drop_last());
    }
}

/// Reading a prefix of a digit string never yields more than the whole.
pub proof fn lemma_dec_value_prefix(s: Seq<char>, k: int)
    requires
        all_digits(s),
        0 <= k <= s.len(),
    ensures
        dec_value(s.take(k)) <= dec_value(s),
    decreases s.len(),
{
    if k == s.len() {
        assert(s.take(k) =~= s);
    } else {
        assert(all_digits(s.drop_last()));
        assert(s.take(k) =~= s.drop_last().take(k));
        lemma_dec_value_prefix(s.drop_last(), k);
        lemma_dec_value_nonneg(s.drop_last());
    }
}

/// Parses `s` as a base-ten `u32`: succeeds exactly on all-digit strings,
/// with an optional leading plus sign, whose value fits.
pub fn parse_u32(s: &str) -> (r: Option<u32>)
    ensures
        r == parse_u32_spec(s@),
{
    let n: usize = s.unicode_len();
    let mut start: usize = 0;
    if n > 0 && s.get_char(0) == '+' {
        start = 1;
    }
    let ghost ds = dec_digits(s@);
    proof {
        assert(ds =~= s@.skip(start as int));
    }
    if n == start {
        return None;
    }
    let mut value: u64 = 0;
    let mut i: usize = start;
    while i < n
        invariant
            n == s@.len(),
            ds == dec_digits(s@),
            ds == s@.skip(start as int),
            start <= i <= n,
            start < n,
            all_digits(ds.take(i - start)),
            value == dec_value(ds.take(i - start)),
            value <= u32::MAX,
        decreases n - i,
    {
        let c: char = s.get_char(i);
        proof {
            assert(ds[i - start] == s@[i as int]);
        }
        if c < '0' || c > '9' {
            assert(!is_digit(ds[i - start]));
            return None;
        }
        let d: u32 = c as u32 - '0' as u32;
        let next: u64 = value * 10 + d as u64;
        proof {
            assert(ds.take(i + 1 - start).drop_last() =~= ds.take(i - start));
            assert(ds.take(i + 1 - start).last() == ds[i - start]);
        }
        if next > u32::MAX as u64 {
            proof {
                if all_digits(ds) {
                    lemma_dec_value_prefix(ds, i + 1 - start);
                }
            }
            return None;
        }
        value = next;
        i = i + 1;
    }
    proof {
        assert(ds.take(n - start) =~= ds);
    }
    Some(value as u32)
}

/// The digit character for a value below ten.
pub open spec fn digit_char(d: int) -> char {
    (('0' as int + d) as u8) as char
}

/// The base-ten numeral of `n`, without leading zeros.
pub open spec fn dec_str(n: int) -> Seq<char>
    decreases n,
{
    if n < 0 {
        Seq::empty()
    } else if n < 10 {
        seq![digit_char(n)]
    } else {
        dec_str(n / 10).push(digit_char(n % 10))
    }
}

/// The characters of the digits `ds`, read most-significant first when `ds`
/// holds a numeral least-significant first.
pub open spec fn rev_chars(ds: Seq<u32>) -> Seq<char> {
    Seq::new(ds.len(), |i: int| digit_char(ds[ds.len() - 1 - i] as int))
}

fn push_digit(s: &mut String, d: u32)
    requires
        d < 10,
    ensures
        final(s)@ == old(s)@ + seq![digit_char(d as int)],
{
    let t: &str = match d {
        0 => "0",
        1 => "1",
        2 => "2",
        3 => "3",
        4 => "4",
        5 => "5",
        6 => "6",
        7 => "7",
        8 => "8",
        _ => "9",
    };
    proof {
        reveal_strlit("0");
        reveal_strlit("1");
        reveal_strlit("2");
        reveal_strlit("3");
        reveal_strlit("4");
        reveal_strlit("5");
        reveal_strlit("6");
        reveal_strlit("7");
        reveal_strlit("8");
        reveal_strlit("9");
        assert(t@ =~= seq![digit_char(d as int)]);
    }
    s.append(t);
}

/// Renders `n` as its base-ten numeral.
pub fn u32_to_string(n: u32) -> (r: String)
    ensures
        r@ == dec_str(n as int),
{
    if n == 0 {
        proof {
            reveal_strlit("0");
            assert("0"@ =~= seq![digit_char(0)]);
        }
        return "0".to_owned();
    }
    let mut m: u32 = n;
    let mut digits: Vec<u32> = Vec::new();
    while m > 0
        invariant
            forall|k: int| 0 <= k < digits@.len() ==> #[trigger] digits@[k] < 10,
            m > 0 ==> dec_str(n as int) == dec_str(m as int) + rev_chars(digits@),
            m == 0 ==> digits@.len() > 0 && dec_str(n as int) == rev_chars(digits@),
        decreases m,
    {
        let d: u32 = m % 10;
        let ghost old_m = m as int;
        let ghost old_digits = digits@;
        digits.push(d);
        m = m / 10;
        proof {
            assert(rev_chars(old_digits.push(d)) =~= seq![digit_char(d as int)] + rev_chars(
                old_digits,
            ));
            if old_m < 10 {
                assert(dec_str(old_m) =~= seq![digit_char(old_m)]);
                assert(dec_str(n as int) =~= rev_chars(old_digits.push(d)));
            } else {
                assert(dec_str(old_m) == dec_str(old_m / 10).push(digit_char(old_m % 10)));
                assert(dec_str(old_m / 10).push(digit_char(old_m % 10)) =~= dec_str(old_m / 10)
                    + seq![digit_char(old_m % 10)]);
                assert(dec_str(n as int) =~= dec_str(m as int) + rev_chars(digits@));
            }
        }
    }
    let mut s: String = String::new();
    let mut j: usize = digits.len();
    while j > 0
        invariant
            j <= digits@.len(),
            forall|k: int| 0 <= k < digits@.len() ==> #[trigger] digits@[k] < 10,
            dec_str(n as int) == rev_chars(digits@),
            s@ == rev_chars(digits@).take(digits@.len() - j),
        decreases j,
    {
        j = j - 1;
        let ghost old_s = s@;
        push_digit(&mut s, digits[j]);
        proof {
            let ds = digits@;
            assert(rev_chars(ds)[ds.len() - 1 - j] == digit_char(ds[j as int] as int));
            assert(s@ =~= rev_chars(ds).take(ds.len() - j));
        }
    }
    proof {
        assert(rev_chars(digits@).take(digits@.len() - 0) =~= rev_chars(digits@));
    }
    s
}

} // verus!
