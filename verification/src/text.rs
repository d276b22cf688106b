//! Numbers as text: hexadecimal and decimal digits, written and read.

use vstd::prelude::*;
use vstd::std_specs::iter::IteratorSpec;
use vstd::string::StrSliceExecFns;

verus! {

/// `String::push`: adds a character at the end of a string.
#[verifier::external_body]
pub(crate) fn string_push(s: &mut String, c: char)
    ensures
        final(s)@ == old(s)@.push(c),
{
    s.push(c)
}

/// Whether `s` starts with `prefix`.
pub open spec fn starts_with(s: Seq<char>, prefix: Seq<char>) -> bool {
    s.len() >= prefix.len() && s.subrange(0, prefix.len() as int) == prefix
}

/// How far two strings agree, read from the start together: whether the second ended
/// before they differed, and whether the first ended with it.
fn common_start(a: &str, b: &str) -> (r: (bool, bool))
    ensures
        r.0 == starts_with(a@, b@),
        r.0 ==> r.1 == (a@.len() == b@.len()),
{
    broadcast use vstd::string::axiom_spec_iter, vstd::string::next_postcondition;

    let mut left = a.chars();
    let mut right = b.chars();
    let ghost mut i: int = 0;
    loop
        invariant
            0 <= i <= a@.len(),
            i <= b@.len(),
            left.remaining() == a@.skip(i),
            right.remaining() == b@.skip(i),
            a@.take(i) == b@.take(i),
        decreases b@.len() - i,
    {
        let y = right.next();
        let x = left.next();
        match y {
            None => {
                proof {
                    assert(i == b@.len());
                    assert(a@.subrange(0, b@.len() as int) =~= a@.take(i));
                    assert(b@.take(i) =~= b@);
                }
                return (true, x.is_none());
            },
            Some(d) => {
                proof {
                    assert(d == b@[i]);
                }
                match x {
                    Some(c) if c == d => {
                        proof {
                            assert(c == a@[i]);
                            assert(a@.take(i + 1) =~= a@.take(i).push(a@[i]));
                            assert(b@.take(i + 1) =~= b@.take(i).push(b@[i]));
                            assert(a@.skip(i).drop_first() =~= a@.skip(i + 1));
                            assert(b@.skip(i).drop_first() =~= b@.skip(i + 1));
                            i = i + 1;
                        }
                    },
                    _ => {
                        proof {
                            if starts_with(a@, b@) {
                                assert(a@.subrange(0, b@.len() as int)[i] == b@[i]);
                            }
                        }
                        return (false, false);
                    },
                }
            },
        }
    }
}

/// Whether two strings hold the same characters.
pub(crate) fn str_eq(a: &str, b: &str) -> (r: bool)
    ensures
        r == (a@ == b@),
{
    let (starts, ends) = common_start(a, b);
    proof {
        if starts && ends {
            assert(a@.subrange(0, b@.len() as int) =~= a@);
        }
        if a@ == b@ {
            assert(a@.subrange(0, b@.len() as int) =~= a@);
        }
    }
    starts && ends
}

/// Whether `s` starts with `prefix`.
pub(crate) fn str_starts_with(s: &str, prefix: &str) -> (r: bool)
    ensures
        r == starts_with(s@, prefix@),
{
    common_start(s, prefix).0
}

/// The lower-case digit for `d`, which is below 16.
pub open spec fn hex_digit(d: int) -> char {
    if d < 10 {
        (d + 48) as char
    } else {
        (d + 87) as char
    }
}

/// The number `v` in `digits` lower-case hexadecimal digits, with zeros in front where it
/// is short and without its highest digits where it is long.
pub open spec fn hex_text(v: int, digits: nat) -> Seq<char>
    decreases digits,
{
    if digits == 0 {
        Seq::empty()
    } else {
        hex_text(v / 16, (digits - 1) as nat).push(hex_digit(v % 16))
    }
}

/// Writes `v` in `digits` lower-case hexadecimal digits.
pub fn to_hex(v: u64, digits: usize) -> (r: String)
    requires
        digits <= 16,
    ensures
        r@ == hex_text(v as int, digits as nat),
{
    let mut r = String::new();
    let mut i: usize = 0;
    while i < digits
        invariant
            i <= digits <= 16,
            r@ == hex_text(shifted(v as int, (digits - i) as nat), i as nat),
        decreases digits - i,
    {
        let left: usize = digits - i - 1;
        let d: u64 = shift_right(v, left) % 16;
        let c: char = if d < 10 {
            ((d as u8) + 48) as char
        } else {
            ((d as u8) + 87) as char
        };
        proof {
            assert(shifted(v as int, (digits - i) as nat) == shifted(v as int, left as nat) / 16);
            assert(hex_text(shifted(v as int, left as nat), (i + 1) as nat) == hex_text(
                shifted(v as int, left as nat) / 16,
                i as nat,
            ).push(hex_digit(shifted(v as int, left as nat) % 16)));
        }
        string_push(&mut r, c);
        i += 1;
    }
    r
}

/// `v` without its `digits` lowest hexadecimal digits.
pub open spec fn shifted(v: int, digits: nat) -> int
    decreases digits,
{
    if digits == 0 {
        v
    } else {
        shifted(v, (digits - 1) as nat) / 16
    }
}

/// Drops the `digits` lowest hexadecimal digits of `v`.
fn shift_right(v: u64, digits: usize) -> (r: u64)
    requires
        digits <= 16,
    ensures
        r == shifted(v as int, digits as nat),
{
    let mut r = v;
    let mut i: usize = 0;
    while i < digits
        invariant
            i <= digits,
            r == shifted(v as int, i as nat),
        decreases digits - i,
    {
        r = r / 16;
        i += 1;
    }
    r
}

/// The value of the hexadecimal digit `c`, in either case.
pub open spec fn hex_value(c: char) -> Option<int> {
    let code = c as int;
    if 48 <= code <= 57 {
        Some(code - 48)
    } else if 97 <= code <= 102 {
        Some(code - 87)
    } else if 65 <= code <= 70 {
        Some(code - 55)
    } else {
        None
    }
}

/// The value of the decimal digit `c`.
pub open spec fn decimal_value(c: char) -> Option<int> {
    let code = c as int;
    if 48 <= code <= 57 {
        Some(code - 48)
    } else {
        None
    }
}

/// The value of a digit to the base `radix`, which is 10 or 16.
pub open spec fn digit_value(c: char, radix: int) -> Option<int> {
    if radix == 16 {
        hex_value(c)
    } else {
        decimal_value(c)
    }
}

/// The value of the digits `s` to the base `radix`, if they all are digits.
pub open spec fn digits_value(s: Seq<char>, radix: int) -> Option<int>
    decreases s.len(),
{
    if s.len() == 0 {
        Some(0)
    } else {
        match (digits_value(s.drop_last(), radix), digit_value(s.last(), radix)) {
            (Some(v), Some(d)) => Some(v * radix + d),
            _ => None,
        }
    }
}

/// The unsigned number that `s` spells to the base `radix`, which is 10 or 16: one digit
/// or more, with or without a plus sign before them, and a value of at most `max`.
pub open spec fn number(s: Seq<char>, radix: int, max: int) -> Option<int> {
    let digits = if s.len() > 0 && s[0] == '+' {
        s.drop_first()
    } else {
        s
    };
    if digits.len() == 0 {
        None
    } else {
        match digits_value(digits, radix) {
            Some(v) => if v <= max {
                Some(v)
            } else {
                None
            },
            None => None,
        }
    }
}

/// Reads the unsigned number that `s` spells to the base 10 or 16, as the standard
/// library's `from_str_radix` does for a 64-bit number.
pub fn parse_number(s: &str, hex: bool) -> (r: Option<u64>)
    ensures
        match number(s@, if hex { 16 } else { 10 }, u64::MAX as int) {
            Some(v) => r == Some(v as u64) && 0 <= v <= u64::MAX,
            None => r is None,
        },
{
    let radix: u64 = if hex { 16 } else { 10 };
    let len = s.unicode_len();
    if len == 0 {
        return None;
    }
    let start: usize = if s.get_char(0) == '+' {
        1
    } else {
        0
    };
    if start == len {
        proof {
            assert(s@.drop_first().len() == 0);
        }
        return None;
    }
    let ghost digits = if start == 1 {
        s@.drop_first()
    } else {
        s@
    };
    proof {
        assert(s@.drop_first() =~= s@.subrange(1, len as int));
        assert(s@ =~= s@.subrange(0, len as int));
        assert(digits.take(0) =~= Seq::<char>::empty());
    }
    let mut v: u64 = 0;
    let mut i: usize = start;
    while i < len
        invariant
            start <= i <= len,
            len == s@.len(),
            start <= 1,
            radix == (if hex { 16int } else { 10int }),
            digits == s@.subrange(start as int, len as int),
            digits == (if s@.len() > 0 && s@[0] == '+' {
                s@.drop_first()
            } else {
                s@
            }),
            digits.len() == len - start,
            digits_value(digits.take(i - start), radix as int) == Some(v as int),
        decreases len - i,
    {
        let c = s.get_char(i);
        let code = c as u32;
        let d: Option<u64> = if 48 <= code && code <= 57 {
            Some((code - 48) as u64)
        } else if hex && 97 <= code && code <= 102 {
            Some((code - 87) as u64)
        } else if hex && 65 <= code && code <= 70 {
            Some((code - 55) as u64)
        } else {
            None
        };
        proof {
            assert(digits.take(i - start + 1).drop_last() =~= digits.take(i - start));
            assert(digits.take(i - start + 1).last() == c);
            assert(d == match digit_value(c, radix as int) {
                Some(x) => Some(x as u64),
                None => None,
            });
        }
        let next = match d {
            Some(d) => match v.checked_mul(radix) {
                Some(m) => m.checked_add(d),
                None => None,
            },
            None => None,
        };
        match next {
            Some(n) => {
                v = n;
            },
            None => {
                proof {
                    let upto = digits.take(i - start + 1);
                    if d is Some {
                        assert(digits_value(upto, radix as int) == Some(v * radix + d->0));
                        assert(v * radix + d->0 > u64::MAX);
                    } else {
                        assert(digits_value(upto, radix as int) is None);
                    }
                    lemma_digits_stay_bad(digits, radix as int, i - start + 1);
                }
                return None;
            },
        }
        i += 1;
    }
    proof {
        assert(digits.take(len - start) =~= digits);
    }
    Some(v)
}

/// Digits whose first part spells too much or nothing spell too much or nothing as a whole.
pub proof fn lemma_digits_stay_bad(digits: Seq<char>, radix: int, k: int)
    requires
        radix == 10 || radix == 16,
        0 <= k <= digits.len(),
        match digits_value(digits.take(k), radix) {
            Some(v) => v > u64::MAX,
            None => true,
        },
    ensures
        match digits_value(digits, radix) {
            Some(v) => v > u64::MAX,
            None => true,
        },
    decreases digits.len() - k,
{
    if k < digits.len() {
        assert(digits.take(k + 1).drop_last() =~= digits.take(k));
        lemma_digits_nonnegative(digits.take(k), radix);
        match (digits_value(digits.take(k), radix), digit_value(digits.take(k + 1).last(), radix)) {
            (Some(v), Some(d)) => {
                assert(v * radix + d > u64::MAX) by (nonlinear_arith)
                    requires
                        v > u64::MAX,
                        radix >= 10,
                        d >= 0,
                ;
            },
            _ => {},
        }
        lemma_digits_stay_bad(digits, radix, k + 1);
    } else {
        assert(digits.take(k) =~= digits);
    }
}

/// Digits spell no negative number.
pub proof fn lemma_digits_nonnegative(digits: Seq<char>, radix: int)
    requires
        radix == 10 || radix == 16,
    ensures
        digits_value(digits, radix) matches Some(v) ==> v >= 0,
    decreases digits.len(),
{
    if digits.len() > 0 {
        lemma_digits_nonnegative(digits.drop_last(), radix);
        match (digits_value(digits.drop_last(), radix), digit_value(digits.last(), radix)) {
            (Some(v), Some(d)) => {
                assert(v * radix + d >= 0) by (nonlinear_arith)
                    requires
                        v >= 0,
                        radix >= 10,
                        d >= 0,
                ;
            },
            _ => {},
        }
    }
}

/// The number `v` in decimal digits, without zeros in front.
pub open spec fn decimal_text(v: nat) -> Seq<char>
    decreases v,
{
    if v < 10 {
        seq![hex_digit(v as int)]
    } else {
        decimal_text(v / 10).push(hex_digit((v % 10) as int))
    }
}

/// Writes `v` in decimal digits.
pub fn to_decimal(v: u64) -> (r: String)
    ensures
        r@ == decimal_text(v as nat),
{
    let mut digits: Vec<char> = Vec::new();
    let mut rest = v;
    // The digits from the lowest up; the highest is taken last.
    while rest >= 10
        invariant
            decimal_text(v as nat) == decimal_text(rest as nat) + digits@.reverse(),
        decreases rest,
    {
        let d = (rest % 10) as u8;
        let ghost before = digits@;
        let ghost whole = decimal_text(rest as nat);
        let ghost higher = decimal_text((rest / 10) as nat);
        digits.push((d + 48) as char);
        proof {
            let c = hex_digit((rest % 10) as int);
            assert(digits@ == before.push(c));
            assert(digits@.reverse() =~= seq![c] + before.reverse());
            assert(whole == higher.push(c));
            assert(higher.push(c) + before.reverse() =~= higher + (seq![c] + before.reverse()));
        }
        rest = rest / 10;
    }
    let mut r = String::new();
    string_push(&mut r, ((rest as u8) + 48) as char);
    proof {
        assert(r@ =~= decimal_text(rest as nat));
    }
    let mut i: usize = digits.len();
    while i > 0
        invariant
            i <= digits@.len(),
            r@ == decimal_text(rest as nat) + digits@.reverse().take(digits@.len() - i),
        decreases i,
    {
        i -= 1;
        string_push(&mut r, digits[i]);
        proof {
            let rev = digits@.reverse();
            assert(rev.take(digits@.len() - i) =~= rev.take(digits@.len() - i - 1).push(
                digits@[i as int],
            ));
        }
    }
    proof {
        assert(digits@.reverse().take(digits@.len() as int) =~= digits@.reverse());
    }
    r
}

/// The strings of `parts`, with `sep` between each two.
pub open spec fn joined(parts: Seq<Seq<char>>, sep: Seq<char>) -> Seq<char>
    decreases parts.len(),
{
    if parts.len() == 0 {
        Seq::empty()
    } else if parts.len() == 1 {
        parts[0]
    } else {
        joined(parts.drop_last(), sep) + sep + parts.last()
    }
}

/// Whether `s` ends with `suffix`.
pub open spec fn ends_with(s: Seq<char>, suffix: Seq<char>) -> bool {
    s.len() >= suffix.len() && s.subrange(s.len() - suffix.len(), s.len() as int) == suffix
}

/// `s` without every `suffix` at its end; `suffix` is not empty.
pub open spec fn without_suffixes(s: Seq<char>, suffix: Seq<char>) -> Seq<char>
    decreases s.len(),
{
    if suffix.len() > 0 && ends_with(s, suffix) {
        without_suffixes(s.subrange(0, s.len() - suffix.len()), suffix)
    } else {
        s
    }
}

/// `str::strip_suffix`: `s` without `suffix` at its end, if it ends with it.
#[verifier::external_body]
pub(crate) fn strip_suffix<'a>(s: &'a str, suffix: &str) -> (r: Option<&'a str>)
    ensures
        r is Some <==> ends_with(s@, suffix@),
        r is Some ==> r->0@ == s@.subrange(0, s@.len() - suffix@.len()),
{
    s.strip_suffix(suffix)
}

/// `str::trim_end_matches`: `s` without every `suffix` at its end.
#[verifier::external_body]
pub(crate) fn trim_end_matches<'a>(s: &'a str, suffix: &str) -> (r: &'a str)
    requires
        suffix@.len() > 0,
    ensures
        r@ == without_suffixes(s@, suffix@),
{
    s.trim_end_matches(suffix)
}

/// The number `v` in lower-case hexadecimal digits, without zeros in front.
pub open spec fn short_hex_text(v: nat) -> Seq<char>
    decreases v,
{
    if v < 16 {
        seq![hex_digit(v as int)]
    } else {
        short_hex_text(v / 16).push(hex_digit((v % 16) as int))
    }
}

/// Writes `v` in lower-case hexadecimal digits, without zeros in front.
pub fn to_short_hex(v: u64) -> (r: String)
    ensures
        r@ == short_hex_text(v as nat),
{
    let mut digits: Vec<char> = Vec::new();
    let mut rest = v;
    while rest >= 16
        invariant
            short_hex_text(v as nat) == short_hex_text(rest as nat) + digits@.reverse(),
        decreases rest,
    {
        let d = (rest % 16) as u8;
        let ghost before = digits@;
        let ghost whole = short_hex_text(rest as nat);
        let ghost higher = short_hex_text((rest / 16) as nat);
        let c: char = if d < 10 {
            (d + 48) as char
        } else {
            (d + 87) as char
        };
        digits.push(c);
        proof {
            assert(c == hex_digit((rest % 16) as int));
            assert(digits@ == before.push(c));
            assert(digits@.reverse() =~= seq![c] + before.reverse());
            assert(whole == higher.push(c));
            assert(higher.push(c) + before.reverse() =~= higher + (seq![c] + before.reverse()));
        }
        rest = rest / 16;
    }
    let mut r = String::new();
    let d = rest as u8;
    let c: char = if d < 10 {
        (d + 48) as char
    } else {
        (d + 87) as char
    };
    string_push(&mut r, c);
    proof {
        assert(r@ =~= short_hex_text(rest as nat));
    }
    let mut i: usize = digits.len();
    while i > 0
        invariant
            i <= digits@.len(),
            r@ == short_hex_text(rest as nat) + digits@.reverse().take(digits@.len() - i),
        decreases i,
    {
        i -= 1;
        string_push(&mut r, digits[i]);
        proof {
            let rev = digits@.reverse();
            assert(rev.take(digits@.len() - i) =~= rev.take(digits@.len() - i - 1).push(
                digits@[i as int],
            ));
        }
    }
    proof {
        assert(digits@.reverse().take(digits@.len() as int) =~= digits@.reverse());
    }
    r
}

} // verus!
