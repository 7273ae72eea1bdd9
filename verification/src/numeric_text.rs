//! Decimal and hexadecimal text of unsigned integers, as `str::parse` reads it
//! and as `{}` / `{:04X}` formatting writes it.
use vstd::prelude::*;
use vstd::string::{StringExecFns, StringSliceAdditionalSpecFns};

verus! {

/// Whether `b` is an ASCII decimal digit.
pub open spec fn is_digit(b: u8) -> bool {
    48 <= b <= 57
}

/// Whether every byte of `d` is an ASCII decimal digit.
pub open spec fn all_digits(d: Seq<u8>) -> bool {
    forall|i: int| 0 <= i < d.len() ==> is_digit(#[trigger] d[i])
}

/// The number written by the decimal digits `d`, most significant first.
pub open spec fn digits_value(d: Seq<u8>) -> nat
    decreases d.len(),
{
    if d.len() == 0 {
        0
    } else {
        digits_value(d.drop_last()) * 10 + (d.last() - 48) as nat
    }
}

/// The number that `str::parse` reads from `s` for an unsigned type of
/// unbounded width: an optional `+`, then one or more decimal digits.
pub open spec fn unsigned_text_value(s: Seq<u8>) -> Option<nat> {
    let d = if s.len() > 0 && s[0] == 43u8 {
        s.drop_first()
    } else {
        s
    };
    if d.len() > 0 && all_digits(d) {
        Some(digits_value(d))
    } else {
        None
    }
}

/// `str::parse::<u64>` on the bytes `s`.
pub open spec fn parse_u64_spec(s: Seq<u8>) -> Option<u64> {
    match unsigned_text_value(s) {
        Some(v) => if v <= u64::MAX {
            Some(v as u64)
        } else {
            None
        },
        None => None,
    }
}

/// `str::parse::<u32>` on the bytes `s`.
pub open spec fn parse_u32_spec(s: Seq<u8>) -> Option<u32> {
    match unsigned_text_value(s) {
        Some(v) => if v <= u32::MAX {
            Some(v as u32)
        } else {
            None
        },
        None => None,
    }
}

proof fn lemma_digits_value_prefix(d: Seq<u8>, k: int)
    requires
        all_digits(d),
        0 <= k <= d.len(),
    ensures
        digits_value(d.take(k)) <= digits_value(d),
    decreases d.len(),
{
    if k < d.len() {
        assert(d.drop_last().take(k) =~= d.take(k));
        lemma_digits_value_prefix(d.drop_last(), k);
    } else {
        assert(d.take(k) =~= d);
    }
}

/// Read an unsigned decimal number from `s` as `str::parse::<u64>` does.
pub fn parse_u64(s: &[u8]) -> (r: Option<u64>)
    ensures
        r == parse_u64_spec(s@),
{
    let n = s.len();
    let mut start: usize = 0;
    if n > 0 && s[0] == 43u8 {
        start = 1;
    }
    let ghost d = if s@.len() > 0 && s@[0] == 43u8 {
        s@.drop_first()
    } else {
        s@
    };
    assert(d =~= s@.subrange(start as int, n as int));
    if start == n {
        return None;
    }
    let mut acc: u64 = 0;
    let mut i = start;
    while i < n
        invariant
            start <= i <= n,
            n == s@.len(),
            d == s@.subrange(start as int, n as int),
            d == (if s@.len() > 0 && s@[0] == 43u8 {
                s@.drop_first()
            } else {
                s@
            }),
            d.len() > 0,
            all_digits(d.take(i - start)),
            acc as nat == digits_value(d.take(i - start)),
        decreases n - i,
    {
        let b = s[i];
        if b < 48u8 || b > 57u8 {
            assert(!is_digit(d[i - start]));
            assert(!all_digits(d));
            return None;
        }
        let ghost before = d.take(i - start);
        let ghost after = d.take(i - start + 1);
        assert(after.drop_last() =~= before);
        assert(after.last() == b);
        let digit = (b - 48u8) as u64;
        let next = match acc.checked_mul(10) {
            Some(t) => t.checked_add(digit),
            None => None,
        };
        match next {
            Some(v) => {
                acc = v;
            },
            None => {
                proof {
                    assert(digits_value(after) == digits_value(before) * 10 + (b - 48) as nat);
                    assert(digits_value(after) > u64::MAX);
                    if all_digits(d) {
                        lemma_digits_value_prefix(d, i - start + 1);
                    }
                }
                return None;
            },
        }
        i += 1;
    }
    assert(d.take(n - start) =~= d);
    Some(acc)
}

/// Read an unsigned decimal number from `s` as `str::parse::<u32>` does.
pub fn parse_u32(s: &[u8]) -> (r: Option<u32>)
    ensures
        r == parse_u32_spec(s@),
{
    match parse_u64(s) {
        Some(v) => if v <= 0xffff_ffffu64 {
            Some(v as u32)
        } else {
            None
        },
        None => None,
    }
}

/// The decimal digits of `n`, most significant first, as `{}` writes them.
pub open spec fn decimal_digits(n: nat) -> Seq<u8>
    decreases n,
{
    if n < 10 {
        seq![(48 + n) as u8]
    } else {
        decimal_digits(n / 10).push((48 + n % 10) as u8)
    }
}

/// The upper-case hexadecimal digit of `d`.
pub open spec fn hex_digit(d: int) -> u8 {
    if d < 10 {
        (48 + d) as u8
    } else {
        (55 + d) as u8
    }
}

/// `{:04X}` of a 16-bit value: four upper-case hexadecimal digits.
pub open spec fn hex4(v: u16) -> Seq<u8> {
    seq![
        hex_digit((v / 4096) as int),
        hex_digit(((v / 256) % 16) as int),
        hex_digit(((v / 16) % 16) as int),
        hex_digit((v % 16) as int),
    ]
}

/// The one-character text of a hexadecimal digit `d` (decimal digits for `d < 10`).
pub fn digit_text(d: u8) -> (r: &'static str)
    requires
        d < 16,
    ensures
        r.spec_bytes() == seq![hex_digit(d as int)],
        r@ == seq![hex_digit(d as int) as char],
{
    broadcast use vstd::string::group_string_axioms;
    let r = match d {
        0 => "0",
        1 => "1",
        2 => "2",
        3 => "3",
        4 => "4",
        5 => "5",
        6 => "6",
        7 => "7",
        8 => "8",
        9 => "9",
        10 => "A",
        11 => "B",
        12 => "C",
        13 => "D",
        14 => "E",
        _ => "F",
    };
    proof {
        reveal_strlit("0");
        reveal_strlit("1");
        reveal_strlit("2");
        reveal_strlit("3");
        reveal_strlit("4");
        reveal_strlit("5");
        reveal_strlit("6");
        reveal_strlit("7");
        reveal_strlit("8");
        reveal_strlit("9");
        reveal_strlit("A");
        reveal_strlit("B");
        reveal_strlit("C");
        reveal_strlit("D");
        reveal_strlit("E");
        reveal_strlit("F");
        assert(vstd::string::is_ascii(r));
        assert(r.spec_bytes() =~= seq![r@[0] as u8]);
        assert(r@ =~= seq![hex_digit(d as int) as char]);
    }
    r
}

/// The decimal digits of `n` as bytes, most significant first.
pub fn decimal_bytes(n: u64) -> (r: Vec<u8>)
    ensures
        r@ == decimal_digits(n as nat),
    decreases n,
{
    if n < 10 {
        let mut v: Vec<u8> = Vec::new();
        v.push(48u8 + n as u8);
        proof {
            assert(v@ =~= decimal_digits(n as nat));
        }
        v
    } else {
        let mut v = decimal_bytes(n / 10);
        v.push(48u8 + (n % 10) as u8);
        v
    }
}

/// Written in decimal and read back, a number is itself: the digits are all
/// decimal digits, there is at least one, and their value is the number.
pub proof fn lemma_decimal_digits_value(n: nat)
    ensures
        all_digits(decimal_digits(n)),
        decimal_digits(n).len() >= 1,
        digits_value(decimal_digits(n)) == n,
        decimal_digits(n)[0] != 43u8,
    decreases n,
{
    if n >= 10 {
        lemma_decimal_digits_value(n / 10);
        let d = decimal_digits(n);
        assert(d.drop_last() =~= decimal_digits(n / 10));
        assert(d.last() == (48 + n % 10) as u8);
        assert(digits_value(d) == digits_value(d.drop_last()) * 10 + (d.last() - 48) as nat);
        assert((n / 10) * 10 + n % 10 == n);
        assert forall|i: int| 0 <= i < d.len() implies is_digit(#[trigger] d[i]) by {
            if i < d.len() - 1 {
                assert(d[i] == decimal_digits(n / 10)[i]);
            }
        }
    } else {
        let d = decimal_digits(n);
        assert(d[0] == (48 + n) as u8);
        assert(d.drop_last() =~= Seq::<u8>::empty());
        assert(digits_value(d.drop_last()) == 0);
        assert(is_digit(d[0]));
    }
}

/// `10^k`.
pub open spec fn ten_pow(k: nat) -> nat
    decreases k,
{
    if k == 0 {
        1
    } else {
        10 * ten_pow((k - 1) as nat)
    }
}

/// A number below `10^k` (with `k ≥ 1`) has at most `k` decimal digits.
pub proof fn lemma_decimal_digits_len(n: nat, k: nat)
    requires
        k >= 1,
        n < ten_pow(k),
    ensures
        decimal_digits(n).len() <= k,
    decreases k,
{
    if n >= 10 {
        assert(ten_pow(k) == 10 * ten_pow((k - 1) as nat));
        if k == 1 {
            assert(ten_pow(0) == 1);
        } else {
            lemma_decimal_digits_len(n / 10, (k - 1) as nat);
        }
    }
}

/// ASCII bytes as characters.
pub open spec fn ascii_chars(b: Seq<u8>) -> Seq<char> {
    b.map_values(|x: u8| x as char)
}

/// `prefix` followed by `n` in decimal, as `format!("{prefix}{n}")` writes it.
pub fn decimal_string(prefix: &str, n: u32) -> (r: String)
    ensures
        r@ == prefix@ + ascii_chars(decimal_digits(n as nat)),
{
    let mut s = String::from_str(prefix);
    let digits = decimal_bytes(n as u64);
    proof {
        lemma_decimal_digits_value(n as nat);
    }
    let k = digits.len();
    let mut i: usize = 0;
    while i < k
        invariant
            i <= k,
            k == digits@.len(),
            digits@ == decimal_digits(n as nat),
            all_digits(digits@),
            s@ == prefix@ + ascii_chars(digits@.take(i as int)),
        decreases k - i,
    {
        assert(is_digit(digits@[i as int]));
        let t = digit_text(digits[i] - 48u8);
        s.append(t);
        assert(ascii_chars(digits@.take(i + 1)) =~= ascii_chars(digits@.take(i as int)).push(
            digits@[i as int] as char,
        ));
        i += 1;
    }
    assert(digits@.take(k as int) =~= digits@);
    s
}

/// `n` in decimal as `{}` writes a signed integer: a minus sign before the
/// digits of its magnitude when it is negative.
pub open spec fn signed_decimal(n: int) -> Seq<char> {
    if n < 0 {
        seq!['-'] + ascii_chars(decimal_digits((-n) as nat))
    } else {
        ascii_chars(decimal_digits(n as nat))
    }
}

/// Append the decimal digits of `n` to `s`.
pub fn append_decimal(s: &mut String, n: u64)
    ensures
        final(s)@ == old(s)@ + ascii_chars(decimal_digits(n as nat)),
{
    let digits = decimal_bytes(n);
    proof {
        lemma_decimal_digits_value(n as nat);
    }
    let k = digits.len();
    let mut i: usize = 0;
    while i < k
        invariant
            i <= k,
            k == digits@.len(),
            digits@ == decimal_digits(n as nat),
            all_digits(digits@),
            s@ == old(s)@ + ascii_chars(digits@.take(i as int)),
        decreases k - i,
    {
        assert(is_digit(digits@[i as int]));
        let t = digit_text(digits[i] - 48u8);
        s.append(t);
        assert(ascii_chars(digits@.take(i + 1)) =~= ascii_chars(digits@.take(i as int)).push(
            digits@[i as int] as char,
        ));
        i += 1;
    }
    assert(digits@.take(k as int) =~= digits@);
}

/// Append `n` in decimal, with a minus sign when it is negative, to `s`.
pub fn append_signed_decimal(s: &mut String, n: i64)
    ensures
        final(s)@ == old(s)@ + signed_decimal(n as int),
{
    if n < 0 {
        s.append("-");
        proof {
            reveal_strlit("-");
        }
        let magnitude: u64 = (-(n + 1)) as u64 + 1;
        append_decimal(s, magnitude);
        assert(s@ =~= old(s)@ + signed_decimal(n as int));
    } else {
        append_decimal(s, n as u64);
    }
}

/// `prefix` followed by `v` as four upper-case hexadecimal digits, as
/// `format!("{prefix}{v:04X}")` writes it.
pub fn hex4_string(prefix: &str, v: u16) -> (r: String)
    ensures
        r@ == prefix@ + ascii_chars(hex4(v)),
{
    let mut s = String::from_str(prefix);
    s.append(digit_text((v / 4096) as u8));
    s.append(digit_text(((v / 256) % 16) as u8));
    s.append(digit_text(((v / 16) % 16) as u8));
    s.append(digit_text((v % 16) as u8));
    assert(s@ =~= prefix@ + ascii_chars(hex4(v)));
    s
}

} // verus!
