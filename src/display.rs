//! Rendering of numbers as text: plain decimal and lowercase hexadecimal
//! digits, and the two-part display version of a build number.

use vstd::prelude::*;

verus! {

/// The sixteen digit characters, in order of value.
pub open spec fn digit_table() -> Seq<char> {
    "0123456789abcdef"@
}

/// The digits of `n` in decimal, most significant first, no leading zeros.
pub open spec fn dec_digits(n: nat) -> Seq<char>
    decreases n,
{
    if n < 10 {
        seq![digit_table()[n as int]]
    } else {
        dec_digits(n / 10).push(digit_table()[(n % 10) as int])
    }
}

/// The digits of `n` in lowercase hexadecimal, most significant first, no
/// leading zeros.
pub open spec fn hex_digits(n: nat) -> Seq<char>
    decreases n,
{
    if n < 16 {
        seq![digit_table()[n as int]]
    } else {
        hex_digits(n / 16).push(digit_table()[(n % 16) as int])
    }
}

/// One byte of a display version: decimal up to 99, hexadecimal above.
pub open spec fn byte_label(b: nat) -> Seq<char> {
    if b <= 99 {
        dec_digits(b)
    } else {
        hex_digits(b)
    }
}

/// The build number that a commit count gives: the count taken modulo 2^16.
pub open spec fn build_number_of(count: nat) -> nat {
    count % 65536
}

/// The display version of a commit count: high byte, a dot, low byte of the
/// 16-bit build number, each rendered by `byte_label`.
pub open spec fn display_version_of(count: nat) -> Seq<char> {
    let b = build_number_of(count);
    byte_label(b / 256) + seq!['.'] + byte_label(b % 256)
}

/// The one-character string of the digit of value `d`.
fn digit_str(d: u64) -> (r: &'static str)
    requires
        d < 16,
    ensures
        r@ == seq![digit_table()[d as int]],
{
    proof {
        reveal_strlit("0123456789abcdef");
    }
    let table: &'static str = "0123456789abcdef";
    let r = table.substring_char(d as usize, (d + 1) as usize);
    assert(r@ =~= seq![digit_table()[d as int]]);
    r
}

/// Decimal rendering of `n`, as `u64::to_string` gives it.
pub fn dec_string(n: u64) -> (r: String)
    ensures
        r@ == dec_digits(n as nat),
    decreases n,
{
    if n < 10 {
        String::from_str(digit_str(n))
    } else {
        let mut s = dec_string(n / 10);
        s.append(digit_str(n % 10));
        s
    }
}

/// Lowercase hexadecimal rendering of `n`, without prefix or leading zeros.
pub fn hex_string(n: u64) -> (r: String)
    ensures
        r@ == hex_digits(n as nat),
    decreases n,
{
    if n < 16 {
        String::from_str(digit_str(n))
    } else {
        let mut s = hex_string(n / 16);
        s.append(digit_str(n % 16));
        s
    }
}

/// The label of one byte of a display version.
pub fn byte_string(b: u8) -> (r: String)
    ensures
        r@ == byte_label(b as nat),
{
    if b <= 99 {
        dec_string(b as u64)
    } else {
        hex_string(b as u64)
    }
}

/// The 16-bit build number of a commit count; larger counts wrap.
pub fn build_number(count: u64) -> (r: u16)
    ensures
        r as nat == build_number_of(count as nat),
{
    (count % 65536) as u16
}

/// The display version of a commit count, such as `"0.ff"` for 255.
pub fn display_version(count: u64) -> (r: String)
    ensures
        r@ == display_version_of(count as nat),
{
    let b = build_number(count);
    let high: u8 = (b / 256) as u8;
    let low: u8 = (b % 256) as u8;
    let mut s = byte_string(high);
    proof {
        reveal_strlit(".");
    }
    s.append(".");
    let tail = byte_string(low);
    s.append(tail.as_str());
    s
}

/// Counts that differ by a multiple of 2^16 have the same display version.
pub proof fn lemma_display_version_wraps(count: nat)
    ensures
        display_version_of(count + 65536) == display_version_of(count),
{
    assert((count + 65536) % 65536 == count % 65536) by (nonlinear_arith);
}

/// The digit characters are pairwise distinct.
proof fn lemma_digits_distinct(a: nat, b: nat)
    requires
        a < 16,
        b < 16,
        digit_table()[a as int] == digit_table()[b as int],
    ensures
        a == b,
{
    reveal_strlit("0123456789abcdef");
}

proof fn lemma_hex_len(n: nat)
    ensures
        hex_digits(n).len() >= 1,
        n >= 16 ==> hex_digits(n).len() >= 2,
    decreases n,
{
    if n >= 16 {
        lemma_hex_len(n / 16);
    }
}

/// Distinct numbers have distinct hexadecimal renderings.
pub proof fn lemma_hex_injective(a: nat, b: nat)
    requires
        hex_digits(a) == hex_digits(b),
    ensures
        a == b,
    decreases a,
{
    lemma_hex_len(a);
    lemma_hex_len(b);
    let ha = hex_digits(a);
    reveal_strlit("0123456789abcdef");
    if a < 16 && b < 16 {
        assert(ha == seq![digit_table()[a as int]]);
        assert(hex_digits(b) == seq![digit_table()[b as int]]);
        assert(ha[0] == digit_table()[a as int]);
        assert(hex_digits(b)[0] == digit_table()[b as int]);
        lemma_digits_distinct(a, b);
    } else if a >= 16 && b >= 16 {
        assert(ha.last() == digit_table()[(a % 16) as int]);
        assert(hex_digits(b).last() == digit_table()[(b % 16) as int]);
        lemma_digits_distinct(a % 16, b % 16);
        assert(hex_digits(a / 16) == ha.drop_last());
        assert(hex_digits(b / 16) == hex_digits(b).drop_last());
        lemma_hex_injective(a / 16, b / 16);
    }
}

} // verus!
