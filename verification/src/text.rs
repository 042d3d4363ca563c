//! Rendering numbers as text.

use vstd::prelude::*;

verus! {

/// The decimal digit character of `d` (`d < 10`).
pub open spec fn spec_digit(d: nat) -> char {
    ('0' as nat + d) as char
}

/// The decimal text of `n`, without leading zeros ("0" for zero).
pub open spec fn spec_decimal(n: nat) -> Seq<char>
    decreases n,
{
    if n < 10 {
        seq![spec_digit(n)]
    } else {
        spec_decimal(n / 10) + seq![spec_digit(n % 10)]
    }
}

/// The one-character text of the decimal digit `d`.
fn digit_str(d: u64) -> (s: &'static str)
    requires
        d < 10,
    ensures
        s@ == seq![spec_digit(d as nat)],
{
    match d {
        0 => { proof { reveal_strlit("0"); } "0" },
        1 => { proof { reveal_strlit("1"); } "1" },
        2 => { proof { reveal_strlit("2"); } "2" },
        3 => { proof { reveal_strlit("3"); } "3" },
        4 => { proof { reveal_strlit("4"); } "4" },
        5 => { proof { reveal_strlit("5"); } "5" },
        6 => { proof { reveal_strlit("6"); } "6" },
        7 => { proof { reveal_strlit("7"); } "7" },
        8 => { proof { reveal_strlit("8"); } "8" },
        _ => { proof { reveal_strlit("9"); } "9" },
    }
}

/// Append the decimal text of `n` to `s`.
pub fn push_decimal(s: &mut String, n: u64)
    ensures
        final(s)@ == old(s)@ + spec_decimal(n as nat),
    decreases n,
{
    if n >= 10 {
        push_decimal(s, n / 10);
    }
    s.append(digit_str(n % 10));
    proof {
        if n >= 10 {
            assert(old(s)@ + spec_decimal(n as nat) =~= old(s)@ + spec_decimal((n / 10) as nat)
                + seq![spec_digit((n % 10) as nat)]);
        }
    }
}

/// Append the decimal text of a 128-bit `n` to `s`.
pub fn push_decimal_wide(s: &mut String, n: u128)
    ensures
        final(s)@ == old(s)@ + spec_decimal(n as nat),
    decreases n,
{
    if n >= 10 {
        push_decimal_wide(s, n / 10);
    }
    s.append(digit_str((n % 10) as u64));
    proof {
        if n >= 10 {
            assert(old(s)@ + spec_decimal(n as nat) =~= old(s)@ + spec_decimal((n / 10) as nat)
                + seq![spec_digit((n % 10) as nat)]);
        }
    }
}

/// The decimal text of `n`.
pub fn decimal(n: u64) -> (s: String)
    ensures
        s@ == spec_decimal(n as nat),
{
    let mut s = String::new();
    push_decimal(&mut s, n);
    proof {
        assert(s@ =~= spec_decimal(n as nat));
    }
    s
}

/// The concatenation of three texts.
pub fn concat3(a: &str, b: &str, c: &str) -> (s: String)
    ensures
        s@ == a@ + b@ + c@,
{
    let mut s = a.to_owned();
    s.append(b);
    s.append(c);
    s
}

/// Whether two texts are equal.
pub fn str_eq(a: &str, b: &str) -> (r: bool)
    ensures
        r == (a@ == b@),
{
    a.to_owned() == b.to_owned()
}

/// The lowercase hexadecimal digit character of `d` (`d < 16`).
pub open spec fn spec_hex_digit(d: nat) -> char {
    if d < 10 {
        ('0' as nat + d) as char
    } else {
        ('a' as nat + (d - 10)) as char
    }
}

/// The last `w` lowercase hexadecimal digits of `v`, most significant
/// first, with leading zeros.
pub open spec fn spec_hex_fixed(v: nat, w: nat) -> Seq<char>
    decreases w,
{
    if w == 0 {
        seq![]
    } else {
        spec_hex_fixed(v / 16, (w - 1) as nat) + seq![spec_hex_digit(v % 16)]
    }
}

/// The one-character text of the hexadecimal digit `d`.
fn hex_digit_str(d: u64) -> (s: &'static str)
    requires
        d < 16,
    ensures
        s@ == seq![spec_hex_digit(d as nat)],
{
    match d {
        0 => { proof { reveal_strlit("0"); } "0" },
        1 => { proof { reveal_strlit("1"); } "1" },
        2 => { proof { reveal_strlit("2"); } "2" },
        3 => { proof { reveal_strlit("3"); } "3" },
        4 => { proof { reveal_strlit("4"); } "4" },
        5 => { proof { reveal_strlit("5"); } "5" },
        6 => { proof { reveal_strlit("6"); } "6" },
        7 => { proof { reveal_strlit("7"); } "7" },
        8 => { proof { reveal_strlit("8"); } "8" },
        9 => { proof { reveal_strlit("9"); } "9" },
        10 => { proof { reveal_strlit("a"); } "a" },
        11 => { proof { reveal_strlit("b"); } "b" },
        12 => { proof { reveal_strlit("c"); } "c" },
        13 => { proof { reveal_strlit("d"); } "d" },
        14 => { proof { reveal_strlit("e"); } "e" },
        _ => { proof { reveal_strlit("f"); } "f" },
    }
}

/// Append the last `w` lowercase hexadecimal digits of `v` to `s`.
pub fn push_hex_fixed(s: &mut String, v: u64, w: u32)
    ensures
        final(s)@ == old(s)@ + spec_hex_fixed(v as nat, w as nat),
    decreases w,
{
    if w > 0 {
        push_hex_fixed(s, v / 16, w - 1);
        s.append(hex_digit_str(v % 16));
        proof {
            assert(s@ =~= old(s)@ + spec_hex_fixed(v as nat, w as nat));
        }
    } else {
        proof {
            assert(s@ =~= old(s)@ + spec_hex_fixed(v as nat, w as nat));
        }
    }
}

} // verus!
