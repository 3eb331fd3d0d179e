//! Rendering of unsigned integers as decimal and upper-case hexadecimal
//! text, appended to a growing `String`.
//!
//! These are the leaves of the code emitter: binding indices and argument
//! positions are printed in decimal, integer constants in hexadecimal.

use vstd::prelude::*;
use vstd::string::StringExecFns;

verus! {

/// The single decimal digit character for `d`.
pub open spec fn dec_digit(d: nat) -> Seq<char> {
    if d == 0 {
        "0"@
    } else if d == 1 {
        "1"@
    } else if d == 2 {
        "2"@
    } else if d == 3 {
        "3"@
    } else if d == 4 {
        "4"@
    } else if d == 5 {
        "5"@
    } else if d == 6 {
        "6"@
    } else if d == 7 {
        "7"@
    } else if d == 8 {
        "8"@
    } else {
        "9"@
    }
}

/// Decimal rendering of `n`, most significant digit first, no leading zeros
/// (`0` renders as `"0"`).
pub open spec fn dec_text(n: nat) -> Seq<char>
    decreases n,
{
    if n < 10 {
        dec_digit(n)
    } else {
        dec_text(n / 10) + dec_digit(n % 10)
    }
}

/// The single upper-case hexadecimal digit character for `d`.
pub open spec fn hex_digit(d: nat) -> Seq<char> {
    if d < 10 {
        dec_digit(d)
    } else if d == 10 {
        "A"@
    } else if d == 11 {
        "B"@
    } else if d == 12 {
        "C"@
    } else if d == 13 {
        "D"@
    } else if d == 14 {
        "E"@
    } else {
        "F"@
    }
}

/// Upper-case hexadecimal rendering of `n` without any prefix, no leading
/// zeros (`0` renders as `"0"`).
pub open spec fn hex_text(n: nat) -> Seq<char>
    decreases n,
{
    if n < 16 {
        hex_digit(n)
    } else {
        hex_text(n / 16) + hex_digit(n % 16)
    }
}

/// `0x`-prefixed upper-case hexadecimal rendering of `n`, as Rust's `{:#X}`
/// prints an unsigned value.
pub open spec fn hex0x_text(n: nat) -> Seq<char> {
    "0x"@ + hex_text(n)
}

fn push_dec_digit(out: &mut String, d: u32)
    requires
        d < 10,
    ensures
        final(out)@ == old(out)@ + dec_digit(d as nat),
{
    if d == 0 {
        out.append("0");
    } else if d == 1 {
        out.append("1");
    } else if d == 2 {
        out.append("2");
    } else if d == 3 {
        out.append("3");
    } else if d == 4 {
        out.append("4");
    } else if d == 5 {
        out.append("5");
    } else if d == 6 {
        out.append("6");
    } else if d == 7 {
        out.append("7");
    } else if d == 8 {
        out.append("8");
    } else {
        out.append("9");
    }
}

fn push_hex_digit(out: &mut String, d: u128)
    requires
        d < 16,
    ensures
        final(out)@ == old(out)@ + hex_digit(d as nat),
{
    if d < 10 {
        push_dec_digit(out, d as u32);
    } else if d == 10 {
        out.append("A");
    } else if d == 11 {
        out.append("B");
    } else if d == 12 {
        out.append("C");
    } else if d == 13 {
        out.append("D");
    } else if d == 14 {
        out.append("E");
    } else {
        out.append("F");
    }
}

/// Append the decimal rendering of `n` to `out`.
pub fn push_dec(out: &mut String, n: u32)
    ensures
        final(out)@ == old(out)@ + dec_text(n as nat),
    decreases n,
{
    if n >= 10 {
        push_dec(out, n / 10);
        push_dec_digit(out, n % 10);
        proof {
            assert(out@ =~= old(out)@ + dec_text(n as nat));
        }
    } else {
        push_dec_digit(out, n);
    }
}

/// Append the bare (no `0x`) upper-case hexadecimal rendering of `n` to `out`.
pub fn push_hex(out: &mut String, n: u128)
    ensures
        final(out)@ == old(out)@ + hex_text(n as nat),
    decreases n,
{
    if n >= 16 {
        push_hex(out, n / 16);
        push_hex_digit(out, n % 16);
        proof {
            assert(out@ =~= old(out)@ + hex_text(n as nat));
        }
    } else {
        push_hex_digit(out, n);
    }
}

/// Append `0x` followed by the upper-case hexadecimal rendering of `n`.
pub fn push_hex0x(out: &mut String, n: u128)
    ensures
        final(out)@ == old(out)@ + hex0x_text(n as nat),
{
    out.append("0x");
    push_hex(out, n);
    proof {
        assert(out@ =~= old(out)@ + hex0x_text(n as nat));
    }
}

} // verus!
