//! Progress reporting of builds: display modes, results, and the
//! human-readable byte counts shown beside progress bars.
//!
//! Byte counts are shown with one decimal (two for GB), as Rust formats the
//! floating-point quotient: the count is first rounded to a `f64` (53
//! significant bits, ties to even), then the exact quotient by a power of
//! two is rounded to the shown decimals (ties to even). Both steps are
//! computed here with integers.
use vstd::prelude::*;
use crate::text::push_str;
use crate::text::push_char;

verus! {

/// display mode for progress output
#[derive(Clone, Copy, PartialEq, Eq, Structural)]
pub enum DisplayMode {
    /// show only progress bar, no stdout
    ProgressBar,
    /// show stdout AND progress bar
    Verbose,
}

/// result of running a build with progress tracking
pub struct ProgressResult {
    /// new profile if one was recorded (each element is "bytes:time_ms")
    pub new_profile: Option<Vec<String>>,
    /// total bytes of output processed
    pub total_bytes: u64,
    /// captured output for error display (only populated if not verbose)
    pub captured_output: Option<Vec<u8>>,
}

/// The decimal digit `d`.
pub open spec fn digit_char(d: nat) -> char {
    (48 + d) as char
}

/// `n` in decimal.
pub open spec fn decimal(n: nat) -> Seq<char>
    decreases n,
{
    if n < 10 {
        seq![digit_char(n)]
    } else {
        decimal(n / 10).push(digit_char(n % 10))
    }
}

/// `a / b` rounded to the nearest integer, ties to even.
pub open spec fn div_round_even(a: nat, b: nat) -> nat {
    let q = a / b;
    let r = a % b;
    if 2 * r > b || (2 * r == b && q % 2 == 1) {
        q + 1
    } else {
        q
    }
}

/// The spacing of `f64` values around `b`: one below `2^53`, doubling with
/// each further bit.
pub open spec fn f64_unit(b: nat) -> nat
    decreases b,
{
    if b < 0x20000000000000 {
        1
    } else {
        2 * f64_unit(b / 2)
    }
}

/// The value of `b as f64`: `b` rounded to 53 significant bits, ties to even.
pub open spec fn as_f64(b: nat) -> nat {
    div_round_even(b, f64_unit(b)) * f64_unit(b)
}

/// A number of tenths with one decimal.
pub open spec fn one_place(q: nat) -> Seq<char> {
    decimal(q / 10) + "."@ + seq![digit_char(q % 10)]
}

/// A number of hundredths with two decimals.
pub open spec fn two_places(q: nat) -> Seq<char> {
    decimal(q / 100) + "."@ + seq![digit_char(q / 10 % 10), digit_char(q % 10)]
}

/// A byte count in human-readable form.
pub open spec fn bytes_text(b: nat) -> Seq<char> {
    if b < 1024 {
        decimal(b) + " B"@
    } else if b < 1048576 {
        one_place(div_round_even(b * 10, 1024)) + " KB"@
    } else if b < 1073741824 {
        one_place(div_round_even(b * 10, 1048576)) + " MB"@
    } else {
        two_places(div_round_even(as_f64(b) * 100, 1073741824)) + " GB"@
    }
}

/// Appends the digit `d`.
fn push_digit(s: &mut String, d: u64)
    requires
        d < 10,
    ensures
        final(s)@ == old(s)@.push(digit_char(d as nat)),
{
    let c = (48 + d as u8) as char;
    push_char(s, c);
}

/// Appends `n` in decimal.
pub(crate) fn push_decimal(s: &mut String, n: u64)
    ensures
        final(s)@ == old(s)@ + decimal(n as nat),
    decreases n,
{
    if n >= 10 {
        push_decimal(s, n / 10);
    }
    push_digit(s, n % 10);
    proof {
        if n < 10 {
            assert(n % 10 == n);
        }
        assert(final(s)@ =~= old(s)@ + decimal(n as nat));
    }
}

/// `a / b` rounded, ties to even.
fn div_round_even_u128(a: u128, b: u128) -> (r: u128)
    requires
        0 < b < 0x1_0000_0000_0000_0000,
        a < 0x1_0000_0000_0000_0000_0000_0000,
    ensures
        r == div_round_even(a as nat, b as nat),
{
    let q = a / b;
    let rem = a % b;
    if 2 * rem > b || (2 * rem == b && q % 2 == 1) {
        q + 1
    } else {
        q
    }
}

/// The value of `b as f64`, as an integer.
fn f64_value(b: u64) -> (r: u128)
    ensures
        r == as_f64(b as nat),
        r <= 0x1_0000_0000_0000_1000,
{
    let mut unit: u128 = 1;
    let mut t: u64 = b;
    while t >= 0x20000000000000
        invariant
            unit >= 1,
            t == (b as nat) / (unit as nat),
            f64_unit(b as nat) == unit * f64_unit(t as nat),
            unit * 0x10000000000000 <= (b as nat) || unit == 1,
        decreases t,
    {
        proof {
            vstd::arithmetic::div_mod::lemma_div_denominator(b as int, unit as int, 2);
            assert(unit * 0x20000000000000 <= b) by (nonlinear_arith)
                requires
                    t == (b as nat) / (unit as nat),
                    t >= 0x20000000000000,
                    unit >= 1,
            {
                vstd::arithmetic::div_mod::lemma_fundamental_div_mod(b as int, unit as int);
            }
            assert(unit * 2 * f64_unit((t / 2) as nat) == unit * f64_unit(t as nat)) by (nonlinear_arith)
                requires
                    f64_unit(t as nat) == 2 * f64_unit((t / 2) as nat),
            ;
        }
        t = t / 2;
        unit = unit * 2;
    }
    proof {
        assert(f64_unit(t as nat) == 1);
        assert(unit <= 0x1000) by (nonlinear_arith)
            requires
                unit * 0x10000000000000 <= (b as nat) || unit == 1,
                b < 0x1_0000_0000_0000_0000,
        ;
    }
    let q = div_round_even_u128(b as u128, unit);
    proof {
        vstd::arithmetic::div_mod::lemma_fundamental_div_mod(b as int, unit as int);
        assert(q <= (b as nat) / (unit as nat) + 1);
        assert(q * unit <= ((b as nat) / (unit as nat)) * unit + unit) by (nonlinear_arith)
            requires
                q <= (b as nat) / (unit as nat) + 1,
                unit >= 1,
        ;
        assert(((b as nat) / (unit as nat)) * unit <= b) by (nonlinear_arith)
            requires
                b == unit * ((b as nat) / (unit as nat)) + (b as nat) % (unit as nat),
                (b as nat) % (unit as nat) >= 0,
        ;
    }
    q * unit
}

/// Appends a number of tenths with one decimal.
fn push_one_place(s: &mut String, q: u64)
    ensures
        final(s)@ == old(s)@ + one_place(q as nat),
{
    push_decimal(s, q / 10);
    push_char(s, '.');
    push_digit(s, q % 10);
    proof {
        reveal_strlit(".");
        assert(final(s)@ =~= old(s)@ + one_place(q as nat));
    }
}

/// Appends a number of hundredths with two decimals.
fn push_two_places(s: &mut String, q: u64)
    ensures
        final(s)@ == old(s)@ + two_places(q as nat),
{
    push_decimal(s, q / 100);
    push_char(s, '.');
    push_digit(s, q / 10 % 10);
    push_digit(s, q % 10);
    proof {
        reveal_strlit(".");
        assert(final(s)@ =~= old(s)@ + two_places(q as nat));
    }
}

/// format bytes in human-readable form
pub fn format_bytes(bytes: u64) -> (r: String)
    ensures
        r@ == bytes_text(bytes as nat),
{
    let mut s = String::new();
    if bytes < 1024 {
        push_decimal(&mut s, bytes);
        push_str(&mut s, " B");
    } else if bytes < 1048576 {
        let q = div_round_even_u128(bytes as u128 * 10, 1024);
        assert(q <= bytes * 10 / 1024 + 1);
        push_one_place(&mut s, q as u64);
        push_str(&mut s, " KB");
    } else if bytes < 1073741824 {
        let q = div_round_even_u128(bytes as u128 * 10, 1048576);
        assert(q <= bytes * 10 / 1048576 + 1);
        push_one_place(&mut s, q as u64);
        push_str(&mut s, " MB");
    } else {
        let v = f64_value(bytes);
        let q = div_round_even_u128(v * 100, 1073741824);
        assert(q <= v * 100 / 1073741824 + 1);
        assert(q < 0x1_0000_0000_0000_0000);
        push_two_places(&mut s, q as u64);
        push_str(&mut s, " GB");
    }
    s
}

} // verus!
