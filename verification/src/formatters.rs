//! Rendering of raw fixed-point values for display: prices with a
//! magnitude-dependent number of decimals, volumes and market caps
//! abbreviated to millions or billions with one decimal.

use vstd::prelude::*;
use crate::decimal::{dec_str, pow10, lemma_pow10_vals};
use crate::text::push_char;

verus! {

pub open spec fn zeros(n: nat) -> Seq<char> {
    Seq::new(n, |i: int| '0')
}

/// The digits of `n`, left-padded with zeros to width `w`.
pub open spec fn padded_dec(n: int, w: nat) -> Seq<char> {
    if dec_str(n).len() >= w {
        dec_str(n)
    } else {
        zeros((w - dec_str(n).len()) as nat) + dec_str(n)
    }
}

/// Renders `n` as at least `w` digits, zero-padded on the left.
pub fn pad_dec(n: u128, w: usize) -> (r: String)
    ensures
        r@ == padded_dec(n as int, w as nat),
{
    let digits = crate::decimal::u128_to_string(n);
    let len = digits.as_str().unicode_len();
    let mut r = String::new();
    let mut k: usize = len;
    while k < w
        invariant
            len == dec_str(n as int).len(),
            len <= k,
            k <= w || k == len,
            r@ =~= zeros((k - len) as nat),
        decreases w - k,
    {
        push_char(&mut r, '0');
        k = k + 1;
        proof {
            assert(r@ =~= zeros((k - len) as nat));
        }
    }
    r.append(digits.as_str());
    proof {
        if len >= w {
            assert(zeros(0) =~= Seq::<char>::empty());
            assert(r@ =~= dec_str(n as int));
        }
    }
    r
}

/// `m` rounded, half away from zero, to the multiple of `unit` nearest it,
/// counted in units.
pub open spec fn rounded_units(m: int, unit: int) -> int {
    (m + unit / 2) / unit
}

/// Digits of a non-negative raw value shown with `d` decimals: the rounded
/// whole part, a dot, and the fraction zero-padded to `d` digits.
pub open spec fn money_digits(m: int, d: nat) -> Seq<char> {
    let t = rounded_units(m, pow10((6 - d) as nat));
    dec_str(t / pow10(d)) + seq!['.'] + padded_dec(t % pow10(d), d)
}

/// Appends `money_digits(m, d)` to `out` for a magnitude `m`.
fn append_money_digits(out: &mut String, m: u128, d: usize)
    requires
        d == 2 || d == 3 || d == 6,
        m <= 0x8000_0000_0000_0000_0000_0000_0000_0000u128,
    ensures
        final(out)@ == old(out)@ + money_digits(m as int, d as nat),
{
    proof {
        lemma_pow10_vals();
        assert(pow10(4) == 10_000 && pow10(3) == 1_000 && pow10(2) == 100) by {
            assert(pow10(2) == 100);
            assert(pow10(3) == 1_000);
            assert(pow10(4) == 10_000);
        }
    }
    let unit: u128 = if d == 2 {
        10_000
    } else if d == 3 {
        1_000
    } else {
        1
    };
    let scale: u128 = if d == 2 {
        100
    } else if d == 3 {
        1_000
    } else {
        1_000_000
    };
    proof {
        assert(unit as int == pow10((6 - d) as nat));
        assert(scale as int == pow10(d as nat));
    }
    let t = (m + unit / 2) / unit;
    let whole = t / scale;
    let frac = t % scale;
    let whole_str = crate::decimal::u128_to_string(whole);
    out.append(whole_str.as_str());
    proof {
        reveal_strlit(".");
    }
    out.append(".");
    let frac_str = pad_dec(frac, d);
    out.append(frac_str.as_str());
    proof {
        assert(final(out)@ =~= old(out)@ + money_digits(m as int, d as nat));
    }
}

/// What a raw fixed-point price renders as: two decimals at a thousand or
/// more, three at one or more, six below that (negative values included),
/// with a leading dollar sign and a minus for negative values.
pub open spec fn price_str(p: int) -> Seq<char> {
    let d: nat = if p >= 1000 * (crate::SCALE as int) {
        2
    } else if p >= crate::SCALE as int {
        3
    } else {
        6
    };
    let sign: Seq<char> = if p < 0 {
        seq!['-']
    } else {
        Seq::empty()
    };
    let m = if p < 0 {
        -p
    } else {
        p
    };
    seq!['$'] + sign + money_digits(m, d)
}

/// Formats a raw fixed-point price with decimals chosen by its magnitude.
pub fn format_price(p: i128) -> (r: String)
    requires
        p > i128::MIN,
    ensures
        r@ == price_str(p as int),
{
    let d: usize = if p >= 1_000_000_000 {
        2
    } else if p >= 1_000_000 {
        3
    } else {
        6
    };
    let mut r = String::new();
    proof {
        reveal_strlit("$");
        reveal_strlit("-");
    }
    r.append("$");
    let m: u128 = if p < 0 {
        r.append("-");
        (-p) as u128
    } else {
        p as u128
    };
    append_money_digits(&mut r, m, d);
    proof {
        assert(r@ =~= price_str(p as int));
    }
    r
}

/// One-decimal rendering of a magnitude `m` divided by `unit`:
/// rounded half away from zero to tenths.
pub open spec fn one_dec_digits(m: int, unit: int) -> Seq<char> {
    let t = (m * 10 + unit / 2) / unit;
    dec_str(t / 10) + seq!['.'] + dec_str(t % 10)
}

/// What an abbreviated dollar value renders as: billions with suffix `B`
/// from a billion up, otherwise millions with suffix `M`, one decimal each.
pub open spec fn abbrev_str(v: int) -> Seq<char> {
    let sign: Seq<char> = if v < 0 {
        seq!['-']
    } else {
        Seq::empty()
    };
    let m = if v < 0 {
        -v
    } else {
        v
    };
    if v >= 1_000_000_000 * (crate::SCALE as int) {
        seq!['$'] + one_dec_digits(m, 1_000_000_000 * (crate::SCALE as int)) + seq!['B']
    } else {
        seq!['$'] + sign + one_dec_digits(m, 1_000_000 * (crate::SCALE as int)) + seq!['M']
    }
}

/// The text an absent value renders as.
pub open spec fn not_available_str() -> Seq<char> {
    seq!['N', '/', 'A']
}

fn format_abbrev(v: i64) -> (r: String)
    ensures
        r@ == abbrev_str(v as int),
{
    let mut r = String::new();
    proof {
        reveal_strlit("$");
        reveal_strlit("-");
        reveal_strlit(".");
        reveal_strlit("B");
        reveal_strlit("M");
    }
    r.append("$");
    let big = v >= 1_000_000_000_000_000;
    let m: u128 = if v < 0 {
        r.append("-");
        (-(v as i128)) as u128
    } else {
        v as u128
    };
    let unit: u128 = if big {
        1_000_000_000_000_000
    } else {
        1_000_000_000_000
    };
    let t = (m * 10 + unit / 2) / unit;
    let whole_str = crate::decimal::u128_to_string(t / 10);
    r.append(whole_str.as_str());
    r.append(".");
    let tenth_str = crate::decimal::u128_to_string(t % 10);
    r.append(tenth_str.as_str());
    if big {
        r.append("B");
    } else {
        r.append("M");
    }
    proof {
        assert(r@ =~= abbrev_str(v as int));
    }
    r
}

/// Formats a raw 24-hour volume: `N/A` when absent, else dollars
/// abbreviated to millions or billions with one decimal.
pub fn format_volume(volume: Option<i64>) -> (r: String)
    ensures
        volume is None ==> r@ == not_available_str(),
        volume is Some ==> r@ == abbrev_str(volume->0 as int),
{
    match volume {
        None => {
            let mut r = String::new();
            proof {
                reveal_strlit("N/A");
            }
            r.append("N/A");
            proof {
                assert(r@ =~= not_available_str());
            }
            r
        },
        Some(v) => format_abbrev(v),
    }
}

/// Formats a raw market cap: `N/A` when absent, else dollars abbreviated to
/// millions or billions with one decimal.
pub fn format_market_cap(market_cap: Option<i64>) -> (r: String)
    ensures
        market_cap is None ==> r@ == not_available_str(),
        market_cap is Some ==> r@ == abbrev_str(market_cap->0 as int),
{
    format_volume(market_cap)
}

} // verus!
