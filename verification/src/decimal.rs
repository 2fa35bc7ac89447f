//! Decimal digit strings: their numeric value, parsing a decimal literal to
//! a raw fixed-point value, and rendering a non-negative integer as digits.

use vstd::prelude::*;
use crate::SCALE;

verus! {

pub open spec fn is_digit(c: char) -> bool {
    '0' <= c && c <= '9'
}

pub open spec fn digit_val(c: char) -> int {
    c as int - '0' as int
}

pub open spec fn all_digits(s: Seq<char>) -> bool {
    forall|i: int| 0 <= i < s.len() ==> is_digit(#[trigger] s[i])
}

/// Numeric value of a digit string, most significant digit first.
pub open spec fn digits_val(s: Seq<char>) -> int
    decreases s.len(),
{
    if s.len() == 0 {
        0
    } else {
        digits_val(s.drop_last()) * 10 + digit_val(s.last())
    }
}

pub open spec fn pow10(n: nat) -> int
    decreases n,
{
    if n == 0 {
        1
    } else {
        10 * pow10((n - 1) as nat)
    }
}

/// Concrete values of the small powers of ten the proofs need.
pub proof fn lemma_pow10_vals()
    ensures
        pow10(0) == 1,
        pow10(1) == 10,
        pow10(6) == 1_000_000,
        pow10(9) == 1_000_000_000,
{
    assert(pow10(0) == 1);
    assert(pow10(1) == 10);
    assert(pow10(2) == 100);
    assert(pow10(3) == 1_000);
    assert(pow10(4) == 10_000);
    assert(pow10(5) == 100_000);
    assert(pow10(6) == 1_000_000);
    assert(pow10(7) == 10_000_000);
    assert(pow10(8) == 100_000_000);
    assert(pow10(9) == 1_000_000_000);
}

pub proof fn lemma_pow10_pos(n: nat)
    ensures
        pow10(n) >= 1,
    decreases n,
{
    if n > 0 {
        lemma_pow10_pos((n - 1) as nat);
    }
}

/// A digit string's value is non-negative and below ten to its length.
pub proof fn lemma_digits_val_bounds(s: Seq<char>)
    requires
        all_digits(s),
    ensures
        0 <= digits_val(s) < pow10(s.len()),
    decreases s.len(),
{
    if s.len() > 0 {
        assert(all_digits(s.drop_last())) by {
            assert(forall|i: int|
                0 <= i < s.len() - 1 ==> s.drop_last()[i] == #[trigger] s[i]);
        }
        lemma_digits_val_bounds(s.drop_last());
        assert(is_digit(s.last()));
        assert(0 <= digit_val(s.last()) <= 9);
    }
}

/// First index of `c` in `s`, or -1 when absent.
pub open spec fn find_char(s: Seq<char>, c: char) -> int
    decreases s.len(),
{
    if s.len() == 0 {
        -1
    } else if s[0] == c {
        0
    } else {
        let r = find_char(s.drop_first(), c);
        if r < 0 {
            -1
        } else {
            r + 1
        }
    }
}

pub proof fn lemma_find_char(s: Seq<char>, c: char)
    ensures
        find_char(s, c) >= 0 ==> find_char(s, c) < s.len() && s[find_char(s, c)] == c,
        find_char(s, c) >= 0 ==> forall|i: int| 0 <= i < find_char(s, c) ==> s[i] != c,
        find_char(s, c) < 0 ==> forall|i: int| 0 <= i < s.len() ==> s[i] != c,
    decreases s.len(),
{
    if s.len() > 0 && s[0] != c {
        lemma_find_char(s.drop_first(), c);
        let r = find_char(s.drop_first(), c);
        if r >= 0 {
            assert forall|i: int| 0 <= i < r + 1 implies s[i] != c by {
                if i > 0 {
                    assert(s.drop_first()[i - 1] == s[i]);
                }
            }
        } else {
            assert forall|i: int| 0 <= i < s.len() implies s[i] != c by {
                if i > 0 {
                    assert(s.drop_first()[i - 1] == s[i]);
                }
            }
        }
    }
}

/// Value, in millionths, of a fractional digit string: the first six digits
/// count, shorter strings are padded with zeros on the right.
pub open spec fn frac_val(s: Seq<char>) -> int {
    if s.len() >= 6 {
        digits_val(s.take(6))
    } else {
        digits_val(s) * pow10((6 - s.len()) as nat)
    }
}

/// The raw fixed-point value a token denotes, when it is a non-negative
/// decimal literal: digits with an optional dot and fractional digits, at
/// least one digit in all, and at most nine digits before the dot (larger
/// amounts are out of the range the arithmetic is proved for).
pub open spec fn amount_of(s: Seq<char>) -> Option<int> {
    let d = find_char(s, '.');
    if d < 0 {
        if 1 <= s.len() <= 9 && all_digits(s) {
            Some(digits_val(s) * SCALE)
        } else {
            None
        }
    } else {
        let ip = s.take(d);
        let fp = s.skip(d + 1);
        if all_digits(ip) && all_digits(fp) && ip.len() <= 9 && ip.len() + fp.len() >= 1 {
            Some(digits_val(ip) * SCALE + frac_val(fp))
        } else {
            None
        }
    }
}

/// Every parsed amount lies within the fixed-point range the library's
/// arithmetic is proved for.
pub proof fn lemma_amount_bounds(s: Seq<char>)
    ensures
        amount_of(s) is Some ==> 0 <= amount_of(s)->0 <= crate::MAX_MONEY,
{
    let d = find_char(s, '.');
    if d < 0 {
        if 1 <= s.len() <= 9 && all_digits(s) {
            lemma_digits_val_bounds(s);
            lemma_pow10_le(s.len(), 9);
            lemma_pow10_vals();
        }
    } else {
        let ip = s.take(d);
        let fp = s.skip(d + 1);
        if all_digits(ip) && all_digits(fp) && ip.len() <= 9 && ip.len() + fp.len() >= 1 {
            lemma_digits_val_bounds(ip);
            lemma_pow10_le(ip.len(), 9);
            lemma_pow10_vals();
            lemma_frac_val_bounds(fp);
        }
    }
}

pub proof fn lemma_pow10_le(a: nat, b: nat)
    requires
        a <= b,
    ensures
        pow10(a) <= pow10(b),
    decreases b,
{
    if a < b {
        lemma_pow10_le(a, (b - 1) as nat);
        lemma_pow10_pos((b - 1) as nat);
    }
}

pub proof fn lemma_frac_val_bounds(s: Seq<char>)
    requires
        all_digits(s),
    ensures
        0 <= frac_val(s) < 1_000_000,
{
    if s.len() >= 6 {
        let t = s.take(6);
        assert(all_digits(t)) by {
            assert(forall|i: int| 0 <= i < 6 ==> t[i] == #[trigger] s[i]);
        }
        lemma_digits_val_bounds(t);
        lemma_pow10_vals();
    } else {
        lemma_digits_val_bounds(s);
        lemma_pow10_pos((6 - s.len()) as nat);
        assert(pow10(s.len()) * pow10((6 - s.len()) as nat) == pow10(6)) by {
            lemma_pow10_mul(s.len(), (6 - s.len()) as nat);
        }
        lemma_pow10_vals();
        assert(digits_val(s) * pow10((6 - s.len()) as nat) < pow10(s.len()) * pow10(
            (6 - s.len()) as nat,
        )) by {
            vstd::arithmetic::mul::lemma_mul_strict_inequality(
                digits_val(s),
                pow10(s.len()),
                pow10((6 - s.len()) as nat),
            );
        }
        vstd::arithmetic::mul::lemma_mul_nonnegative(
            digits_val(s),
            pow10((6 - s.len()) as nat),
        );
    }
}

pub proof fn lemma_pow10_mul(a: nat, b: nat)
    ensures
        pow10(a) * pow10(b) == pow10(a + b),
    decreases a,
{
    if a == 0 {
    } else {
        lemma_pow10_mul((a - 1) as nat, b);
        assert(pow10(a) * pow10(b) == 10 * (pow10((a - 1) as nat) * pow10(b))) by {
            vstd::arithmetic::mul::lemma_mul_is_associative(
                10,
                pow10((a - 1) as nat),
                pow10(b),
            );
        }
    }
}

/// Parses a non-negative decimal literal into a raw fixed-point value.
/// Returns `None` exactly where the grammar above rejects the token.
pub fn parse_amount(s: &Vec<char>) -> (r: Option<i64>)
    ensures
        r is Some <==> amount_of(s@) is Some,
        r is Some ==> r->0 as int == amount_of(s@)->0,
{
    proof {
        lemma_find_char(s@, '.');
        lemma_amount_bounds(s@);
        lemma_pow10_vals();
    }
    // locate the dot, if any
    let mut dot: Option<usize> = None;
    let mut i: usize = 0;
    while i < s.len()
        invariant
            i <= s@.len(),
            dot is None ==> forall|j: int| 0 <= j < i ==> s@[j] != '.',
            dot is Some ==> dot->0 < i && s@[dot->0 as int] == '.' && (forall|j: int|
                0 <= j < dot->0 ==> s@[j] != '.'),
        decreases s@.len() - i,
    {
        if dot.is_none() && s[i] == '.' {
            dot = Some(i);
        }
        i = i + 1;
    }
    proof {
        let d = find_char(s@, '.');
        match dot {
            Some(p) => {
                assert(d == p) by {
                    lemma_find_char(s@, '.');
                }
            },
            None => {
                assert(d < 0) by {
                    lemma_find_char(s@, '.');
                }
            },
        }
    }
    let ip_end: usize = match dot {
        Some(p) => p,
        None => s.len(),
    };
    // integer part
    if ip_end > 9 {
        proof {
            reject_long_int_part(s@, ip_end as int);
        }
        return None;
    }
    if ip_end == 0 && dot.is_none() {
        return None;
    }
    let mut int_val: i64 = 0;
    let mut k: usize = 0;
    while k < ip_end
        invariant
            k <= ip_end <= 9,
            ip_end <= s@.len(),
            find_char(s@, '.') < 0 ==> ip_end == s@.len(),
            find_char(s@, '.') >= 0 ==> ip_end == find_char(s@, '.'),
            all_digits(s@.take(k as int)),
            int_val as int == digits_val(s@.take(k as int)),
            0 <= int_val < pow10(k as nat),
            pow10(9) == 1_000_000_000,
        decreases ip_end - k,
    {
        let c = s[k];
        if !(c >= '0' && c <= '9') {
            proof {
                reject_bad_digit(s@, ip_end as int, k as int);
            }
            return None;
        }
        proof {
            assert(s@.take(k as int + 1).drop_last() =~= s@.take(k as int));
            assert(s@.take(k as int + 1).last() == s@[k as int]);
            lemma_pow10_le((k + 1) as nat, 9);
        }
        int_val = int_val * 10 + (c as i64 - '0' as i64);
        k = k + 1;
    }
    // fractional part
    let mut frac: i64 = 0;
    let mut nfrac: usize = 0;
    if let Some(p) = dot {
        if p + 1 >= s.len() && p == 0 {
            // a lone dot has no digit at all
            proof {
                assert(s@.take(0int).len() + s@.skip(1int).len() == 0);
            }
            return None;
        }
        let mut k2: usize = p + 1;
        while k2 < s.len()
            invariant
                p < s@.len(),
                find_char(s@, '.') == p,
                p + 1 <= k2 <= s@.len(),
                all_digits(s@.subrange(p + 1, k2 as int)),
                nfrac == if k2 - p - 1 <= 6 { k2 - p - 1 as int } else { 6int },
                frac as int == frac_partial(s@.skip(p + 1), nfrac as int),
                0 <= frac < pow10(nfrac as nat),
                pow10(9) == 1_000_000_000,
            decreases s@.len() - k2,
        {
            let c = s[k2];
            if !(c >= '0' && c <= '9') {
                proof {
                    reject_bad_frac_digit(s@, p as int, k2 as int);
                }
                return None;
            }
            proof {
                let fp = s@.skip(p + 1);
                assert(s@.subrange(p + 1, k2 as int + 1).drop_last() =~= s@.subrange(
                    p + 1,
                    k2 as int,
                ));
                assert(fp[k2 - p - 1] == s@[k2 as int]);
                if nfrac < 6 {
                    assert(fp.take(nfrac as int + 1).drop_last() =~= fp.take(nfrac as int));
                    assert(fp.take(nfrac as int + 1).last() == fp[nfrac as int]);
                    lemma_pow10_le((nfrac + 1) as nat, 9);
                }
            }
            if nfrac < 6 {
                frac = frac * 10 + (c as i64 - '0' as i64);
                nfrac = nfrac + 1;
            }
            k2 = k2 + 1;
        }
        // pad the fraction to six digits
        while nfrac < 6
            invariant
                p < s@.len(),
                nfrac <= 6,
                all_digits(s@.skip(p + 1)),
                nfrac >= s@.skip(p + 1).len() || nfrac == 6,
                frac as int == frac_partial(s@.skip(p + 1), nfrac as int),
                0 <= frac < pow10(nfrac as nat),
                pow10(9) == 1_000_000_000,
            decreases 6 - nfrac,
        {
            proof {
                let fp = s@.skip(p + 1);
                let k = (nfrac - fp.len()) as nat;
                lemma_digits_val_bounds(fp);
                lemma_pow10_pos(k);
                lemma_pow10_vals();
                if nfrac == fp.len() {
                    assert(fp.take(fp.len() as int) =~= fp);
                }
                assert(frac_partial(fp, nfrac as int) == digits_val(fp) * pow10(k));
                assert(digits_val(fp) * pow10(k) * 10 == digits_val(fp) * (pow10(k) * 10))
                    by {
                    vstd::arithmetic::mul::lemma_mul_is_associative(
                        digits_val(fp),
                        pow10(k),
                        10,
                    );
                }
                assert(pow10(k) * 10 == pow10(k + 1)) by {
                    lemma_pow10_mul(k, 1);
                    lemma_pow10_vals();
                }
                assert(frac_partial(fp, nfrac as int + 1) == digits_val(fp) * pow10(k + 1));
                assert(pow10(nfrac as nat) * 10 == pow10((nfrac + 1) as nat)) by {
                    lemma_pow10_mul(nfrac as nat, 1);
                    lemma_pow10_vals();
                }
                lemma_pow10_le((nfrac + 1) as nat, 9);
            }
            frac = frac * 10;
            nfrac = nfrac + 1;
        }
        proof {
            lemma_frac_total(s@.skip(p + 1));
            lemma_frac_val_bounds(s@.skip(p + 1));
        }
    }
    proof {
        let d = find_char(s@, '.');
        if d < 0 {
            assert(s@.take(ip_end as int) =~= s@);
        } else {
            assert(ip_end as int == d);
        }
        lemma_pow10_le(ip_end as nat, 9);
        lemma_pow10_vals();
        assert(int_val < 1_000_000_000);
        assert(frac < 1_000_000);
    }
    Some(int_val * SCALE + frac)
}

/// Value of the first `n` fractional digits (or all of them when fewer),
/// still unscaled.
pub open spec fn frac_partial(fp: Seq<char>, n: int) -> int {
    if n <= fp.len() {
        digits_val(fp.take(n))
    } else {
        digits_val(fp) * pow10((n - fp.len()) as nat)
    }
}

proof fn lemma_frac_total(fp: Seq<char>)
    requires
        all_digits(fp),
    ensures
        frac_partial(fp, 6) == frac_val(fp),
{
    if fp.len() >= 6 {
    } else {
    }
}

proof fn reject_long_int_part(s: Seq<char>, ip_end: int)
    requires
        ip_end > 9,
        find_char(s, '.') < 0 ==> ip_end == s.len(),
        find_char(s, '.') >= 0 ==> ip_end == find_char(s, '.'),
    ensures
        amount_of(s) is None,
{
    lemma_find_char(s, '.');
    let d = find_char(s, '.');
    if d >= 0 {
        assert(s.take(d).len() == d);
    }
}

proof fn reject_bad_digit(s: Seq<char>, ip_end: int, k: int)
    requires
        0 <= k < ip_end <= s.len(),
        !is_digit(s[k]),
        find_char(s, '.') < 0 ==> ip_end == s.len(),
        find_char(s, '.') >= 0 ==> ip_end == find_char(s, '.'),
    ensures
        amount_of(s) is None,
{
    lemma_find_char(s, '.');
    let d = find_char(s, '.');
    if d >= 0 {
        assert(s.take(d)[k] == s[k]);
        assert(!all_digits(s.take(d)));
    } else {
        assert(!all_digits(s));
    }
}

proof fn reject_bad_frac_digit(s: Seq<char>, p: int, k: int)
    requires
        0 <= p,
        p + 1 <= k < s.len(),
        !is_digit(s[k]),
        find_char(s, '.') == p,
    ensures
        amount_of(s) is None,
{
    lemma_find_char(s, '.');
    let fp = s.skip(p + 1);
    assert(fp[k - p - 1] == s[k]);
    assert(!all_digits(fp));
}

/// The digits of a non-negative integer, most significant first.
pub open spec fn dec_str(n: int) -> Seq<char>
    decreases n,
{
    if n < 0 {
        Seq::empty()
    } else if n < 10 {
        seq![digit_char(n)]
    } else {
        dec_str(n / 10).push(digit_char(n % 10))
    }
}

pub open spec fn digit_char(d: int) -> char {
    if d == 0 {
        '0'
    } else if d == 1 {
        '1'
    } else if d == 2 {
        '2'
    } else if d == 3 {
        '3'
    } else if d == 4 {
        '4'
    } else if d == 5 {
        '5'
    } else if d == 6 {
        '6'
    } else if d == 7 {
        '7'
    } else if d == 8 {
        '8'
    } else {
        '9'
    }
}

fn digit_str(d: u128) -> (r: &'static str)
    requires
        d < 10,
    ensures
        r@ =~= seq![digit_char(d as int)],
{
    proof {
        reveal_strlit("0");
        reveal_strlit("1");
        reveal_strlit("2");
        reveal_strlit("3");
        reveal_strlit("4");
        reveal_strlit("5");
        reveal_strlit("6");
        reveal_strlit("7");
        reveal_strlit("8");
        reveal_strlit("9");
    }
    if d == 0 {
        "0"
    } else if d == 1 {
        "1"
    } else if d == 2 {
        "2"
    } else if d == 3 {
        "3"
    } else if d == 4 {
        "4"
    } else if d == 5 {
        "5"
    } else if d == 6 {
        "6"
    } else if d == 7 {
        "7"
    } else if d == 8 {
        "8"
    } else {
        "9"
    }
}

/// Renders a non-negative integer as its decimal digits.
pub fn u128_to_string(n: u128) -> (r: String)
    ensures
        r@ == dec_str(n as int),
    decreases n,
{
    if n < 10 {
        let mut r = String::new();
        r.append(digit_str(n));
        proof {
            assert(r@ =~= dec_str(n as int));
        }
        r
    } else {
        let mut r = u128_to_string(n / 10);
        r.append(digit_str(n % 10));
        proof {
            assert(r@ =~= dec_str(n as int));
        }
        r
    }
}

} // verus!
