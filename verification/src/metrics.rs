//! Portfolio aggregates: totals recomputed from scratch over the joined
//! rows, and the allocation list the summary shows. Nothing here is cached;
//! both inputs can change between renders.

use vstd::prelude::*;
use crate::rows::{div_toward_zero, lemma_row_bounds, Row};
use crate::MAX_ROWS;

verus! {

/// The totals the portfolio summary shows, all raw fixed-point values.
pub struct PortfolioTotals {
    pub total_value: i128,
    pub total_cost: i128,
    pub total_pl: i128,
    pub total_pl_pct: i128,
    pub change_24h: i128,
    pub change_24h_pct: i128,
    pub asset_count: usize,
}

pub open spec fn total_value_of(rows: Seq<Row>) -> int
    decreases rows.len(),
{
    if rows.len() == 0 {
        0
    } else {
        total_value_of(rows.drop_last()) + rows.last().current_value
    }
}

pub open spec fn total_cost_of(rows: Seq<Row>) -> int
    decreases rows.len(),
{
    if rows.len() == 0 {
        0
    } else {
        total_cost_of(rows.drop_last()) + rows.last().cost_basis
    }
}

pub open spec fn total_pl_of(rows: Seq<Row>) -> int
    decreases rows.len(),
{
    if rows.len() == 0 {
        0
    } else {
        total_pl_of(rows.drop_last()) + rows.last().profit_loss
    }
}

/// A row's 24-hour value change in raw dollars: its percent change applied
/// to its current value; an absent percent change counts as zero.
pub open spec fn row_change_24h(r: Row) -> int {
    let pct: int = if r.change_24h is Some {
        r.change_24h->0 as int
    } else {
        0
    };
    div_toward_zero(pct * r.current_value, 100_000_000)
}

pub open spec fn total_change_of(rows: Seq<Row>) -> int
    decreases rows.len(),
{
    if rows.len() == 0 {
        0
    } else {
        total_change_of(rows.drop_last()) + row_change_24h(rows.last())
    }
}

/// Total profit or loss in percent of cost, zero on a zero cost basis.
pub open spec fn total_pl_pct_of(rows: Seq<Row>) -> int {
    if total_cost_of(rows) > 0 {
        div_toward_zero(total_pl_of(rows) * 100_000_000, total_cost_of(rows))
    } else {
        0
    }
}

/// Total 24-hour change in percent of current value, zero on a zero total.
pub open spec fn change_24h_pct_of(rows: Seq<Row>) -> int {
    if total_value_of(rows) > 0 {
        div_toward_zero(total_change_of(rows) * 100_000_000, total_value_of(rows))
    } else {
        0
    }
}

/// The aggregate invariant: the difference of the per-row value and cost
/// sums equals the profit-and-loss sum computed directly, for any rows,
/// the empty set included.
pub proof fn lemma_totals_consistent(rows: Seq<Row>)
    requires
        forall|i: int| 0 <= i < rows.len() ==> (#[trigger] rows[i]).wf(),
    ensures
        total_value_of(rows) - total_cost_of(rows) == total_pl_of(rows),
    decreases rows.len(),
{
    if rows.len() > 0 {
        assert(forall|i: int|
            0 <= i < rows.len() - 1 ==> rows.drop_last()[i] == #[trigger] rows[i]);
        lemma_totals_consistent(rows.drop_last());
        assert(rows.last().wf());
    }
}

/// A well-formed row's 24-hour change stays within `10^26` in magnitude.
pub proof fn lemma_row_change_bounds(r: Row)
    requires
        r.wf(),
    ensures
        -100_000_000_000_000_000_000_000_000int <= row_change_24h(r)
            <= 100_000_000_000_000_000_000_000_000int,
{
    lemma_row_bounds(r);
    let pct: int = if r.change_24h is Some {
        r.change_24h->0 as int
    } else {
        0
    };
    let prod = pct * r.current_value;
    assert(-10_000_000_000int <= pct <= 10_000_000_000int);
    lemma_mul_magnitude(pct, r.current_value as int, 10_000_000_000int,
        1_000_000_000_000_000_000_000_000int);
    if prod >= 0 {
        vstd::arithmetic::div_mod::lemma_div_pos_is_pos(prod, 100_000_000int);
        vstd::arithmetic::div_mod::lemma_div_is_ordered(
            prod,
            10_000_000_000int * 1_000_000_000_000_000_000_000_000int,
            100_000_000int,
        );
    } else {
        vstd::arithmetic::div_mod::lemma_div_pos_is_pos(-prod, 100_000_000int);
        vstd::arithmetic::div_mod::lemma_div_is_ordered(
            -prod,
            10_000_000_000int * 1_000_000_000_000_000_000_000_000int,
            100_000_000int,
        );
    }
}

/// `|a| <= ma` and `|b| <= mb` bound `|a * b|` by `ma * mb`.
proof fn lemma_mul_magnitude(a: int, b: int, ma: int, mb: int)
    requires
        -ma <= a <= ma,
        -mb <= b <= mb,
        0 <= ma,
        0 <= mb,
    ensures
        -(ma * mb) <= a * b <= ma * mb,
{
    let aa = if a >= 0 {
        a
    } else {
        -a
    };
    let ab = if b >= 0 {
        b
    } else {
        -b
    };
    vstd::arithmetic::mul::lemma_mul_upper_bound(aa, ma, ab, mb);
    vstd::arithmetic::mul::lemma_mul_nonnegative(aa, ab);
    assert(a * b == aa * ab || a * b == -(aa * ab)) by {
        vstd::arithmetic::mul::lemma_mul_unary_negation(a, b);
        vstd::arithmetic::mul::lemma_mul_unary_negation(aa, b);
    }
}

/// Division toward zero by a positive divisor, on machine integers.
fn div_tz_exec(num: i128, den: i128) -> (r: i128)
    requires
        den > 0,
        num > i128::MIN,
    ensures
        r as int == div_toward_zero(num as int, den as int),
{
    let neg = num < 0;
    let mag: u128 = if neg {
        (-num) as u128
    } else {
        num as u128
    };
    let q: u128 = mag / (den as u128);
    proof {
        vstd::arithmetic::div_mod::lemma_div_pos_is_pos(mag as int, den as int);
        vstd::arithmetic::div_mod::lemma_div_nonincreasing(mag as int, den as int);
    }
    if neg {
        -(q as i128)
    } else {
        q as i128
    }
}

/// Computes a row's 24-hour change in raw dollars.
fn row_change_exec(r: &Row) -> (c: i128)
    requires
        r.wf(),
    ensures
        c as int == row_change_24h(*r),
{
    proof {
        lemma_row_bounds(*r);
        lemma_row_change_bounds(*r);
    }
    let pct: i64 = match r.change_24h {
        Some(p) => p,
        None => 0,
    };
    let neg = pct < 0;
    let mag_pct: u128 = if neg {
        (-(pct as i128)) as u128
    } else {
        pct as u128
    };
    proof {
        vstd::arithmetic::mul::lemma_mul_upper_bound(
            mag_pct as int,
            10_000_000_000int,
            r.current_value as int,
            1_000_000_000_000_000_000_000_000int,
        );
        vstd::arithmetic::mul::lemma_mul_nonnegative(mag_pct as int, r.current_value as int);
    }
    let prod: u128 = mag_pct * (r.current_value as u128);
    let q: u128 = prod / 100_000_000u128;
    proof {
        vstd::arithmetic::div_mod::lemma_div_pos_is_pos(prod as int, 100_000_000int);
        vstd::arithmetic::div_mod::lemma_div_nonincreasing(prod as int, 100_000_000int);
        let p: int = if r.change_24h is Some {
            r.change_24h->0 as int
        } else {
            0
        };
        if neg {
            assert(p * (r.current_value as int) == -(mag_pct as int * (r.current_value
                as int))) by {
                vstd::arithmetic::mul::lemma_mul_unary_negation(
                    mag_pct as int,
                    r.current_value as int,
                );
            }
        }
    }
    if neg {
        -(q as i128)
    } else {
        q as i128
    }
}

/// Computes the portfolio totals over the joined rows, from scratch: value,
/// cost, profit and loss with its percent of cost, the value-weighted
/// 24-hour change with its percent of value, and the asset count. The row
/// count is capped so that every sum fits the machine arithmetic.
pub fn compute_totals(rows: &Vec<Row>) -> (t: PortfolioTotals)
    requires
        forall|i: int| 0 <= i < rows@.len() ==> (#[trigger] rows@[i]).wf(),
        rows@.len() <= MAX_ROWS,
    ensures
        t.total_value as int == total_value_of(rows@),
        t.total_cost as int == total_cost_of(rows@),
        t.total_pl as int == total_pl_of(rows@),
        t.total_pl_pct as int == total_pl_pct_of(rows@),
        t.change_24h as int == total_change_of(rows@),
        t.change_24h_pct as int == change_24h_pct_of(rows@),
        t.asset_count == rows@.len(),
{
    let mut tv: i128 = 0;
    let mut tc: i128 = 0;
    let mut tpl: i128 = 0;
    let mut tch: i128 = 0;
    let mut i: usize = 0;
    while i < rows.len()
        invariant
            i <= rows@.len() <= MAX_ROWS,
            forall|j: int| 0 <= j < rows@.len() ==> (#[trigger] rows@[j]).wf(),
            tv as int == total_value_of(rows@.take(i as int)),
            tc as int == total_cost_of(rows@.take(i as int)),
            tpl as int == total_pl_of(rows@.take(i as int)),
            tch as int == total_change_of(rows@.take(i as int)),
            0 <= tv <= i * 1_000_000_000_000_000_000_000_000int,
            0 <= tc <= i * 1_000_000_000_000_000_000_000_000int,
            -(i * 1_000_000_000_000_000_000_000_000int) <= tpl <= i
                * 1_000_000_000_000_000_000_000_000int,
            -(i * 100_000_000_000_000_000_000_000_000int) <= tch <= i
                * 100_000_000_000_000_000_000_000_000int,
        decreases rows@.len() - i,
    {
        proof {
            assert(rows@.take(i as int + 1).drop_last() =~= rows@.take(i as int));
            assert(rows@.take(i as int + 1).last() == rows@[i as int]);
            lemma_row_bounds(rows@[i as int]);
            lemma_row_change_bounds(rows@[i as int]);
        }
        let r = &rows[i];
        tv = tv + r.current_value;
        tc = tc + r.cost_basis;
        tpl = tpl + r.profit_loss;
        let ch = row_change_exec(r);
        tch = tch + ch;
        i = i + 1;
    }
    proof {
        assert(rows@.take(rows@.len() as int) =~= rows@);
    }
    let tpl_pct: i128 = if tc > 0 {
        div_tz_exec(tpl * 100_000_000, tc)
    } else {
        0
    };
    let tch_pct: i128 = if tv > 0 {
        div_tz_exec(tch * 100_000_000, tv)
    } else {
        0
    };
    proof {
        if tc > 0 {
            lemma_div_tz_magnitude(tpl as int * 100_000_000, tc as int);
        }
        if tv > 0 {
            lemma_div_tz_magnitude(tch as int * 100_000_000, tv as int);
        }
    }
    PortfolioTotals {
        total_value: tv,
        total_cost: tc,
        total_pl: tpl,
        total_pl_pct: tpl_pct,
        change_24h: tch,
        change_24h_pct: tch_pct,
        asset_count: rows.len(),
    }
}

proof fn lemma_div_tz_magnitude(a: int, b: int)
    requires
        b > 0,
    ensures
        div_toward_zero(a, b) <= if a >= 0 {
            a
        } else {
            0
        },
        div_toward_zero(a, b) >= if a >= 0 {
            0
        } else {
            a
        },
{
    if a >= 0 {
        vstd::arithmetic::div_mod::lemma_div_pos_is_pos(a, b);
        vstd::arithmetic::div_mod::lemma_div_nonincreasing(a, b);
    } else {
        vstd::arithmetic::div_mod::lemma_div_pos_is_pos(-a, b);
        vstd::arithmetic::div_mod::lemma_div_nonincreasing(-a, b);
    }
}

/// One allocation line of the summary: a symbol, its share of the total
/// value in raw percent, and its value.
pub struct Allocation {
    pub symbol: String,
    pub pct: i128,
    pub value: i128,
}

/// A value's share of the total, in raw percent; zero on a zero total.
pub open spec fn alloc_pct(v: int, total: int) -> int {
    if total > 0 {
        v * 100_000_000 / total
    } else {
        0
    }
}

pub open spec fn allocation_of(r: Row, total: int) -> Allocation {
    Allocation {
        symbol: r.symbol,
        pct: alloc_pct(r.current_value as int, total) as i128,
        value: r.current_value,
    }
}

pub open spec fn allocations_spec(rows: Seq<Row>, total: int) -> Seq<Allocation>
    decreases rows.len(),
{
    if rows.len() == 0 {
        Seq::empty()
    } else {
        allocations_spec(rows.drop_last(), total).push(allocation_of(rows.last(), total))
    }
}

/// Builds one allocation line per row against the given total value.
pub fn allocations(rows: &Vec<Row>, total_value: i128) -> (r: Vec<Allocation>)
    requires
        forall|i: int| 0 <= i < rows@.len() ==> (#[trigger] rows@[i]).wf(),
        0 <= total_value,
    ensures
        r@ == allocations_spec(rows@, total_value as int),
        r@.len() == rows@.len(),
{
    let mut r: Vec<Allocation> = Vec::new();
    let mut i: usize = 0;
    while i < rows.len()
        invariant
            i <= rows@.len(),
            r@.len() == i,
            0 <= total_value,
            forall|j: int| 0 <= j < rows@.len() ==> (#[trigger] rows@[j]).wf(),
            r@ == allocations_spec(rows@.take(i as int), total_value as int),
        decreases rows@.len() - i,
    {
        proof {
            assert(rows@.take(i as int + 1).drop_last() =~= rows@.take(i as int));
            assert(rows@.take(i as int + 1).last() == rows@[i as int]);
            lemma_row_bounds(rows@[i as int]);
        }
        let row = &rows[i];
        let pct: i128 = if total_value > 0 {
            proof {
                vstd::arithmetic::mul::lemma_mul_upper_bound(
                    row.current_value as int,
                    1_000_000_000_000_000_000_000_000int,
                    100_000_000int,
                    100_000_000int,
                );
                vstd::arithmetic::mul::lemma_mul_nonnegative(
                    row.current_value as int,
                    100_000_000int,
                );
            }
            let num: u128 = (row.current_value as u128) * 100_000_000u128;
            let q: u128 = num / (total_value as u128);
            proof {
                vstd::arithmetic::div_mod::lemma_div_pos_is_pos(
                    num as int,
                    total_value as int,
                );
                vstd::arithmetic::div_mod::lemma_div_nonincreasing(
                    num as int,
                    total_value as int,
                );
            }
            q as i128
        } else {
            0
        };
        let a = Allocation { symbol: row.symbol.clone(), pct, value: row.current_value };
        proof {
            assert(a == allocation_of(rows@[i as int], total_value as int));
        }
        r.push(a);
        i = i + 1;
    }
    proof {
        assert(rows@.take(rows@.len() as int) =~= rows@);
    }
    r
}

/// Allocation order: descending by share.
pub open spec fn alloc_sorted(s: Seq<Allocation>) -> bool {
    forall|i: int, j: int| 0 <= i < j < s.len() ==> (#[trigger] s[i]).pct >= (#[trigger] s[j]).pct
}

/// Sorts allocation lines by share, largest first: the result is ordered
/// and a permutation of the input.
pub fn sort_allocations(items: Vec<Allocation>) -> (out: Vec<Allocation>)
    ensures
        alloc_sorted(out@),
        out@.to_multiset() == items@.to_multiset(),
        out@.len() == items@.len(),
{
    broadcast use vstd::seq_lib::group_to_multiset_ensures;

    let mut input = items;
    let mut out: Vec<Allocation> = Vec::new();
    proof {
        assert(out@.to_multiset().add(input@.to_multiset()) =~= items@.to_multiset());
    }
    while input.len() > 0
        invariant
            alloc_sorted(out@),
            out@.to_multiset().add(input@.to_multiset()) == items@.to_multiset(),
            out@.len() + input@.len() == items@.len(),
        decreases input@.len(),
    {
        let ghost pre_input = input@;
        let ghost pre_out = out@;
        let x = input.remove(0);
        proof {
            pre_input.to_multiset_ensures();
            assert(pre_input.contains(x)) by {
                assert(pre_input[0] == x);
            }
            assert(pre_input.remove(0).to_multiset() =~= pre_input.to_multiset().remove(x));
        }
        let mut k: usize = 0;
        while k < out.len() && out[k].pct >= x.pct
            invariant
                k <= out@.len(),
                forall|a: int| 0 <= a < k ==> (#[trigger] out@[a]).pct >= x.pct,
            decreases out@.len() - k,
        {
            k = k + 1;
        }
        out.insert(k, x);
        proof {
            let new = pre_out.insert(k as int, x);
            assert forall|i: int, j: int|
                0 <= i < j < new.len() implies (#[trigger] new[i]).pct >= (
            #[trigger] new[j]).pct by {
                if j < k {
                    assert(new[i] == pre_out[i] && new[j] == pre_out[j]);
                } else if j == k {
                    assert(new[i] == pre_out[i]);
                } else if i < k {
                    assert(new[i] == pre_out[i] && new[j] == pre_out[j - 1]);
                } else if i == k {
                    assert(new[j] == pre_out[j - 1]);
                } else {
                    assert(new[i] == pre_out[i - 1] && new[j] == pre_out[j - 1]);
                }
            }
            assert(new =~= pre_out.take(k as int).push(x) + pre_out.skip(k as int));
            assert(pre_out =~= pre_out.take(k as int) + pre_out.skip(k as int));
            vstd::seq_lib::lemma_multiset_commutative(
                pre_out.take(k as int).push(x),
                pre_out.skip(k as int),
            );
            vstd::seq_lib::lemma_multiset_commutative(
                pre_out.take(k as int),
                pre_out.skip(k as int),
            );
            pre_out.take(k as int).to_multiset_ensures();
            assert(pre_out.take(k as int).push(x).to_multiset() =~= pre_out.take(
                k as int,
            ).to_multiset().insert(x));
            assert(new.to_multiset() =~= pre_out.to_multiset().insert(x));
            assert(out@.to_multiset().add(input@.to_multiset()) =~= items@.to_multiset());
        }
    }
    proof {
        assert(input@.to_multiset().len() == 0);
        assert(out@.to_multiset().add(input@.to_multiset()) =~= out@.to_multiset());
    }
    out
}

} // verus!
