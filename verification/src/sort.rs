//! Sorting of table rows: one comparator per column, absent values equal to
//! each other and below present ones, a shared ascending flag that reverses
//! the comparator, and an insertion sort proved to permute its input into
//! comparator order.

use vstd::prelude::*;
use crate::rows::Row;
use crate::state::SortColumn;
use crate::text::{chars_le, chars_of, lemma_str_le_antisym, lemma_str_le_total,
    lemma_str_le_trans, str_le};

verus! {

/// Order on an optional field: absent values are equal to each other and
/// rank below every present value.
pub open spec fn opt_le(a: Option<i64>, b: Option<i64>) -> bool {
    match a {
        None => true,
        Some(x) => match b {
            None => false,
            Some(y) => x <= y,
        },
    }
}

fn opt_le_exec(a: Option<i64>, b: Option<i64>) -> (r: bool)
    ensures
        r == opt_le(a, b),
{
    match a {
        None => true,
        Some(x) => match b {
            None => false,
            Some(y) => x <= y,
        },
    }
}

/// The column's comparison, ascending: symbols lexically, every other
/// column by its (possibly absent) numeric field.
pub open spec fn key_le(col: SortColumn, a: Row, b: Row) -> bool {
    match col {
        SortColumn::Symbol => str_le(a.symbol@, b.symbol@),
        SortColumn::Price => a.price <= b.price,
        SortColumn::Change1h => opt_le(a.change_1h, b.change_1h),
        SortColumn::Change24h => opt_le(a.change_24h, b.change_24h),
        SortColumn::Change7d => opt_le(a.change_7d, b.change_7d),
        SortColumn::Change30d => opt_le(a.change_30d, b.change_30d),
        SortColumn::Change90d => opt_le(a.change_90d, b.change_90d),
        SortColumn::Volume24h => opt_le(a.volume_24h, b.volume_24h),
        SortColumn::VolumeChange => opt_le(a.volume_change_24h, b.volume_change_24h),
        SortColumn::MarketCap => opt_le(a.market_cap, b.market_cap),
        SortColumn::Holdings => a.holdings <= b.holdings,
        SortColumn::AvgBuy => a.avg_buy <= b.avg_buy,
        SortColumn::CurrentValue => a.current_value <= b.current_value,
        SortColumn::CostBasis => a.cost_basis <= b.cost_basis,
        SortColumn::ProfitLoss => a.profit_loss <= b.profit_loss,
        SortColumn::ProfitLossPercent => a.profit_loss_pct <= b.profit_loss_pct,
    }
}

/// The comparison a table sorts by: the shared ascending flag reverses the
/// column's comparison uniformly.
pub open spec fn row_le(col: SortColumn, asc: bool, a: Row, b: Row) -> bool {
    if asc {
        key_le(col, a, b)
    } else {
        key_le(col, b, a)
    }
}

/// Two rows whose keys compare equal in both directions.
pub open spec fn key_eq(col: SortColumn, a: Row, b: Row) -> bool {
    key_le(col, a, b) && key_le(col, b, a)
}

fn key_le_exec(col: SortColumn, a: &Row, b: &Row) -> (r: bool)
    ensures
        r == key_le(col, *a, *b),
{
    match col {
        SortColumn::Symbol => {
            let ca = chars_of(a.symbol.as_str());
            let cb = chars_of(b.symbol.as_str());
            chars_le(&ca, &cb)
        },
        SortColumn::Price => a.price <= b.price,
        SortColumn::Change1h => opt_le_exec(a.change_1h, b.change_1h),
        SortColumn::Change24h => opt_le_exec(a.change_24h, b.change_24h),
        SortColumn::Change7d => opt_le_exec(a.change_7d, b.change_7d),
        SortColumn::Change30d => opt_le_exec(a.change_30d, b.change_30d),
        SortColumn::Change90d => opt_le_exec(a.change_90d, b.change_90d),
        SortColumn::Volume24h => opt_le_exec(a.volume_24h, b.volume_24h),
        SortColumn::VolumeChange => opt_le_exec(a.volume_change_24h, b.volume_change_24h),
        SortColumn::MarketCap => opt_le_exec(a.market_cap, b.market_cap),
        SortColumn::Holdings => a.holdings <= b.holdings,
        SortColumn::AvgBuy => a.avg_buy <= b.avg_buy,
        SortColumn::CurrentValue => a.current_value <= b.current_value,
        SortColumn::CostBasis => a.cost_basis <= b.cost_basis,
        SortColumn::ProfitLoss => a.profit_loss <= b.profit_loss,
        SortColumn::ProfitLossPercent => a.profit_loss_pct <= b.profit_loss_pct,
    }
}

fn row_le_exec(col: SortColumn, asc: bool, a: &Row, b: &Row) -> (r: bool)
    ensures
        r == row_le(col, asc, *a, *b),
{
    if asc {
        key_le_exec(col, a, b)
    } else {
        key_le_exec(col, b, a)
    }
}

/// Every column's comparison is total: one direction always holds.
pub proof fn lemma_key_le_total(col: SortColumn, a: Row, b: Row)
    ensures
        key_le(col, a, b) || key_le(col, b, a),
{
    if col is Symbol {
        lemma_str_le_total(a.symbol@, b.symbol@);
    }
}

/// Every column's comparison is transitive.
pub proof fn lemma_key_le_trans(col: SortColumn, a: Row, b: Row, c: Row)
    requires
        key_le(col, a, b),
        key_le(col, b, c),
    ensures
        key_le(col, a, c),
{
    if col is Symbol {
        lemma_str_le_trans(a.symbol@, b.symbol@, c.symbol@);
    }
}

/// Every column's comparison is antisymmetric up to its key: rows that
/// compare equal in both directions carry the same value in the column.
pub proof fn lemma_key_le_antisym(col: SortColumn, a: Row, b: Row)
    requires
        key_eq(col, a, b),
    ensures
        match col {
            SortColumn::Symbol => a.symbol@ == b.symbol@,
            SortColumn::Price => a.price == b.price,
            SortColumn::Change1h => a.change_1h == b.change_1h,
            SortColumn::Change24h => a.change_24h == b.change_24h,
            SortColumn::Change7d => a.change_7d == b.change_7d,
            SortColumn::Change30d => a.change_30d == b.change_30d,
            SortColumn::Change90d => a.change_90d == b.change_90d,
            SortColumn::Volume24h => a.volume_24h == b.volume_24h,
            SortColumn::VolumeChange => a.volume_change_24h == b.volume_change_24h,
            SortColumn::MarketCap => a.market_cap == b.market_cap,
            SortColumn::Holdings => a.holdings == b.holdings,
            SortColumn::AvgBuy => a.avg_buy == b.avg_buy,
            SortColumn::CurrentValue => a.current_value == b.current_value,
            SortColumn::CostBasis => a.cost_basis == b.cost_basis,
            SortColumn::ProfitLoss => a.profit_loss == b.profit_loss,
            SortColumn::ProfitLossPercent => a.profit_loss_pct == b.profit_loss_pct,
        },
{
    if col is Symbol {
        lemma_str_le_antisym(a.symbol@, b.symbol@);
    }
}

/// Rows both missing the column's field compare equal, whichever the
/// direction: the sentinel never orders two absent values.
pub proof fn lemma_missing_fields_equal(col: SortColumn, asc: bool, a: Row, b: Row)
    requires
        match col {
            SortColumn::Change1h => a.change_1h is None && b.change_1h is None,
            SortColumn::Change24h => a.change_24h is None && b.change_24h is None,
            SortColumn::Change7d => a.change_7d is None && b.change_7d is None,
            SortColumn::Change30d => a.change_30d is None && b.change_30d is None,
            SortColumn::Change90d => a.change_90d is None && b.change_90d is None,
            SortColumn::Volume24h => a.volume_24h is None && b.volume_24h is None,
            SortColumn::VolumeChange => a.volume_change_24h is None && b.volume_change_24h
                is None,
            SortColumn::MarketCap => a.market_cap is None && b.market_cap is None,
            _ => false,
        },
    ensures
        key_eq(col, a, b),
        row_le(col, asc, a, b) && row_le(col, asc, b, a),
{
}

/// The sorted-order predicate the tables guarantee.
pub open spec fn sorted_rows(s: Seq<Row>, col: SortColumn, asc: bool) -> bool {
    forall|i: int, j: int| 0 <= i < j < s.len() ==> row_le(col, asc, #[trigger] s[i], #[trigger] s[j])
}

/// A sequence is in ascending order exactly when its reverse is in
/// descending order: the direction toggle reverses the displayed order.
pub proof fn lemma_sorted_reverse(s: Seq<Row>, col: SortColumn)
    ensures
        sorted_rows(s, col, true) <==> sorted_rows(s.reverse(), col, false),
{
    if sorted_rows(s, col, true) {
        assert forall|i: int, j: int|
            0 <= i < j < s.reverse().len() implies row_le(
            col,
            false,
            s.reverse()[i],
            s.reverse()[j],
        ) by {
            assert(s.reverse()[i] == s[s.len() - 1 - i]);
            assert(s.reverse()[j] == s[s.len() - 1 - j]);
        }
    }
    if sorted_rows(s.reverse(), col, false) {
        assert forall|i: int, j: int|
            0 <= i < j < s.len() implies row_le(col, true, s[i], s[j]) by {
            assert(s[i] == s.reverse()[s.len() - 1 - i]);
            assert(s[j] == s.reverse()[s.len() - 1 - j]);
        }
    }
}

/// Sorts rows by the column's comparison, reversed when the shared flag is
/// descending: the result is ordered and a permutation of the input.
pub fn sort_rows(rows: Vec<Row>, col: SortColumn, asc: bool) -> (out: Vec<Row>)
    ensures
        sorted_rows(out@, col, asc),
        out@.to_multiset() == rows@.to_multiset(),
        out@.len() == rows@.len(),
{
    broadcast use vstd::seq_lib::group_to_multiset_ensures;

    let mut input = rows;
    let mut out: Vec<Row> = Vec::new();
    proof {
        assert(out@.to_multiset().add(input@.to_multiset()) =~= rows@.to_multiset());
    }
    while input.len() > 0
        invariant
            sorted_rows(out@, col, asc),
            out@.to_multiset().add(input@.to_multiset()) == rows@.to_multiset(),
            out@.len() + input@.len() == rows@.len(),
        decreases input@.len(),
    {
        let ghost pre_input = input@;
        let ghost pre_out = out@;
        let x = input.remove(0);
        proof {
            pre_input.to_multiset_ensures();
            assert(pre_input.contains(x)) by {
                assert(pre_input[0] == x);
            }
            assert(pre_input.remove(0).to_multiset() =~= pre_input.to_multiset().remove(x));
            assert(pre_input.to_multiset().count(x) > 0);
        }
        let mut k: usize = 0;
        while k < out.len() && row_le_exec(col, asc, &out[k], &x)
            invariant
                k <= out@.len(),
                forall|a: int| 0 <= a < k ==> row_le(col, asc, #[trigger] out@[a], x),
            decreases out@.len() - k,
        {
            k = k + 1;
        }
        proof {
            if k < out@.len() {
                lemma_key_le_total(col, out@[k as int], x);
            }
        }
        out.insert(k, x);
        proof {
            let new = pre_out.insert(k as int, x);
            // order: every pair of the new sequence is ordered
            assert forall|i: int, j: int|
                0 <= i < j < new.len() implies row_le(col, asc, new[i], new[j]) by {
                if j < k {
                    assert(new[i] == pre_out[i] && new[j] == pre_out[j]);
                } else if j == k {
                    assert(new[i] == pre_out[i]);
                } else if i < k {
                    assert(new[i] == pre_out[i] && new[j] == pre_out[j - 1]);
                } else if i == k {
                    assert(new[j] == pre_out[j - 1]);
                    if k < pre_out.len() {
                        if j - 1 > k {
                            if asc {
                                lemma_key_le_trans(col, x, pre_out[k as int], pre_out[j - 1]);
                            } else {
                                lemma_key_le_trans(col, pre_out[j - 1], pre_out[k as int], x);
                            }
                        }
                    }
                } else {
                    assert(new[i] == pre_out[i - 1] && new[j] == pre_out[j - 1]);
                }
            }
            // permutation: the inserted sequence has the old multiset plus x
            assert(new =~= pre_out.take(k as int).push(x) + pre_out.skip(k as int));
            assert(pre_out =~= pre_out.take(k as int) + pre_out.skip(k as int));
            vstd::seq_lib::lemma_multiset_commutative(
                pre_out.take(k as int).push(x),
                pre_out.skip(k as int),
            );
            vstd::seq_lib::lemma_multiset_commutative(
                pre_out.take(k as int),
                pre_out.skip(k as int),
            );
            pre_out.take(k as int).to_multiset_ensures();
            assert(pre_out.take(k as int).push(x).to_multiset() =~= pre_out.take(
                k as int,
            ).to_multiset().insert(x));
            assert(new.to_multiset() =~= pre_out.to_multiset().insert(x));
            assert(out@.to_multiset().add(input@.to_multiset()) =~= rows@.to_multiset());
        }
    }
    proof {
        assert(input@.to_multiset().len() == 0);
        assert(out@.to_multiset().add(input@.to_multiset()) =~= out@.to_multiset());
    }
    out
}


/// All-distinct sort keys: no two rows compare equal in the column.
pub open spec fn distinct_keys(s: Seq<Row>, col: SortColumn) -> bool {
    forall|i: int, j: int| 0 <= i < j < s.len() ==> !key_eq(col, #[trigger] s[i], #[trigger] s[j])
}

/// With all-distinct keys there is exactly one sorted arrangement: two
/// sorted sequences over the same rows are equal.
pub proof fn lemma_sorted_unique(s1: Seq<Row>, s2: Seq<Row>, col: SortColumn, asc: bool)
    requires
        sorted_rows(s1, col, asc),
        sorted_rows(s2, col, asc),
        s1.to_multiset() == s2.to_multiset(),
        distinct_keys(s1, col),
    ensures
        s1 == s2,
    decreases s1.len(),
{
    s1.to_multiset_ensures();
    s2.to_multiset_ensures();
    assert(s1.len() == s2.len());
    if s1.len() == 0 {
        assert(s1 =~= s2);
    } else {
        // the heads are mutually comparable minima of the same multiset
        assert(s2.contains(s2[0]));
        assert(s1.to_multiset().count(s2[0]) > 0);
        assert(s1.contains(s2[0]));
        let k = choose|k: int| 0 <= k < s1.len() && s1[k] == s2[0];
        assert(s1.contains(s1[0]));
        assert(s2.to_multiset().count(s1[0]) > 0);
        assert(s2.contains(s1[0]));
        let m = choose|m: int| 0 <= m < s2.len() && s2[m] == s1[0];
        if k > 0 {
            assert(row_le(col, asc, s1[0], s1[k]));
        }
        if m > 0 {
            assert(row_le(col, asc, s2[0], s2[m]));
        }
        // both directions hold, so the keys are equal; distinctness makes
        // the heads the same row
        if s1[0] != s2[0] {
            assert(k > 0);
            assert(key_eq(col, s1[0], s1[k]));
            assert(false);
        }
        // the tails are sorted permutations with distinct keys
        let t1 = s1.drop_first();
        let t2 = s2.drop_first();
        assert(s1.remove(0) =~= t1);
        assert(s2.remove(0) =~= t2);
        assert(t1.to_multiset() =~= s1.to_multiset().remove(s1[0]));
        assert(t2.to_multiset() =~= s2.to_multiset().remove(s2[0]));
        assert(sorted_rows(t1, col, asc)) by {
            assert(forall|i: int, j: int|
                0 <= i < j < t1.len() ==> #[trigger] t1[i] == s1[i + 1] && #[trigger] t1[j]
                    == s1[j + 1]);
        }
        assert(sorted_rows(t2, col, asc)) by {
            assert(forall|i: int, j: int|
                0 <= i < j < t2.len() ==> #[trigger] t2[i] == s2[i + 1] && #[trigger] t2[j]
                    == s2[j + 1]);
        }
        assert(distinct_keys(t1, col)) by {
            assert(forall|i: int, j: int|
                0 <= i < j < t1.len() ==> #[trigger] t1[i] == s1[i + 1] && #[trigger] t1[j]
                    == s1[j + 1]);
        }
        lemma_sorted_unique(t1, t2, col, asc);
        assert forall|i: int| 0 <= i < s1.len() implies s1[i] == s2[i] by {
            if i > 0 {
                assert(t1[i - 1] == s1[i]);
                assert(t2[i - 1] == s2[i]);
            }
        }
        assert(s1 =~= s2);
    }
}

/// Toggling the shared direction flag reverses the displayed order
/// exactly, for rows whose sort keys are pairwise distinct: the descending
/// arrangement is the ascending one read backward.
pub proof fn lemma_direction_reversal(s_a: Seq<Row>, s_d: Seq<Row>, col: SortColumn)
    requires
        sorted_rows(s_a, col, true),
        sorted_rows(s_d, col, false),
        s_a.to_multiset() == s_d.to_multiset(),
        distinct_keys(s_a, col),
    ensures
        s_d == s_a.reverse(),
{
    lemma_sorted_reverse(s_a, col);
    s_a.lemma_reverse_to_multiset();
    assert(distinct_keys(s_a.reverse(), col)) by {
        assert(forall|i: int|
            0 <= i < s_a.len() ==> #[trigger] s_a.reverse()[i] == s_a[s_a.len() - 1 - i]);
    }
    lemma_sorted_unique(s_a.reverse(), s_d, col, false);
}

} // verus!
