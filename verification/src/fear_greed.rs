//! The fear/greed index history: response validation and the statistics the
//! chart header shows.

use vstd::prelude::*;
use crate::decimal::{all_digits, digits_val, is_digit, lemma_digits_val_bounds,
    lemma_pow10_le, lemma_pow10_vals, pow10};

verus! {

/// One fear/greed history point, newest first in the fetched sequence.
pub struct FearGreedData {
    pub timestamp: String,
    pub value: u64,
    pub value_classification: String,
}

/// Status of a fear/greed response; the provider encodes the code as text,
/// `"0"` meaning success.
pub struct FearGreedStatus {
    pub error_code_str: String,
    pub error_message: String,
}

pub struct FearGreedResponse {
    pub data: Vec<FearGreedData>,
    pub status: FearGreedStatus,
}

/// Checks a fear/greed response: any status code other than `"0"` is an
/// error carrying the provider's message; on success the history is handed
/// through unchanged.
pub fn validate_fear_greed(resp: FearGreedResponse) -> (r: Result<
    Vec<FearGreedData>,
    String,
>)
    ensures
        resp.status.error_code_str@ == "0"@ <==> r is Ok,
        r is Ok ==> r->Ok_0 == resp.data,
        r is Err ==> r->Err_0 == resp.status.error_message,
{
    let zero = String::from_str("0");
    if !(resp.status.error_code_str == zero) {
        Err(resp.status.error_message)
    } else {
        Ok(resp.data)
    }
}

/// Direction of the index between the two newest points.
#[derive(PartialEq, Eq, Structural, Clone, Copy, Debug)]
pub enum Trend {
    Rising,
    Falling,
    Flat,
}

/// The numbers the chart header shows: newest value, the one before it, the
/// direction between them, and the extremes over the whole history.
pub struct FearGreedSummary {
    pub current: u64,
    pub previous: u64,
    pub trend: Trend,
    pub min: u64,
    pub max: u64,
}

/// Computes the chart-header statistics. An empty history reads as all
/// zeros; a single point counts as its own predecessor, so the trend is
/// flat.
pub fn fear_greed_summary(data: &Vec<FearGreedData>) -> (r: FearGreedSummary)
    ensures
        r.current == if data@.len() > 0 {
            data@[0].value
        } else {
            0u64
        },
        r.previous == if data@.len() > 1 {
            data@[1].value
        } else {
            r.current
        },
        r.trend == (if r.current > r.previous {
            Trend::Rising
        } else if r.current < r.previous {
            Trend::Falling
        } else {
            Trend::Flat
        }),
        data@.len() == 0 ==> r.min == 0 && r.max == 0,
        data@.len() > 0 ==> (forall|i: int|
            0 <= i < data@.len() ==> r.min <= #[trigger] data@[i].value <= r.max),
        data@.len() > 0 ==> (exists|i: int| 0 <= i < data@.len() && r.min == data@[i].value),
        data@.len() > 0 ==> (exists|i: int| 0 <= i < data@.len() && r.max == data@[i].value),
{
    let current: u64 = if data.len() > 0 {
        data[0].value
    } else {
        0
    };
    let previous: u64 = if data.len() > 1 {
        data[1].value
    } else {
        current
    };
    let trend = if current > previous {
        Trend::Rising
    } else if current < previous {
        Trend::Falling
    } else {
        Trend::Flat
    };
    let mut min: u64 = 0;
    let mut max: u64 = 0;
    if data.len() > 0 {
        min = data[0].value;
        max = data[0].value;
        let mut i: usize = 1;
        while i < data.len()
            invariant
                data@.len() > 0,
                1 <= i <= data@.len(),
                forall|j: int| 0 <= j < i ==> min <= #[trigger] data@[j].value <= max,
                exists|j: int| 0 <= j < i && min == data@[j].value,
                exists|j: int| 0 <= j < i && max == data@[j].value,
            decreases data@.len() - i,
        {
            let v = data[i].value;
            if v < min {
                min = v;
            }
            if v > max {
                max = v;
            }
            i = i + 1;
        }
    }
    FearGreedSummary { current, previous, trend, min, max }
}

/// The number an epoch-second string denotes: its digits' value when it is
/// one to eighteen digits long, and zero for anything else, so a malformed
/// timestamp renders as the epoch rather than failing.
pub open spec fn timestamp_of(s: Seq<char>) -> int {
    if 1 <= s.len() <= 18 && all_digits(s) {
        digits_val(s)
    } else {
        0
    }
}

/// Parses an epoch-second timestamp string; anything malformed reads as
/// zero.
pub fn parse_timestamp(s: &str) -> (r: i64)
    ensures
        r as int == timestamp_of(s@),
{
    let cs = crate::text::chars_of(s);
    let n = cs.len();
    if n == 0 || n > 18 {
        return 0;
    }
    proof {
        lemma_pow10_vals();
        assert(pow10(18) == 1_000_000_000_000_000_000) by {
            assert(pow10(10) == 10 * pow10(9));
            assert(pow10(11) == 10 * pow10(10));
            assert(pow10(12) == 10 * pow10(11));
            assert(pow10(13) == 10 * pow10(12));
            assert(pow10(14) == 10 * pow10(13));
            assert(pow10(15) == 10 * pow10(14));
            assert(pow10(16) == 10 * pow10(15));
            assert(pow10(17) == 10 * pow10(16));
            assert(pow10(18) == 10 * pow10(17));
        }
    }
    let mut v: i64 = 0;
    let mut i: usize = 0;
    while i < n
        invariant
            n == s@.len(),
            cs@ == s@,
            1 <= n <= 18,
            i <= n,
            all_digits(s@.take(i as int)),
            v as int == digits_val(s@.take(i as int)),
            0 <= v < pow10(i as nat),
            pow10(18) == 1_000_000_000_000_000_000,
        decreases n - i,
    {
        let c = cs[i];
        if !(c >= '0' && c <= '9') {
            proof {
                assert(!is_digit(s@[i as int]));
            }
            return 0;
        }
        proof {
            assert(s@.take(i as int + 1).drop_last() =~= s@.take(i as int));
            assert(s@.take(i as int + 1).last() == s@[i as int]);
            lemma_digits_val_bounds(s@.take(i as int + 1));
            lemma_pow10_le((i + 1) as nat, 18);
        }
        v = v * 10 + (c as i64 - '0' as i64);
        i = i + 1;
    }
    proof {
        assert(s@.take(n as int) =~= s@);
    }
    v
}

/// Whether the chart labels the history point at this index: the newest,
/// the oldest, and every seventh point in between.
pub fn chart_label_at(i: usize, total: usize) -> (r: bool)
    ensures
        r == (i == 0 || i + 1 == total || i % 7 == 0),
{
    i == 0 || (total > 0 && i == total - 1) || i % 7 == 0
}

} // verus!
