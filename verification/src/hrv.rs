//! Time-domain heart-rate-variability statistics over an R-R interval
//! sequence: SDNN (standard deviation of the intervals) and RMSSD (root
//! mean square of successive differences).
//!
//! Results are exact integer aggregates plus fixed-point square roots
//! scaled by 1000, so that SDNN and RMSSD carry millisecond values with
//! three decimal places.

use vstd::prelude::*;

verus! {

/// Errors from requesting HRV over too few intervals.
#[derive(Clone, Copy, Debug, PartialEq, Eq, Structural)]
pub enum HrvError {
    /// The interval sequence is empty: no statistic is defined.
    EmptySequence,
    /// Fewer than two intervals: RMSSD has no successive difference.
    InsufficientSamplesForRMSSD,
}

/// Sum of the intervals.
pub open spec fn sum_of(s: Seq<u16>) -> int
    decreases s.len(),
{
    if s.len() == 0 {
        0
    } else {
        sum_of(s.drop_last()) + s.last()
    }
}

/// Sum of the squared intervals.
pub open spec fn sum_sq(s: Seq<u16>) -> int
    decreases s.len(),
{
    if s.len() == 0 {
        0
    } else {
        sum_sq(s.drop_last()) + s.last() * s.last()
    }
}

/// Numerator of the variance over a common denominator of len^2:
/// len * sum of squares - square of the sum. The variance of s is
/// var_num(s) / len^2, and SDNN is its square root.
pub open spec fn var_num(s: Seq<u16>) -> int {
    s.len() * sum_sq(s) - sum_of(s) * sum_of(s)
}

/// Sum of the squared successive differences.
pub open spec fn diff_sq_sum(s: Seq<u16>) -> int
    decreases s.len(),
{
    if s.len() < 2 {
        0
    } else {
        diff_sq_sum(s.drop_last()) + (s[s.len() - 1] - s[s.len() - 2]) * (s[s.len() - 1]
            - s[s.len() - 2])
    }
}

/// r is the integer square root (floor) of v.
pub open spec fn is_sqrt_floor(v: int, r: int) -> bool {
    r * r <= v < (r + 1) * (r + 1)
}

/// The variance numerator is never negative: the square of the sum never
/// exceeds the length times the sum of squares.
pub proof fn lemma_var_num_nonneg(s: Seq<u16>)
    ensures
        var_num(s) >= 0,
    decreases s.len(),
{
    if s.len() == 0 {
    } else {
        let t = s.drop_last();
        lemma_var_num_nonneg(t);
        let m = t.len() as int;
        let x = s.last() as int;
        let st = sum_of(t);
        let qt = sum_sq(t);
        assert(sum_of(s) == st + x);
        assert(sum_sq(s) == qt + x * x);
        if m == 0 {
            assert(st == 0 && qt == 0);
            assert(var_num(s) == 1 * (qt + x * x) - (st + x) * (st + x) >= 0)
                by (nonlinear_arith)
                requires
                    st == 0,
                    qt == 0,
                    var_num(s) == 1 * (qt + x * x) - (st + x) * (st + x),
            ;
        } else {
            assert(m * (qt + m * x * x - 2 * st * x) >= (st - m * x) * (st - m * x))
                by (nonlinear_arith)
                requires
                    m * qt - st * st >= 0,
            ;
            assert((st - m * x) * (st - m * x) >= 0) by (nonlinear_arith);
            assert(qt + m * x * x - 2 * st * x >= 0) by (nonlinear_arith)
                requires
                    m >= 1,
                    m * (qt + m * x * x - 2 * st * x) >= 0,
            ;
            assert((m + 1) * (qt + x * x) - (st + x) * (st + x) == (m * qt - st * st) + (qt + m * x
                * x - 2 * st * x)) by (nonlinear_arith);
            assert(var_num(s) >= 0);
        }
    }
}

/// The floor square root of a value is unique.
pub proof fn lemma_sqrt_floor_unique(v: int, r1: int, r2: int)
    requires
        r1 >= 0,
        r2 >= 0,
        is_sqrt_floor(v, r1),
        is_sqrt_floor(v, r2),
    ensures
        r1 == r2,
{
    if r1 < r2 {
        assert((r1 + 1) * (r1 + 1) <= r2 * r2) by (nonlinear_arith)
            requires
                0 <= r1 < r2,
        ;
    }
    if r2 < r1 {
        assert((r2 + 1) * (r2 + 1) <= r1 * r1) by (nonlinear_arith)
            requires
                0 <= r2 < r1,
        ;
    }
}

proof fn lemma_sum_take_step(s: Seq<u16>, i: int)
    requires
        0 <= i < s.len(),
    ensures
        sum_of(s.take(i + 1)) == sum_of(s.take(i)) + s[i],
        sum_sq(s.take(i + 1)) == sum_sq(s.take(i)) + s[i] * s[i],
{
    let t = s.take(i + 1);
    assert(t.drop_last() =~= s.take(i));
    assert(t.last() == s[i]);
}

proof fn lemma_dss_take_step(s: Seq<u16>, i: int)
    requires
        1 <= i < s.len(),
    ensures
        diff_sq_sum(s.take(i + 1)) == diff_sq_sum(s.take(i)) + (s[i] - s[i - 1]) * (s[i] - s[i
            - 1]),
{
    let t = s.take(i + 1);
    assert(t.drop_last() =~= s.take(i));
    assert(t[t.len() - 1] == s[i]);
    assert(t[t.len() - 2] == s[i - 1]);
}

/// Integer square root (floor) of a 128-bit value, by binary search.
pub fn isqrt(v: u128) -> (r: u64)
    ensures
        is_sqrt_floor(v as int, r as int),
{
    let mut lo: u128 = 0;
    let mut hi: u128 = 18446744073709551616;
    proof {
        assert(18446744073709551616int * 18446744073709551616 > u128::MAX) by (nonlinear_arith);
    }
    while lo + 1 < hi
        invariant
            0 <= lo < hi <= 18446744073709551616,
            lo * lo <= v,
            v < hi * hi,
        decreases hi - lo,
    {
        let mid: u128 = lo + (hi - lo) / 2;
        proof {
            assert(lo < mid < hi);
            assert(mid * mid < 18446744073709551616int * 18446744073709551616)
                by (nonlinear_arith)
                requires
                    0 <= mid < 18446744073709551616int,
            ;
        }
        if mid * mid <= v {
            lo = mid;
        } else {
            hi = mid;
        }
    }
    proof {
        assert(hi == lo + 1);
        assert(lo < 18446744073709551616int ==> lo <= u64::MAX as int);
    }
    lo as u64
}

/// HRV statistics over an R-R sequence: exact integer aggregates, and
/// SDNN / RMSSD as integer square roots of the variance scaled by 10^6,
/// i.e. millisecond values times 1000.
#[derive(Clone, Copy, Debug, PartialEq, Eq, Structural)]
pub struct HrvResult {
    /// Number of intervals.
    pub count: usize,
    /// Sum of the intervals (ms).
    pub sum: u64,
    /// count * (sum of squared intervals) - sum^2; the variance is this
    /// over count^2.
    pub var_num: u128,
    /// Sum of squared successive differences.
    pub diff_sq_sum: u64,
    /// floor(sqrt(10^6 * variance)): SDNN in ms, times 1000.
    pub sdnn_milli: u64,
    /// floor(sqrt(10^6 * diff_sq_sum / (count - 1))): RMSSD in ms, times
    /// 1000.
    pub rmssd_milli: u64,
}

/// What a correct HRV result over the sequence s holds: every field is
/// pinned by s alone.
pub open spec fn hrv_result_ok(s: Seq<u16>, h: HrvResult) -> bool {
    &&& h.count == s.len()
    &&& h.sum == sum_of(s)
    &&& h.var_num == var_num(s)
    &&& h.diff_sq_sum == diff_sq_sum(s)
    &&& is_sqrt_floor(1000000 * var_num(s) / ((s.len() * s.len()) as int), h.sdnn_milli as int)
    &&& is_sqrt_floor(1000000 * diff_sq_sum(s) / (s.len() - 1), h.rmssd_milli as int)
}

/// Compute SDNN and RMSSD over an R-R interval sequence.
///
/// Fails with EmptySequence on no intervals and with
/// InsufficientSamplesForRMSSD on a single interval (RMSSD needs at least
/// one successive difference); otherwise every field of the result is an
/// exact function of the sequence.
pub fn calculate_hrv(rr: &Vec<u16>) -> (r: Result<HrvResult, HrvError>)
    requires
        rr@.len() <= u32::MAX,
    ensures
        rr@.len() == 0 ==> r == Result::<HrvResult, HrvError>::Err(HrvError::EmptySequence),
        rr@.len() == 1 ==> r == Result::<HrvResult, HrvError>::Err(
            HrvError::InsufficientSamplesForRMSSD,
        ),
        rr@.len() >= 2 ==> (r matches Ok(h) && hrv_result_ok(rr@, h)),
{
    let n = rr.len();
    if n == 0 {
        return Err(HrvError::EmptySequence);
    }
    if n == 1 {
        return Err(HrvError::InsufficientSamplesForRMSSD);
    }
    let mut sum: u64 = 0;
    let mut sumsq: u64 = 0;
    let mut i: usize = 0;
    while i < n
        invariant
            n == rr@.len(),
            2 <= n <= u32::MAX,
            i <= n,
            sum == sum_of(rr@.take(i as int)),
            sumsq == sum_sq(rr@.take(i as int)),
            sum <= i * 65535,
            sumsq <= i * 4294836225,
        decreases n - i,
    {
        let x = rr[i];
        proof {
            lemma_sum_take_step(rr@, i as int);
            assert((x as int) * (x as int) <= 4294836225) by (nonlinear_arith)
                requires
                    0 <= x <= 65535,
            ;
        }
        sum = sum + x as u64;
        sumsq = sumsq + (x as u64) * (x as u64);
        i += 1;
    }
    proof {
        assert(rr@.take(n as int) =~= rr@);
        lemma_var_num_nonneg(rr@);
        assert(sum as int == sum_of(rr@) && sumsq as int == sum_sq(rr@) && n as int
            == rr@.len());
        assert((sum as int) * (sum as int) <= (n as int) * (sumsq as int));
        assert((n as int) * (sumsq as int) <= (n as int) * ((n as int) * 4294836225))
            by (nonlinear_arith)
            requires
                0 <= n as int,
                0 <= sumsq as int <= (n as int) * 4294836225,
        ;
        assert((n as int) * ((n as int) * 4294836225) <= 0x1_0000_0000int * (0x1_0000_0000int
            * 4294836225)) by (nonlinear_arith)
            requires
                0 <= n as int <= 0x1_0000_0000,
        ;
    }
    let vnum: u128 = (n as u128) * (sumsq as u128) - (sum as u128) * (sum as u128);
    proof {
        assert(vnum as int == var_num(rr@));
        assert(1000000 * (vnum as int) <= u128::MAX);
        assert((n as int) * (n as int) >= 4) by (nonlinear_arith)
            requires
                n as int >= 2,
        ;
        assert((n as int) * (n as int) <= 0x1_0000_0000int * 0x1_0000_0000) by (nonlinear_arith)
            requires
                0 <= n as int <= 0x1_0000_0000,
        ;
    }
    let scaled_var: u128 = 1000000 * vnum / ((n as u128) * (n as u128));
    let sdnn_milli = isqrt(scaled_var);
    let mut diffsq: u64 = 0;
    let mut j: usize = 1;
    while j < n
        invariant
            n == rr@.len(),
            2 <= n <= u32::MAX,
            1 <= j <= n,
            diffsq == diff_sq_sum(rr@.take(j as int)),
            diffsq <= (j - 1) * 4294836225,
        decreases n - j,
    {
        let a = rr[j - 1];
        let b = rr[j];
        let d: i64 = b as i64 - a as i64;
        proof {
            lemma_dss_take_step(rr@, j as int);
            assert(0 <= (d as int) * (d as int) <= 4294836225) by (nonlinear_arith)
                requires
                    -65535 <= d as int <= 65535,
            ;
        }
        diffsq = diffsq + (d * d) as u64;
        j += 1;
    }
    proof {
        assert(rr@.take(n as int) =~= rr@);
    }
    let scaled_diff: u128 = 1000000 * (diffsq as u128) / ((n - 1) as u128);
    let rmssd_milli = isqrt(scaled_diff);
    Ok(
        HrvResult {
            count: n,
            sum,
            var_num: vnum,
            diff_sq_sum: diffsq,
            sdnn_milli,
            rmssd_milli,
        },
    )
}

/// HRV computation is a pure function of the R-R sequence: any two
/// results that satisfy the contract over the same sequence are equal, so
/// computing twice over the same intervals yields identical results.
pub proof fn lemma_hrv_deterministic(s: Seq<u16>, h1: HrvResult, h2: HrvResult)
    requires
        hrv_result_ok(s, h1),
        hrv_result_ok(s, h2),
    ensures
        h1 == h2,
{
    lemma_sqrt_floor_unique(
        1000000 * var_num(s) / ((s.len() * s.len()) as int),
        h1.sdnn_milli as int,
        h2.sdnn_milli as int,
    );
    lemma_sqrt_floor_unique(
        1000000 * diff_sq_sum(s) / (s.len() - 1),
        h1.rmssd_milli as int,
        h2.rmssd_milli as int,
    );
}

} // verus!
