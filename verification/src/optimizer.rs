//! The window optimizer: given a time-ordered series of hourly price points
//! and a requested duration, pick the contiguous run of hours with the lowest
//! mean price. Candidate windows never cross a UTC calendar-day boundary; a
//! window cut short by the end of its day still competes with the hours it
//! has. Ties go to the earliest start.

use vstd::prelude::*;

use crate::domain::{NotFoundError, PricePoint, PriceWindow, AMOUNT_MICROS_LIMIT};
use crate::moment::{day_of, day_of_moment, ZonedMoment, HOUR_END_OFFSET};

verus! {

/// The series handed to the optimizer is ordered by moment, oldest first.
pub open spec fn sorted_by_moment(s: Seq<PricePoint>) -> bool {
    forall|i: int, j: int| 0 <= i < j < s.len() ==> s[i].moment <= s[j].moment
}

/// Every point of the series is well formed.
pub open spec fn all_wf(s: Seq<PricePoint>) -> bool {
    forall|i: int| 0 <= i < s.len() ==> s[i].wf()
}

/// How many points the frame starting at `i` takes: at most `d` consecutive
/// points, stopping at the end of the series or at the first point that
/// leaves calendar day `day`.
pub open spec fn frame_count(s: Seq<PricePoint>, day: int, i: int, d: int) -> int
    decreases d,
{
    if d <= 0 || i < 0 || i >= s.len() || day_of(s[i].moment as int) != day {
        0
    } else {
        1 + frame_count(s, day, i + 1, d - 1)
    }
}

/// The summed price of the frame starting at `i`, in micro-units.
pub open spec fn frame_sum(s: Seq<PricePoint>, day: int, i: int, d: int) -> int
    decreases d,
{
    if d <= 0 || i < 0 || i >= s.len() || day_of(s[i].moment as int) != day {
        0
    } else {
        s[i].amount_micros + frame_sum(s, day, i + 1, d - 1)
    }
}

/// Size of the candidate window anchored at point `i` for duration `d`.
pub open spec fn cand_count(s: Seq<PricePoint>, i: int, d: int) -> int {
    frame_count(s, day_of(s[i].moment as int), i, d)
}

/// Summed price of the candidate window anchored at point `i`.
pub open spec fn cand_sum(s: Seq<PricePoint>, i: int, d: int) -> int {
    frame_sum(s, day_of(s[i].moment as int), i, d)
}

/// Candidate `a`'s mean price is at most candidate `b`'s, compared exactly
/// as rationals with positive denominators.
pub open spec fn mean_le(s: Seq<PricePoint>, d: int, a: int, b: int) -> bool {
    cand_sum(s, a, d) * cand_count(s, b, d) <= cand_sum(s, b, d) * cand_count(s, a, d)
}

/// Candidate `a`'s mean price is strictly below candidate `b`'s.
pub open spec fn mean_lt(s: Seq<PricePoint>, d: int, a: int, b: int) -> bool {
    cand_sum(s, a, d) * cand_count(s, b, d) < cand_sum(s, b, d) * cand_count(s, a, d)
}

/// The first index among `[0, n)` whose candidate attains the minimum mean:
/// a later candidate replaces the running best only when strictly cheaper.
pub open spec fn best_upto(s: Seq<PricePoint>, d: int, n: int) -> int
    decreases n,
{
    if n <= 1 {
        0
    } else {
        let b = best_upto(s, d, n - 1);
        if mean_lt(s, d, n - 1, b) {
            n - 1
        } else {
            b
        }
    }
}

/// A duration in whole hours, counted inclusively, clamped so that the
/// lookahead beyond the anchor point stays within `[0, 23]` hours.
pub open spec fn spec_normalize_duration(d: int) -> int {
    let following = if d - 1 < 0 {
        0
    } else if d - 1 > 23 {
        23
    } else {
        d - 1
    };
    following + 1
}

/// Clamp a requested duration to `[1, 24]` hours.
pub fn normalize_duration(d: i32) -> (n: usize)
    ensures
        n == spec_normalize_duration(d as int),
        1 <= n <= 24,
{
    if d <= 1 {
        1
    } else if d >= 24 {
        24
    } else {
        d as usize
    }
}

/// The mean of a window summing to `sum` micro-units over `cnt` hours,
/// rounded to milli-units, halves away from zero.
pub open spec fn round_milli(sum: int, cnt: int) -> int
    recommends
        cnt >= 1,
{
    let den = cnt * 1000;
    if sum >= 0 {
        (2 * sum + den) / (2 * den)
    } else {
        -((2 * (-sum) + den) / (2 * den))
    }
}

/// The window the optimizer reports for a non-empty series and duration `d`:
/// the first candidate with minimal mean, its last included hour, and its
/// rounded average.
pub open spec fn optimal_window(s: Seq<PricePoint>, d: int) -> PriceWindow
    recommends
        s.len() >= 1,
        1 <= d,
{
    let b = best_upto(s, d, s.len() as int);
    let c = cand_count(s, b, d);
    PriceWindow {
        starts_at: ZonedMoment { epoch_secs: s[b].moment, offset_secs: 0 },
        ends_at: ZonedMoment {
            epoch_secs: (s[b + c - 1].moment + HOUR_END_OFFSET) as i64,
            offset_secs: 0,
        },
        average_milli: round_milli(cand_sum(s, b, d), c) as i64,
    }
}

/// A frame holds between 1 and `d` points (1 because its anchor always
/// belongs to its own day), and never runs past the series.
pub proof fn lemma_frame_count_bounds(s: Seq<PricePoint>, day: int, i: int, d: int)
    requires
        0 <= i <= s.len(),
    ensures
        0 <= frame_count(s, day, i, d) <= d || frame_count(s, day, i, d) == 0,
        i + frame_count(s, day, i, d) <= s.len(),
        d >= 1 && i < s.len() && day_of(s[i].moment as int) == day ==> frame_count(
            s,
            day,
            i,
            d,
        ) >= 1,
    decreases d,
{
    if d <= 0 || i >= s.len() || day_of(s[i].moment as int) != day {
    } else {
        lemma_frame_count_bounds(s, day, i + 1, d - 1);
    }
}

/// Every point a frame takes lies on the frame's day, and a frame shorter
/// than requested was cut by the end of the series or of the day.
pub proof fn lemma_frame_in_day(s: Seq<PricePoint>, day: int, i: int, d: int)
    requires
        0 <= i <= s.len(),
    ensures
        forall|k: int|
            i <= k < i + frame_count(s, day, i, d) ==> day_of(s[k].moment as int) == day,
        frame_count(s, day, i, d) < d && frame_count(s, day, i, d) > 0 ==> {
            let e = i + frame_count(s, day, i, d);
            e == s.len() || day_of(s[e].moment as int) != day
        },
        frame_count(s, day, i, d) == 0 && d > 0 && i < s.len() ==> day_of(s[i].moment as int)
            != day,
    decreases d,
{
    lemma_frame_count_bounds(s, day, i, d);
    if d <= 0 || i >= s.len() || day_of(s[i].moment as int) != day {
    } else {
        lemma_frame_in_day(s, day, i + 1, d - 1);
    }
}

/// A frame's sum is bounded by its size times the per-point limit.
pub proof fn lemma_frame_sum_bound(s: Seq<PricePoint>, day: int, i: int, d: int)
    requires
        all_wf(s),
        0 <= i <= s.len(),
    ensures
        -(frame_count(s, day, i, d) * AMOUNT_MICROS_LIMIT) <= frame_sum(s, day, i, d),
        frame_sum(s, day, i, d) <= frame_count(s, day, i, d) * AMOUNT_MICROS_LIMIT,
    decreases d,
{
    if d <= 0 || i >= s.len() || day_of(s[i].moment as int) != day {
    } else {
        lemma_frame_sum_bound(s, day, i + 1, d - 1);
    }
}

/// A strictly cheaper rational stays strictly cheaper across a comparison.
proof fn lemma_ratio_lt_le_trans(a: int, b: int, c: int, d: int, e: int, f: int)
    requires
        b > 0,
        d > 0,
        f > 0,
        a * d < c * b,
        c * f <= e * d,
    ensures
        a * f < e * b,
{
    assert(a * f < e * b) by (nonlinear_arith)
        requires
            b > 0,
            d > 0,
            f > 0,
            a * d < c * b,
            c * f <= e * d,
    ;
}

/// The index `best_upto` picks is in range, its candidate's mean is at most
/// the mean of every other candidate, and it is strictly below the mean of
/// every earlier candidate: the first global minimum wins.
pub proof fn lemma_best_upto(s: Seq<PricePoint>, d: int, n: int)
    requires
        1 <= d,
        1 <= n <= s.len(),
    ensures
        0 <= best_upto(s, d, n) < n,
        forall|j: int| 0 <= j < n ==> mean_le(s, d, best_upto(s, d, n), j),
        forall|j: int| 0 <= j < best_upto(s, d, n) ==> mean_lt(s, d, best_upto(s, d, n), j),
    decreases n,
{
    assert forall|i: int| 0 <= i < s.len() implies 1 <= #[trigger] cand_count(s, i, d) <= d by {
        lemma_frame_count_bounds(s, day_of(s[i].moment as int), i, d);
    }
    if n <= 1 {
    } else {
        lemma_best_upto(s, d, n - 1);
        let b = best_upto(s, d, n - 1);
        let w = best_upto(s, d, n);
        if mean_lt(s, d, n - 1, b) {
            assert forall|j: int| 0 <= j < n - 1 implies mean_lt(s, d, w, j) by {
                assert(mean_le(s, d, b, j));
                lemma_ratio_lt_le_trans(
                    cand_sum(s, n - 1, d),
                    cand_count(s, n - 1, d),
                    cand_sum(s, b, d),
                    cand_count(s, b, d),
                    cand_sum(s, j, d),
                    cand_count(s, j, d),
                );
            }
            assert forall|j: int| 0 <= j < n implies mean_le(s, d, w, j) by {
                if j < n - 1 {
                    assert(mean_lt(s, d, w, j));
                }
            }
        } else {
            assert(mean_le(s, d, w, n - 1));
        }
    }
}

/// A common positive factor of numerator and denominator cancels.
proof fn lemma_div_common_factor(x: int, y: int, c: int)
    requires
        x >= 0,
        y > 0,
        c > 0,
    ensures
        (c * x) / (c * y) == x / y,
{
    let q = x / y;
    let r = x % y;
    vstd::arithmetic::div_mod::lemma_fundamental_div_mod(x, y);
    assert(c * x == q * (c * y) + c * r) by (nonlinear_arith)
        requires
            x == y * q + r,
    ;
    assert(0 <= c * r < c * y) by (nonlinear_arith)
        requires
            0 <= r < y,
            c > 0,
    ;
    vstd::arithmetic::div_mod::lemma_fundamental_div_mod_converse(c * x, c * y, q, c * r);
}

/// Rounding the mean of a window whose every hour costs `a` gives the same
/// milli-unit value as rounding `a` itself, whatever the window's size.
proof fn lemma_round_milli_flat(a: int, c: int)
    requires
        c >= 1,
    ensures
        round_milli(c * a, c) == round_milli(a, 1),
{
    if a >= 0 {
        assert(c * a >= 0) by (nonlinear_arith)
            requires
                a >= 0,
                c >= 1,
        ;
        assert(2 * (c * a) + c * 1000 == c * (2 * a + 1000)) by (nonlinear_arith);
        assert(2 * (c * 1000) == c * 2000) by (nonlinear_arith);
        lemma_div_common_factor(2 * a + 1000, 2000, c);
    } else {
        assert(!(c * a >= 0)) by (nonlinear_arith)
            requires
                a < 0,
                c >= 1,
        ;
        assert(2 * (-(c * a)) + c * 1000 == c * (2 * (-a) + 1000)) by (nonlinear_arith);
        assert(2 * (c * 1000) == c * 2000) by (nonlinear_arith);
        lemma_div_common_factor(2 * (-a) + 1000, 2000, c);
    }
}

/// In a series where every hour costs `a`, a frame's sum is its size times
/// `a`.
proof fn lemma_flat_frame(s: Seq<PricePoint>, a: int, day: int, i: int, d: int)
    requires
        0 <= i <= s.len(),
        forall|k: int| 0 <= k < s.len() ==> s[k].amount_micros == a,
    ensures
        frame_sum(s, day, i, d) == frame_count(s, day, i, d) * a,
    decreases d,
{
    if d <= 0 || i >= s.len() || day_of(s[i].moment as int) != day {
    } else {
        lemma_flat_frame(s, a, day, i + 1, d - 1);
        assert((1 + frame_count(s, day, i + 1, d - 1)) * a == a + frame_count(
            s,
            day,
            i + 1,
            d - 1,
        ) * a) by (nonlinear_arith);
    }
}

/// Flat-series invariant: against a uniformly priced series, every duration
/// reports the same average price, namely the common hourly price rounded to
/// milli-units.
pub proof fn lemma_flat_series_average(s: Seq<PricePoint>, a: i64, d1: int, d2: int)
    requires
        s.len() >= 1,
        1 <= d1,
        1 <= d2,
        forall|k: int| 0 <= k < s.len() ==> s[k].amount_micros == a,
    ensures
        optimal_window(s, d1).average_milli == optimal_window(s, d2).average_milli,
        optimal_window(s, d1).average_milli == round_milli(a as int, 1) as i64,
{
    assert forall|d: int| 1 <= d implies #[trigger] optimal_window(s, d).average_milli
        == round_milli(a as int, 1) as i64 by {
        lemma_best_upto(s, d, s.len() as int);
        let b = best_upto(s, d, s.len() as int);
        let day = day_of(s[b].moment as int);
        let c = cand_count(s, b, d);
        lemma_frame_count_bounds(s, day, b, d);
        lemma_flat_frame(s, a as int, day, b, d);
        lemma_round_milli_flat(a as int, c);
    }
    assert(optimal_window(s, d1).average_milli == round_milli(a as int, 1) as i64);
    assert(optimal_window(s, d2).average_milli == round_milli(a as int, 1) as i64);
}

/// A duration of one hour always yields a window of exactly one point: it
/// ends at the end of that point's hour and averages that hour's own price.
pub proof fn lemma_duration_one(s: Seq<PricePoint>)
    requires
        s.len() >= 1,
        all_wf(s),
    ensures
        ({
            let b = best_upto(s, 1, s.len() as int);
            let w = optimal_window(s, 1);
            &&& 0 <= b < s.len()
            &&& cand_count(s, b, 1) == 1
            &&& w.starts_at.epoch_secs == s[b].moment
            &&& w.ends_at.epoch_secs == s[b].moment + HOUR_END_OFFSET
            &&& w.average_milli == round_milli(s[b].amount_micros as int, 1) as i64
        }),
{
    lemma_best_upto(s, 1, s.len() as int);
    let b = best_upto(s, 1, s.len() as int);
    let day = day_of(s[b].moment as int);
    assert(frame_count(s, day, b + 1, 0) == 0);
    assert(frame_sum(s, day, b + 1, 0) == 0);
    assert(cand_count(s, b, 1) == 1);
    assert(cand_sum(s, b, 1) == s[b].amount_micros);
    assert(s[b].wf());
}

/// Day-boundary policy: a candidate window holds only hours of its anchor's
/// calendar day. When it is shorter than the requested duration, it was cut
/// by the end of the series or by the first point of the next day, never
/// padded with that day's hours.
pub proof fn lemma_window_stays_in_day(s: Seq<PricePoint>, i: int, d: int)
    requires
        0 <= i < s.len(),
        1 <= d,
    ensures
        1 <= cand_count(s, i, d) <= d,
        i + cand_count(s, i, d) <= s.len(),
        forall|k: int|
            i <= k < i + cand_count(s, i, d) ==> day_of(s[k].moment as int) == day_of(
                s[i].moment as int,
            ),
        cand_count(s, i, d) < d ==> {
            let e = i + cand_count(s, i, d);
            e == s.len() || day_of(s[e].moment as int) != day_of(s[i].moment as int)
        },
{
    let day = day_of(s[i].moment as int);
    lemma_frame_count_bounds(s, day, i, d);
    lemma_frame_in_day(s, day, i, d);
}

/// Count and sum of the candidate window anchored at `i`: walk forward at
/// most `d` points, stopping at the end of the series or of the anchor's day.
fn frame_stats(series: &Vec<PricePoint>, i: usize, d: usize) -> (r: (usize, i64))
    requires
        all_wf(series@),
        i < series@.len(),
        1 <= d <= 24,
    ensures
        r.0 == cand_count(series@, i as int, d as int),
        r.1 == cand_sum(series@, i as int, d as int),
        1 <= r.0 <= d,
        i + r.0 <= series@.len(),
        -((r.0 * AMOUNT_MICROS_LIMIT) as int) <= r.1 <= (r.0 * AMOUNT_MICROS_LIMIT) as int,
{
    let ghost s = series@;
    let day0 = day_of_moment(series[i].moment);
    let mut j = i;
    let mut sum: i64 = 0;
    while j < series.len() && j - i < d && day_of_moment(series[j].moment) == day0
        invariant
            all_wf(s),
            series@ == s,
            i < s.len(),
            1 <= d <= 24,
            i <= j <= s.len(),
            j - i <= d,
            day0 == day_of(s[i as int].moment as int),
            frame_count(s, day0 as int, i as int, d as int) == (j - i) + frame_count(
                s,
                day0 as int,
                j as int,
                d - (j - i),
            ),
            frame_sum(s, day0 as int, i as int, d as int) == sum + frame_sum(
                s,
                day0 as int,
                j as int,
                d - (j - i),
            ),
            -(((j - i) * AMOUNT_MICROS_LIMIT) as int) <= sum <= ((j - i)
                * AMOUNT_MICROS_LIMIT) as int,
        decreases s.len() - j,
    {
        proof {
            assert(s[j as int].wf());
            assert((j - i + 1) * AMOUNT_MICROS_LIMIT == (j - i) * AMOUNT_MICROS_LIMIT
                + AMOUNT_MICROS_LIMIT) by (nonlinear_arith);
        }
        sum = sum + series[j].amount_micros;
        j = j + 1;
    }
    proof {
        assert(frame_count(s, day0 as int, j as int, d - (j - i)) == 0);
        assert(frame_sum(s, day0 as int, j as int, d - (j - i)) == 0);
        if j == i {
            assert(frame_count(s, day0 as int, i as int, d as int) >= 1) by {
                lemma_frame_count_bounds(s, day0 as int, i as int, d as int);
            }
            assert(false);
        }
    }
    (j - i, sum)
}

/// For each requested duration, the cheapest contiguous window in the given
/// time-ordered series: the first candidate whose mean price no other
/// candidate undercuts. An empty series has no window to offer.
pub fn cheapest_window(series: &Vec<PricePoint>, duration_hours: i32) -> (r: Result<
    PriceWindow,
    NotFoundError,
>)
    requires
        sorted_by_moment(series@),
        all_wf(series@),
    ensures
        r is Err <==> series@.len() == 0,
        series@.len() > 0 ==> r == Ok::<PriceWindow, NotFoundError>(
            optimal_window(series@, spec_normalize_duration(duration_hours as int)),
        ),
        series@.len() > 0 ==> forall|j: int|
            0 <= j < series@.len() ==> mean_le(
                series@,
                spec_normalize_duration(duration_hours as int),
                best_upto(
                    series@,
                    spec_normalize_duration(duration_hours as int),
                    series@.len() as int,
                ),
                j,
            ),
{
    let ghost s = series@;
    let d = normalize_duration(duration_hours);
    if series.len() == 0 {
        return Err(NotFoundError);
    }
    let stats0 = frame_stats(series, 0, d);
    let mut bi: usize = 0;
    let mut bcnt: usize = stats0.0;
    let mut bsum: i64 = stats0.1;
    let mut i: usize = 1;
    while i < series.len()
        invariant
            sorted_by_moment(s),
            all_wf(s),
            series@ == s,
            1 <= d <= 24,
            1 <= i <= s.len(),
            bi < i,
            bi == best_upto(s, d as int, i as int),
            bcnt == cand_count(s, bi as int, d as int),
            bsum == cand_sum(s, bi as int, d as int),
            1 <= bcnt <= d,
            -((bcnt * AMOUNT_MICROS_LIMIT) as int) <= bsum <= ((bcnt)
                * AMOUNT_MICROS_LIMIT) as int,
        decreases s.len() - i,
    {
        let stats = frame_stats(series, i, d);
        let cnt = stats.0;
        let sum = stats.1;
        proof {
            assert(-(600_000_000_000_000int) <= sum * bcnt <= 600_000_000_000_000int)
                by (nonlinear_arith)
                requires
                    -((cnt * AMOUNT_MICROS_LIMIT) as int) <= sum <= (cnt
                        * AMOUNT_MICROS_LIMIT) as int,
                    1 <= cnt <= 24,
                    1 <= bcnt <= 24,
                    AMOUNT_MICROS_LIMIT == 1_000_000_000_000int,
            ;
            assert(-(600_000_000_000_000int) <= bsum * cnt <= 600_000_000_000_000int)
                by (nonlinear_arith)
                requires
                    -((bcnt * AMOUNT_MICROS_LIMIT) as int) <= bsum <= (bcnt
                        * AMOUNT_MICROS_LIMIT) as int,
                    1 <= cnt <= 24,
                    1 <= bcnt <= 24,
                    AMOUNT_MICROS_LIMIT == 1_000_000_000_000int,
            ;
        }
        if sum * (bcnt as i64) < bsum * (cnt as i64) {
            bi = i;
            bcnt = cnt;
            bsum = sum;
        }
        i = i + 1;
    }
    proof {
        lemma_best_upto(s, d as int, s.len() as int);
        lemma_frame_count_bounds(s, day_of(s[bi as int].moment as int), bi as int, d as int);
        assert(bi + bcnt <= s.len());
        lemma_frame_sum_bound(s, day_of(s[bi as int].moment as int), bi as int, d as int);
        assert(bcnt * AMOUNT_MICROS_LIMIT <= 24 * AMOUNT_MICROS_LIMIT) by (nonlinear_arith)
            requires
                1 <= bcnt <= 24,
                AMOUNT_MICROS_LIMIT > 0,
        ;
        assert(s[bi + bcnt - 1].wf());
    }
    let starts = series[bi].moment;
    let ends = series[bi + bcnt - 1].moment + HOUR_END_OFFSET;
    let avg = round_milli_exec(bsum, bcnt);
    Ok(PriceWindow { starts_at: ZonedMoment::utc(starts), ends_at: ZonedMoment::utc(ends), average_milli: avg })
}

/// Rounding a mean to milli-units, computed executably.
pub fn round_milli_exec(sum: i64, cnt: usize) -> (r: i64)
    requires
        1 <= cnt <= 24,
        -(24 * AMOUNT_MICROS_LIMIT) <= sum <= 24 * AMOUNT_MICROS_LIMIT,
    ensures
        r == round_milli(sum as int, cnt as int),
        -AMOUNT_MICROS_LIMIT <= r <= AMOUNT_MICROS_LIMIT,
{
    let den: u64 = (cnt as u64) * 1000;
    let mag: u64 = if sum < 0 {
        (-sum) as u64
    } else {
        sum as u64
    };
    let q: u64 = (2 * mag + den) / (2 * den);
    proof {
        assert(2 * (mag as int) + den <= 2 * 24 * AMOUNT_MICROS_LIMIT + 24000);
        assert(q * (2 * den) <= 2 * (mag as int) + den) by (nonlinear_arith)
            requires
                den > 0,
                q == (2 * (mag as int) + den) / (2 * (den as int)),
                2 * (mag as int) + den >= 0,
        ;
        assert(q <= AMOUNT_MICROS_LIMIT) by (nonlinear_arith)
            requires
                q * (2 * (den as int)) <= 2 * (mag as int) + den,
                den >= 1000,
                2 * (mag as int) + den <= 2 * 24 * AMOUNT_MICROS_LIMIT + 24000,
                AMOUNT_MICROS_LIMIT == 1_000_000_000_000int,
        ;
    }
    if sum < 0 {
        -(q as i64)
    } else {
        q as i64
    }
}

} // verus!
