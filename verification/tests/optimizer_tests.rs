use electrack::domain::{PricePoint, PriceWindow};
use electrack::moment::ZonedMoment;
use electrack::optimizer::{cheapest_window, normalize_duration, round_milli_exec};

const HOUR: i64 = 3600;
const JAN1: i64 = 1704067200; // 2024-01-01T00:00:00Z

fn hourly(start: i64, amounts: &[i64]) -> Vec<PricePoint> {
    let mut v = Vec::new();
    let mut m = start;
    for &a in amounts {
        v.push(PricePoint { moment: m, amount_micros: a });
        m += HOUR;
    }
    v
}

#[test]
fn three_point_scenario_duration_two() {
    // Prices 0.30, 0.10, 0.50 from midnight; candidates for duration 2 are
    // (0.30, 0.10) -> 0.200, (0.10, 0.50) -> 0.300, (0.50) -> 0.500.
    let series = hourly(JAN1, &[300_000, 100_000, 500_000]);
    let w = cheapest_window(&series, 2).unwrap();
    assert_eq!(w.starts_at, ZonedMoment { epoch_secs: JAN1, offset_secs: 0 });
    assert_eq!(w.ends_at, ZonedMoment { epoch_secs: JAN1 + HOUR + 3599, offset_secs: 0 });
    assert_eq!(w.average_milli, 200);
    assert_eq!(w.average_price(), "0.200");
}

#[test]
fn empty_series_not_found() {
    let series: Vec<PricePoint> = Vec::new();
    assert!(cheapest_window(&series, 1).is_err());
    assert!(cheapest_window(&series, 4).is_err());
    assert!(cheapest_window(&series, 24).is_err());
}

#[test]
fn duration_one_single_hour() {
    let series = hourly(JAN1, &[240_000, 110_500, 180_000]);
    let w = cheapest_window(&series, 1).unwrap();
    assert_eq!(w.starts_at.epoch_secs, JAN1 + HOUR);
    assert_eq!(w.ends_at.epoch_secs, JAN1 + HOUR + 3599);
    // Exactly that hour's price, rounded to three decimals (half away from
    // zero): 0.1105 -> 0.111.
    assert_eq!(w.average_price(), "0.111");
}

#[test]
fn flat_series_same_average_for_all_durations() {
    let series = hourly(JAN1, &[250_000; 24]);
    let mut averages = Vec::new();
    for d in [1, 2, 3, 6, 12, 24] {
        let w = cheapest_window(&series, d).unwrap();
        averages.push(w.average_price());
    }
    for a in &averages {
        assert_eq!(a, "0.250");
    }
}

#[test]
fn window_never_crosses_midnight() {
    // Two expensive evening hours, then a very cheap hour on the next day.
    // A duration of 3 must not pull the cheap hour across the boundary:
    // the cheapest 3-hour candidate is the truncated one starting at the
    // next day's first (cheap) hour.
    let evening = JAN1 + 22 * HOUR; // 2024-01-01T22:00:00Z
    let series = hourly(evening, &[400_000, 410_000, 10_000]);
    let w = cheapest_window(&series, 3).unwrap();
    // The candidate anchored at the cheap hour holds only that hour.
    assert_eq!(w.starts_at.epoch_secs, JAN1 + 24 * HOUR);
    assert_eq!(w.ends_at.epoch_secs, JAN1 + 24 * HOUR + 3599);
    assert_eq!(w.average_price(), "0.010");
}

#[test]
fn truncated_trailing_window_still_competes() {
    // Duration 2 at the end of the series: the last candidate is a single
    // hour and it wins because it is cheapest on its own.
    let series = hourly(JAN1, &[300_000, 280_000, 50_000]);
    let w = cheapest_window(&series, 2).unwrap();
    assert_eq!(w.starts_at.epoch_secs, JAN1 + 2 * HOUR);
    assert_eq!(w.ends_at.epoch_secs, JAN1 + 2 * HOUR + 3599);
    assert_eq!(w.average_price(), "0.050");
}

#[test]
fn ties_break_to_earliest_start() {
    let series = hourly(JAN1, &[200_000, 200_000, 200_000]);
    let w = cheapest_window(&series, 2).unwrap();
    assert_eq!(w.starts_at.epoch_secs, JAN1);
}

#[test]
fn durations_are_clamped() {
    assert_eq!(normalize_duration(-5), 1);
    assert_eq!(normalize_duration(0), 1);
    assert_eq!(normalize_duration(1), 1);
    assert_eq!(normalize_duration(24), 24);
    assert_eq!(normalize_duration(100), 24);

    // A request far beyond a day behaves like a full-day request.
    let series = hourly(JAN1, &[300_000, 100_000, 500_000]);
    let a = cheapest_window(&series, 3).unwrap();
    let b = cheapest_window(&series, 99).unwrap();
    assert_eq!(a, b);
}

#[test]
fn rounding_half_away_from_zero() {
    // 0.0005 exactly -> 0.001; -0.0005 -> -0.001.
    assert_eq!(round_milli_exec(500, 1), 1);
    assert_eq!(round_milli_exec(-500, 1), -1);
    assert_eq!(round_milli_exec(499, 1), 0);
    assert_eq!(round_milli_exec(1_499, 1), 1);
    // Mean of 0.001 and 0.002 is 0.0015 -> 0.002.
    assert_eq!(round_milli_exec(3_000, 2), 2);
}

#[test]
fn negative_prices_are_selected() {
    let series = hourly(JAN1, &[120_000, -40_000, 90_000]);
    let w = cheapest_window(&series, 1).unwrap();
    assert_eq!(w.starts_at.epoch_secs, JAN1 + HOUR);
    assert_eq!(w.average_price(), "-0.040");
}

#[test]
fn projection_keeps_instants_and_average() {
    let w = PriceWindow {
        starts_at: ZonedMoment { epoch_secs: JAN1, offset_secs: 0 },
        ends_at: ZonedMoment { epoch_secs: JAN1 + 7199, offset_secs: 0 },
        average_milli: 200,
    };
    let oslo = w.with_timezone(7200);
    assert_eq!(oslo.starts_at.epoch_secs, JAN1);
    assert_eq!(oslo.ends_at.epoch_secs, JAN1 + 7199);
    assert_eq!(oslo.starts_at.offset_secs, 7200);
    assert_eq!(oslo.ends_at.offset_secs, 7200);
    assert_eq!(oslo.average_milli, w.average_milli);
    // Round trip: reinterpreting in UTC recovers the original window.
    let back = oslo.with_timezone(0);
    assert_eq!(back, w);
}
