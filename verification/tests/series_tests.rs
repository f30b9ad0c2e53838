use tseries::date::parse_date;
use tseries::duration::parse_duration;
use tseries::error::Error;
use tseries::series::{generate_series, resolve_range, Series};
use tseries::time::{Duration, Timestamp, DAY_MILLIS};

const NOW_MS: i64 = 1_600_000_000_123;

fn now() -> Timestamp {
    Timestamp { millis: NOW_MS }
}

#[test]
fn two_hours_by_one_hour_stride_gives_three_points() {
    let since = Timestamp { millis: NOW_MS };
    let until = Timestamp { millis: NOW_MS + 7_200_000 };
    let stride = parse_duration("1h").unwrap();
    let points = generate_series(since, until, stride);
    assert_eq!(3, points.len());
    assert_eq!(NOW_MS, points[0].millis);
    assert_eq!(NOW_MS + 3_600_000, points[1].millis);
    assert_eq!(NOW_MS + 7_200_000, points[2].millis);
}

#[test]
fn series_length_is_floor_quotient_plus_one() {
    let since = Timestamp { millis: 0 };
    let until = Timestamp { millis: 7_000_000 };
    let stride = Duration::seconds(3600);
    // floor(7000 / 3600) + 1
    assert_eq!(2, generate_series(since, until, stride).len());
    let exact = Timestamp { millis: 7_200_000 };
    assert_eq!(3, generate_series(since, exact, stride).len());
}

#[test]
fn empty_range_yields_nothing() {
    let since = Timestamp { millis: 1000 };
    let until = Timestamp { millis: 999 };
    assert_eq!(0, generate_series(since, until, Duration::seconds(1)).len());
}

#[test]
fn equal_endpoints_yield_exactly_the_start() {
    let t = Timestamp { millis: 123_456 };
    let points = generate_series(t, t, Duration::seconds(60));
    assert_eq!(1, points.len());
    assert_eq!(t, points[0]);
}

#[test]
fn today_to_today_with_default_stride_is_one_start_of_day() {
    let since = parse_date("today", now()).unwrap();
    let until = parse_date("today", now()).unwrap();
    let (s, u, d) = resolve_range(Some(since), Some(until), None, now()).unwrap();
    assert_eq!(DAY_MILLIS, d.millis);
    let points = generate_series(s, u, d);
    assert_eq!(1, points.len());
    assert_eq!(NOW_MS - NOW_MS % DAY_MILLIS, points[0].millis);
    assert_eq!(0, points[0].millis % DAY_MILLIS);
}

#[test]
fn lazy_walk_matches_eager_series() {
    let since = Timestamp { millis: 500 };
    let until = Timestamp { millis: 10_500 };
    let stride = Duration::seconds(2);
    let eager = generate_series(since, until, stride);
    let mut lazy = Series::new(since, until, stride);
    let mut walked = Vec::new();
    while let Some(t) = lazy.next() {
        walked.push(t);
    }
    assert_eq!(eager, walked);
}

#[test]
fn lazy_walk_is_restartable() {
    let since = Timestamp { millis: 0 };
    let until = Timestamp { millis: 5_000 };
    let stride = Duration::seconds(1);
    let mut first = Series::new(since, until, stride);
    let mut second = Series::new(since, until, stride);
    while let Some(t) = first.next() {
        assert_eq!(Some(t), second.next());
    }
    assert_eq!(None, second.next());
}

#[test]
fn zero_stride_walk_is_endless_by_design() {
    let t = Timestamp { millis: 42 };
    let mut walk = Series::new(t, Timestamp { millis: 100 }, Duration::seconds(0));
    for _ in 0..5 {
        assert_eq!(Some(t), walk.next());
    }
}

#[test]
fn resolve_range_requires_since() {
    assert!(matches!(
        resolve_range(None, Some(now()), Some(60), now()),
        Err(Error::MissingArgument(_))
    ));
}

#[test]
fn resolve_range_defaults_until_to_now_and_stride_to_a_day() {
    let since = Timestamp { millis: 0 };
    let (s, u, d) = resolve_range(Some(since), None, None, now()).unwrap();
    assert_eq!(since, s);
    assert_eq!(now(), u);
    assert_eq!(DAY_MILLIS, d.millis);
    let (_, _, d2) = resolve_range(Some(since), Some(now()), Some(90), now()).unwrap();
    assert_eq!(90_000, d2.millis);
}
