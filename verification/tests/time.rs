use chrono::{Datelike, TimeZone, Timelike};
use poloto::num::timestamp::month_str;
use poloto::num::timestamp::tick_finder::{unixtime_ticks, BestTickFinder, Candidate, UnixTimeTickFmt};
use poloto::num::timestamp::unixtime::{gen_tick, unit_ticks, MonthCounter, StepUnit, UnixTime};
use poloto::ticks::{Axis, DataBound, TickFmt};

fn utc(t: i64) -> chrono::DateTime<chrono::Utc> {
    chrono::DateTime::from_timestamp(t, 0).unwrap()
}

#[test]
fn unixtime_test_hours() {
    // 1642123584 (update)
    // (2022-01-14T01:26:24+00:00)

    let a = UnixTime(1642232500);

    println!("{}  {}  vx {} tz", a.fmt(), a.civil().hour, utc(a.0).hour());
}

#[test]
fn civil_breakdown_agrees_with_chrono() {
    for &t in [0i64, 1642123584, -86401, 951782400, 4102444799, -62135596800].iter() {
        let c = UnixTime(t).civil();
        let d = utc(t);
        assert_eq!(c.year, d.year());
        assert_eq!(c.month, d.month());
        assert_eq!(c.day, d.day());
        assert_eq!(c.hour, d.hour());
        assert_eq!(c.minute, d.minute());
        assert_eq!(c.second, d.second());
        assert_eq!(c.weekday, d.weekday().num_days_from_monday());
    }
}

#[test]
fn dates_to_timestamps() {
    assert_eq!(UnixTime::from_ymd(2022, 1, 14).0, 1642118400);
    assert_eq!(UnixTime::from_year(1970).0, 0);
    assert_eq!(UnixTime::from_year(2000).0, 946684800);
    assert_eq!(UnixTime::from_ymd_hms((2022, 1, 14), 1, 26, 24).0, 1642123584);
    assert_eq!(UnixTime::from_ymd(2000, 2, 29).0, 951782400);
    assert_eq!(
        UnixTime::from_ymd(-44, 3, 15).0,
        chrono::Utc.with_ymd_and_hms(-44, 3, 15, 0, 0, 0).unwrap().timestamp()
    );
}

#[test]
fn timestamps_written_as_chrono_writes_them() {
    assert_eq!(UnixTime(1642123584).fmt(), "2022-01-14 01:26:24 UTC");
    assert_eq!(UnixTime(0).fmt(), utc(0).to_string());
}

#[test]
fn dynamic_formats() {
    let a = UnixTime(1642123584);
    assert_eq!(a.dynamic_format(StepUnit::YR), "2022");
    assert_eq!(a.dynamic_format(StepUnit::MO), "2022 Jan");
    assert_eq!(a.dynamic_format(StepUnit::DY), "Jan 14");
    assert_eq!(a.dynamic_format(StepUnit::HR), "Fri:1");
    assert_eq!(a.dynamic_format(StepUnit::MI), "1:26");
    assert_eq!(a.dynamic_format(StepUnit::SE), "26:24");
}

#[test]
fn step_units() {
    assert_eq!(StepUnit::YR.fmt(), "Years");
    assert_eq!(StepUnit::MI.fmt(), "Minutes");
    assert!(StepUnit::DY.is_days());
    assert!(!StepUnit::DY.is_hours());
    assert!(StepUnit::SE.is_seconds());
    assert!(StepUnit::MO.is_months());
    assert!(StepUnit::YR.is_years());
    assert!(StepUnit::MI.is_minutes());
}

#[test]
fn month_names() {
    assert_eq!(month_str(1), "Jan");
    assert_eq!(month_str(9), "Sep");
    assert_eq!(month_str(12), "Dec");
}

#[test]
fn month_counter_steps_over_years() {
    let mut m = MonthCounter::new(2022, 11);
    m.step(1);
    assert_eq!((m.year(), m.month()), (2023, 0));
    m.step(25);
    assert_eq!((m.year(), m.month()), (2025, 1));
    let mut r = MonthCounter::new(2022, 7);
    r.round_up_to_nearest_multiple_month(6);
    assert_eq!((r.year(), r.month()), (2023, 0));
    let mut s = MonthCounter::new(2022, 6);
    s.round_up_to_nearest_multiple_month(6);
    assert_eq!((s.year(), s.month()), (2022, 6));
}

fn collect(unit: StepUnit, start: i64, step: i64, end: i64) -> Vec<i64> {
    let seq = unit_ticks(unit, UnixTime(start), step);
    gen_tick(seq, UnixTime(end), 1000).unwrap().into_iter().map(|t| t.0).collect()
}

#[test]
fn hour_ticks() {
    // 2022-01-15 07:41:40 UTC, every five hours from the next multiple of five.
    let start = 1642232500;
    let end = start + 86400;
    let got = collect(StepUnit::HR, start, 5, end);
    let day = chrono::Utc.with_ymd_and_hms(2022, 1, 15, 0, 0, 0).unwrap().timestamp();
    assert_eq!(got[0], day + 10 * 3600);
    for w in got.windows(2) {
        assert_eq!(w[1] - w[0], 5 * 3600);
    }
    assert!(*got.last().unwrap() <= end);
    assert!(*got.last().unwrap() + 5 * 3600 > end);
}

#[test]
fn day_month_year_ticks() {
    let start = 1642121137; // 2022-01-14 00:45:37
    let days = collect(StepUnit::DY, start, 5, start + 20 * 86400);
    let d: Vec<u32> = days.iter().map(|&t| utc(t).day()).collect();
    assert_eq!(d, vec![16, 21, 26, 31]);
    let months = collect(StepUnit::MO, 1642232500, 2, 1642232500 + 200 * 86400);
    let m: Vec<(i32, u32, u32)> = months.iter().map(|&t| (utc(t).year(), utc(t).month(), utc(t).day())).collect();
    assert_eq!(m, vec![(2022, 3, 1), (2022, 5, 1), (2022, 7, 1)]);
    let years = collect(StepUnit::YR, UnixTime::from_year(2010).0, 2, UnixTime::from_year(2017).0);
    let y: Vec<i32> = years.iter().map(|&t| utc(t).year()).collect();
    assert_eq!(y, vec![2010, 2012, 2014, 2016]);
}

#[test]
fn minute_and_second_ticks() {
    let start = 1642123584; // 2022-01-14 01:26:24
    let mins = collect(StepUnit::MI, start, 5, start + 20 * 60);
    let m: Vec<u32> = mins.iter().map(|&t| utc(t).minute()).collect();
    assert_eq!(m, vec![30, 35, 40, 45]);
    let secs = collect(StepUnit::SE, start, 5, start + 20);
    let s: Vec<u32> = secs.iter().map(|&t| utc(t).second()).collect();
    assert_eq!(s, vec![25, 30, 35, 40]);
}

#[test]
fn too_many_ticks_gives_up() {
    let seq = unit_ticks(StepUnit::SE, UnixTime(0), 1);
    assert!(gen_tick(seq, UnixTime(100), 10).is_none());
}

#[test]
fn unixtime_ticks_for_a_day() {
    let start = 1642118400; // 2022-01-14 00:00:00
    let bound = DataBound { min: UnixTime(start), max: UnixTime(start + 86400) };
    let d = unixtime_ticks(&bound, 6, Axis::X);
    assert!(d.iter.len() >= 2);
    for w in d.iter.windows(2) {
        assert!(w[0].0 < w[1].0);
    }
    assert!(d.iter[0].0 >= start && d.iter.last().unwrap().0 <= start + 86400);
    assert_eq!(d.fmt.step(), StepUnit::HR);
    assert_eq!(d.fmt.start(), d.iter[0]);
    assert_eq!(d.fmt.axis(), Axis::X);
    assert_eq!(d.fmt.write_where(), format!("X: {} in Hours", d.iter[0].dynamic_format(StepUnit::HR)));
    assert_eq!(d.fmt.write_tick(&d.iter[1]), d.iter[1].dynamic_format(StepUnit::HR));
}

#[test]
fn best_tick_finder_prefers_closest() {
    let mut f = BestTickFinder::new(UnixTime(1000), 4);
    let four = Candidate { ticks: vec![UnixTime(0), UnixTime(1), UnixTime(2), UnixTime(3)], unit_data: StepUnit::SE, chosen_tick: 1 };
    let two = Candidate { ticks: vec![UnixTime(0), UnixTime(2)], unit_data: StepUnit::SE, chosen_tick: 2 };
    assert!(f.consider_set(two));
    assert!(f.consider_set(four));
    let tie = Candidate { ticks: vec![UnixTime(0), UnixTime(5), UnixTime(10), UnixTime(15)], unit_data: StepUnit::MI, chosen_tick: 5 };
    assert!(!f.consider_set(tie));
    let best = f.into_best().unwrap();
    assert_eq!(best.ticks.len(), 4);
    assert_eq!(best.chosen_tick, 1);
}

fn ticks(n: i64) -> Vec<UnixTime> {
    (0..n).map(UnixTime).collect()
}

#[test]
fn best_tick_finder_tie_goes_to_fewer_ticks() {
    let mut f = BestTickFinder::new(UnixTime(1000), 4);
    assert!(f.consider_set(Candidate { ticks: ticks(5), unit_data: StepUnit::SE, chosen_tick: 1 }));
    // As close to the ideal number and with fewer ticks: taken.
    assert!(f.consider_set(Candidate { ticks: ticks(3), unit_data: StepUnit::MI, chosen_tick: 2 }));
    // As close and with more ticks: refused.
    assert!(!f.consider_set(Candidate { ticks: ticks(5), unit_data: StepUnit::HR, chosen_tick: 3 }));
    let best = f.into_best().unwrap();
    assert_eq!((best.ticks.len(), best.chosen_tick), (3, 2));
}

#[test]
fn best_tick_finder_refuses_farther_with_fewer() {
    let mut f = BestTickFinder::new(UnixTime(1000), 4);
    assert!(f.consider_set(Candidate { ticks: ticks(4), unit_data: StepUnit::SE, chosen_tick: 1 }));
    assert!(!f.consider_set(Candidate { ticks: ticks(2), unit_data: StepUnit::SE, chosen_tick: 2 }));
    assert_eq!(f.into_best().unwrap().chosen_tick, 1);
}

#[test]
fn best_tick_finder_needs_two_ticks() {
    let f = BestTickFinder::new(UnixTime(1000), 4);
    assert!(f.into_best().is_none());
}

#[test]
fn unixtime_tick_fmt_y_axis() {
    let f = UnixTimeTickFmt { step: StepUnit::DY, start: UnixTime(1642118400), axis: Axis::Y };
    assert_eq!(f.write_where(), "Y: Jan 14 in Days");
    assert_eq!(f.write_tick(&UnixTime(1642118400 + 86400)), "Jan 15");
}

#[test]
fn date_and_time_read_back() {
    for &(y, m, d, h, mi, s) in [(2022, 1, 14, 1, 26, 24), (1969, 12, 31, 23, 59, 59), (2000, 2, 29, 12, 0, 0), (-100, 3, 1, 0, 0, 0)].iter() {
        let c = UnixTime::from_ymd_hms((y, m, d), h, mi, s).civil();
        assert_eq!((c.year, c.month, c.day, c.hour, c.minute, c.second), (y, m, d, h, mi, s));
    }
}

#[test]
fn parse_dates() {
    let t = UnixTime::parse_from_str("2022-01-14 01:26:24", "%Y-%m-%d %H:%M:%S").ok().unwrap();
    assert_eq!(t, UnixTime(1642123584));
    assert!(UnixTime::parse_from_str("not a date", "%Y-%m-%d %H:%M:%S").is_err());
    assert!(UnixTime::parse_from_str("2022-13-14 01:26:24", "%Y-%m-%d %H:%M:%S").is_err());
}

#[test]
fn generators_by_unit() {
    let a = UnixTime(1642123584); // 2022-01-14 01:26:24
    let mins: Vec<i64> = gen_tick(a.minutes(5), UnixTime(a.0 + 20 * 60), 100).unwrap().iter().map(|t| t.0).collect();
    assert_eq!(mins, collect(StepUnit::MI, a.0, 5, a.0 + 20 * 60));
    let hrs = gen_tick(a.hours(6), UnixTime(a.0 + 86400), 100).unwrap();
    assert_eq!(hrs.iter().map(|t| utc(t.0).hour()).collect::<Vec<_>>(), vec![6, 12, 18, 0]);
    let days = gen_tick(a.days(7), UnixTime(a.0 + 30 * 86400), 100).unwrap();
    assert_eq!(days.iter().map(|t| utc(t.0).day()).collect::<Vec<_>>(), vec![15, 22, 29, 5, 12]);
    let months = gen_tick(a.months(3), UnixTime::from_year(2023), 100).unwrap();
    assert_eq!(months.iter().map(|t| utc(t.0).month()).collect::<Vec<_>>(), vec![4, 7, 10, 1]);
    let years = gen_tick(a.years(5), UnixTime::from_year(2040), 100).unwrap();
    assert_eq!(years.iter().map(|t| utc(t.0).year()).collect::<Vec<_>>(), vec![2025, 2030, 2035, 2040]);
    let secs = gen_tick(a.seconds(30), UnixTime(a.0 + 60), 100).unwrap();
    assert_eq!(secs.iter().map(|t| utc(t.0).second()).collect::<Vec<_>>(), vec![30, 0]);
}

#[test]
fn default_formatting_of_times() {
    let f = poloto::ticks::DefaultTickFmt::new();
    assert_eq!(f.write_tick(&UnixTime(0)), "1970-01-01 00:00:00 UTC");
    assert_eq!(TickFmt::<UnixTime>::write_where(&f), "");
    assert_eq!(f.write_tick(&poloto::num::integer::MonthIndex(5)), "5");
}

#[test]
fn times_written_with_signed_years() {
    assert_eq!(UnixTime::from_year(-44).fmt(), "-0044-01-01 00:00:00 UTC");
    assert_eq!(UnixTime::from_year(12000).fmt(), "+12000-01-01 00:00:00 UTC");
    assert_eq!(UnixTime::from_ymd_hms((987, 6, 5), 4, 3, 2).fmt(), "0987-06-05 04:03:02 UTC");
    for &t in [-62135596800i64, 253402300800, -100000000000].iter() {
        assert_eq!(UnixTime(t).fmt(), utc(t).to_string());
    }
}

#[test]
fn month_round_up_gives_a_multiple_within_one_step_and_stays() {
    for step in [1u32, 2, 3, 4, 6, 12] {
        for start in 0u32..12 {
            let mut m = MonthCounter::new(2021, start);
            m.round_up_to_nearest_multiple_month(step);
            assert_eq!(m.month() % step, 0);
            assert!(m.month() < 12);
            let moved = (12 * m.year() as i64 + m.month() as i64) - (12 * 2021 + start as i64);
            assert!(0 <= moved && moved < step as i64);
            let (y, mo) = (m.year(), m.month());
            m.round_up_to_nearest_multiple_month(step);
            assert_eq!((m.year(), m.month()), (y, mo));
        }
    }
}

#[test]
fn parsed_dates_far_from_the_epoch() {
    let t = UnixTime::parse_from_str("1969-12-31 23:59:59", "%Y-%m-%d %H:%M:%S").ok().unwrap();
    assert_eq!(t, UnixTime(-1));
    let u = UnixTime::parse_from_str("-0044-03-15 12:00:00", "%Y-%m-%d %H:%M:%S").ok().unwrap();
    let expect = chrono::NaiveDateTime::parse_from_str("-0044-03-15 12:00:00", "%Y-%m-%d %H:%M:%S").unwrap().and_utc().timestamp();
    assert_eq!(u, UnixTime(expect));
    assert_eq!(u, UnixTime::from_ymd_hms((-44, 3, 15), 12, 0, 0));
}
