use poloto::fmt_num::{int_to_string, write_interval_i128};
use poloto::num::integer::{
    get_range_info, round_up_to_nearest_multiple, IntFmt, IntegerTickFmt, MonthIndex, TickLayout,
};
use poloto::ticks::{Axis, DataBound, TickFmt};

/// The text of an integer formatted through `f64`: in scientific
/// notation where that is shorter and the value is large or zero.
fn float_interval(a: i128, step: Option<i128>) -> String {
    if ((a.abs() as f64).log10().floor().abs()) > 4.0 {
        let af = a as f64;
        let k = match step {
            Some(step) => {
                let step = step as f64;
                let precision = if af == 0.0 {
                    0
                } else {
                    let k1 = -step.log10().ceil();
                    let k2 = -af.abs().log10().ceil();
                    let k1 = k1 as isize;
                    let k2 = k2 as isize;
                    (k1 - k2).max(0) as usize
                };
                format!("{0:.1$e}", af, precision)
            }
            None => format!("{}", af),
        };
        let j = format!("{}", a);
        if k.len() < j.len() {
            k
        } else {
            j
        }
    } else {
        format!("{}", a)
    }
}

#[test]
fn int_to_string_writes_decimal() {
    assert_eq!(int_to_string(0), "0");
    assert_eq!(int_to_string(-42), "-42");
    assert_eq!(int_to_string(1234567890), "1234567890");
    assert_eq!(int_to_string(i128::MIN), format!("{}", i128::MIN));
    assert_eq!(int_to_string(i128::MAX), format!("{}", i128::MAX));
}

#[test]
fn interval_small_values_are_plain() {
    assert_eq!(write_interval_i128(42, Some(1)), "42");
    assert_eq!(write_interval_i128(-99999, Some(1)), "-99999");
    assert_eq!(write_interval_i128(12345, None), "12345");
}

#[test]
fn interval_large_round_value_uses_science() {
    assert_eq!(write_interval_i128(1_000_000, Some(1_000_000)), "1e6");
    assert_eq!(write_interval_i128(-3_000_000_000, Some(1_000_000_000)), "-3.0e9");
    assert_eq!(write_interval_i128(123456, Some(1000)), "123456");
    assert_eq!(write_interval_i128(0, Some(5)), "0");
}

#[test]
fn interval_agrees_with_float_formatting() {
    let values: [i128; 12] = [
        0, 7, -7, 100000, 250000, -1_500_000, 123_456_789, 10_000_000_000, 99_999_999, 1 << 40, -(1 << 45), 5_000_000,
    ];
    let steps: [Option<i128>; 6] = [Some(1), Some(10), Some(1000), Some(1_000_000), Some(50_000), None];
    for &a in values.iter() {
        for &s in steps.iter() {
            if s.is_none() && a == 0 {
                continue;
            }
            assert_eq!(write_interval_i128(a, s), float_interval(a, s), "value {} step {:?}", a, s);
        }
    }
}

#[test]
fn round_up_to_multiples() {
    assert_eq!(round_up_to_nearest_multiple(7, 5), 10);
    assert_eq!(round_up_to_nearest_multiple(10, 5), 10);
    assert_eq!(round_up_to_nearest_multiple(-7, 5), -5);
    assert_eq!(round_up_to_nearest_multiple(-10, 5), -10);
    assert_eq!(round_up_to_nearest_multiple(0, 3), 0);
}

#[test]
fn range_info_counts_ticks_within_range() {
    assert_eq!(get_range_info(5, [3, 27]), (5, 5));
    assert_eq!(get_range_info(5, [5, 25]), (5, 5));
    assert_eq!(get_range_info(10, [-25, 5]), (-20, 3));
    assert_eq!(get_range_info(100, [1, 99]), (100, 0));
}

#[test]
fn tick_layout_picks_closest_step() {
    let l = TickLayout::new(&[1, 2, 5], 6, [0, 100]);
    assert_eq!(l.step, 20);
    assert_eq!(l.start_tick, 0);
    assert_eq!(l.num_steps, 6);
    assert_eq!(l.normalized_step, 2);
    let (rel, ticks) = l.generate();
    assert_eq!(rel, None);
    assert_eq!(ticks, vec![0, 20, 40, 60, 80, 100]);
}

#[test]
fn tick_layout_too_few_ticks() {
    assert!(TickLayout::try_new(&[1, 2, 5], 2, [0, 0]).is_none());
    assert!(TickLayout::try_new(&[1, 2, 5], 2, [0, 1]).is_some());
}

#[test]
fn integer_ticks_and_their_text() {
    let d = IntegerTickFmt.generate(&DataBound { min: 0, max: 100 }, 6, Axis::X);
    assert_eq!(d.iter, vec![0, 20, 40, 60, 80, 100]);
    assert_eq!(*d.fmt.step(), 20);
    assert_eq!(*d.fmt.offset(), None);
    assert_eq!(d.fmt.write_tick(&40), "40");
    assert_eq!(d.fmt.write_where(), "");
}

#[test]
fn integer_ticks_written_relative_when_long() {
    let d = IntegerTickFmt.generate(&DataBound { min: 1_000_000_001, max: 1_000_000_009 }, 5, Axis::Y);
    assert_eq!(*d.fmt.offset(), Some(d.iter[0]));
    let first = d.iter[0];
    assert_eq!(d.fmt.write_tick(&first), "k+0");
    assert_eq!(d.fmt.write_tick(&(first + 2)), "k+2");
    assert_eq!(d.fmt.write_where(), format!("where k={}", float_interval(first, None)));
}

#[test]
fn int_fmt_without_offset() {
    let f = IntFmt { offset: None, axis: Axis::X, step: 5 };
    assert_eq!(f.write_tick(&-15), "-15");
    assert_eq!(f.write_where(), "");
    let g = IntFmt { offset: Some(1000), axis: Axis::X, step: 5 };
    assert_eq!(g.write_tick(&1015), "j+15");
    assert_eq!(g.write_where(), "where j=1000");
}

#[test]
fn month_index_ticks() {
    let info = MonthIndex::compute_ticks(4, [MonthIndex(0), MonthIndex(24)]);
    let pos: Vec<i128> = info.ticks.iter().map(|t| t.position.0).collect();
    assert_eq!(pos, vec![0, 6, 12, 18, 24]);
    assert!(info.display_relative.is_none());
    assert_eq!(MonthIndex(17).fmt(), "17");
}
