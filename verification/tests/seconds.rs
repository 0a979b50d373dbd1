use cpu_monitor::{ticks_to_seconds, CpuSeconds, GroupTotals};

/// The seconds as a decimal number.
fn decimal(seconds: &CpuSeconds) -> f64 {
    fn number(limbs: &[u32]) -> f64 {
        limbs.iter().rev().fold(0.0, |high, limb| high * 4_294_967_296.0 + f64::from(*limb))
    }
    let (num, den) = seconds.fraction();
    number(num.limbs()) / number(den.limbs())
}

#[test]
fn test_ticks_to_seconsds_basic() {
    let ticks = 100u64;
    let clk_tck = 100u64;
    let result = ticks_to_seconds(ticks, clk_tck);
    assert_eq!(decimal(&result), 1.0);
}

#[test]
fn test_ticks_to_seconds_zero_ticks() {
    let result = ticks_to_seconds(0u64, 100u64);
    assert_eq!(decimal(&result), 0.0);
}

#[test]
fn clock_of_rate_zero_gives_zero() {
    assert_eq!(decimal(&ticks_to_seconds(5, 0)), 0.0);
}

#[test]
fn equal_fractions_are_equal_times() {
    let (a, b) = (ticks_to_seconds(150, 100), ticks_to_seconds(3, 2));
    assert!(!a.exceeds(&b) && !b.exceeds(&a));
    assert!(a.exceeds(&ticks_to_seconds(149, 100)));
    assert!(ticks_to_seconds(151, 100).exceeds(&b));
}

#[test]
fn sums_are_exact() {
    let mut sum = CpuSeconds::zero();
    for clk_tck in [3, 5, 7, 11, 13, 17, 19, 23] {
        sum = sum.plus(&ticks_to_seconds(1, clk_tck));
        sum = sum.plus(&ticks_to_seconds(clk_tck - 1, clk_tck));
    }
    let eight = ticks_to_seconds(8, 1);
    assert!(!sum.exceeds(&eight) && !eight.exceeds(&sum));
    assert_eq!(decimal(&sum), 8.0);
}

#[test]
fn sums_grow_past_any_machine_word() {
    let big = CpuSeconds::of_ticks(u128::MAX, 1);
    let mut sum = big.clone();
    for _ in 0..4 {
        let twice = sum.plus(&sum);
        assert!(twice.exceeds(&sum));
        sum = twice;
    }
    assert_eq!(decimal(&sum), 16.0 * decimal(&big));
    let (num, den) = sum.fraction();
    assert_eq!(num.limbs(), &vec![0xffff_fff0, 0xffff_ffff, 0xffff_ffff, 0xffff_ffff, 0xf]);
    assert_eq!(den.limbs(), &vec![1]);
}

#[test]
fn great_denominators_are_multiplied_out() {
    let a = ticks_to_seconds(u64::MAX, u64::MAX - 1);
    let b = ticks_to_seconds(u64::MAX - 1, u64::MAX - 2);
    assert!(b.exceeds(&a));
    assert!(!a.exceeds(&b));
    assert!(a.plus(&b).exceeds(&ticks_to_seconds(2, 1)));
}

#[test]
fn totals_keep_one_entry_for_each_name() {
    let mut totals = GroupTotals::new();
    assert!(totals.is_empty());
    totals.add_time("a".to_string(), &ticks_to_seconds(1, 2));
    totals.add_time("b".to_string(), &ticks_to_seconds(5, 1));
    totals.add_time("a".to_string(), &ticks_to_seconds(1, 4));
    assert_eq!(totals.len(), 2);
    assert!(totals.contains_key("a") && !totals.contains_key("c"));
    assert_eq!(totals.get("a").map(decimal), Some(0.75));
    assert!(totals.get("c").is_none());
    totals.insert("a".to_string(), ticks_to_seconds(9, 1));
    assert_eq!(totals.len(), 2);
    assert_eq!(totals.get("a").map(decimal), Some(9.0));
    assert_eq!(decimal(&totals.total()), 14.0);
}

#[test]
fn absorbed_totals_are_added_name_by_name() {
    let mut a = GroupTotals::new();
    a.insert("x".to_string(), ticks_to_seconds(1, 1));
    a.insert("y".to_string(), ticks_to_seconds(2, 1));
    let mut b = GroupTotals::new();
    b.insert("y".to_string(), ticks_to_seconds(3, 1));
    b.insert("z".to_string(), ticks_to_seconds(4, 1));
    a.absorb(&b);
    assert_eq!(a.len(), 3);
    assert_eq!(a.get("x").map(decimal), Some(1.0));
    assert_eq!(a.get("y").map(decimal), Some(5.0));
    assert_eq!(a.get("z").map(decimal), Some(4.0));
    assert_eq!(decimal(&a.total()), 10.0);
    let copy = a.clone();
    assert_eq!(copy.len(), 3);
    assert_eq!(decimal(&copy.total()), 10.0);
}

#[test]
fn ranking_holds_every_group_in_falling_order() {
    let mut totals = GroupTotals::new();
    for (name, ticks) in [("a", 3), ("b", 9), ("c", 1), ("d", 9), ("e", 4)] {
        totals.insert(name.to_string(), ticks_to_seconds(ticks, 2));
    }
    let ranking = totals.ranking();
    let times: Vec<f64> = ranking.iter().map(|(_, seconds)| decimal(seconds)).collect();
    assert_eq!(times, vec![4.5, 4.5, 2.0, 1.5, 0.5]);
    let mut names: Vec<&str> = ranking.iter().map(|(name, _)| name.as_str()).collect();
    names.sort();
    assert_eq!(names, vec!["a", "b", "c", "d", "e"]);
    assert_eq!(times.iter().sum::<f64>(), decimal(&totals.total()));
}
