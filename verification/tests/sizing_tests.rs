use slot_sizing::rangei::MAX_POINTS;
use slot_sizing::size::Size;
use slot_sizing::sizing::Sizing;

#[test]
fn test_sizing() {
    let sizing: Sizing = vec![].into();
    assert_eq!(sizing.to_lengths(50, 0), Vec::<i64>::new());

    let sizing: Sizing = vec![Size::remainder().at_least(20), Size::remainder()].into();
    assert_eq!(sizing.to_lengths(50, 0), vec![25, 25]);
    assert_eq!(sizing.to_lengths(30, 0), vec![20, 10]);
    assert_eq!(sizing.to_lengths(20, 0), vec![20, 0]);
    assert_eq!(sizing.to_lengths(10, 0), vec![20, 0]);
    assert_eq!(sizing.to_lengths(20, 10), vec![20, 0]);
    assert_eq!(sizing.to_lengths(30, 10), vec![20, 0]);
    assert_eq!(sizing.to_lengths(40, 10), vec![20, 10]);
    assert_eq!(sizing.to_lengths(110, 10), vec![50, 50]);

    let sizing: Sizing = vec![Size::relative(500_000).at_least(10), Size::exact(10)].into();
    assert_eq!(sizing.to_lengths(50, 0), vec![25, 10]);
    assert_eq!(sizing.to_lengths(30, 0), vec![15, 10]);
    assert_eq!(sizing.to_lengths(20, 0), vec![10, 10]);
    assert_eq!(sizing.to_lengths(10, 0), vec![10, 10]);
}

#[test]
fn empty_list_yields_empty_output() {
    let sizing: Sizing = vec![].into();
    assert_eq!(sizing.to_lengths(0, 0), Vec::<i64>::new());
    assert_eq!(sizing.to_lengths(1000, 25), Vec::<i64>::new());
    assert_eq!(sizing.to_lengths(-40, 7), Vec::<i64>::new());
}

#[test]
fn exact_sizes_ignore_total_and_spacing() {
    let sizing: Sizing = vec![Size::exact(7), Size::exact(3), Size::exact(0)].into();
    let expected = vec![7, 3, 0];
    assert_eq!(sizing.to_lengths(100, 5), expected);
    assert_eq!(sizing.to_lengths(0, 0), expected);
    assert_eq!(sizing.to_lengths(-20, 100), expected);
    assert_eq!(sizing.to_lengths(3, 1), expected);
}

#[test]
fn fraction_out_of_range_is_rejected() {
    assert!(Size::try_relative(1_500_000).is_none());
    assert!(Size::try_relative(-100_000).is_none());
    let quarter = Size::try_relative(250_000).expect("a quarter is a valid fraction");
    let sizing: Sizing = vec![quarter].into();
    assert_eq!(sizing.to_lengths(100, 0), vec![25]);
}

#[test]
fn output_matches_input_order_and_length() {
    let sizing: Sizing = vec![
        Size::exact(5),
        Size::remainder(),
        Size::initial(8),
        Size::remainder().at_least(3),
    ]
    .into();
    let out = sizing.to_lengths(100, 0);
    assert_eq!(out.len(), 4);
    // budget 100 - 13 = 87, shared 43 each; order follows the policy list
    assert_eq!(out, vec![5, 43, 8, 43]);
}

#[test]
fn remainder_slots_grow_with_total() {
    let mut sizing = Sizing::default();
    sizing.add(Size::remainder().at_least(20));
    sizing.add(Size::exact(12));
    sizing.add(Size::remainder());
    sizing.add(Size::remainder().at_least(5));
    let mut previous: Option<Vec<i64>> = None;
    let mut total: i64 = -50;
    while total <= 200 {
        let current = sizing.to_lengths(total, 3);
        if let Some(prev) = previous {
            assert!(current[0] >= prev[0]);
            assert_eq!(current[1], 12);
            assert!(current[2] >= prev[2]);
            assert!(current[3] >= prev[3]);
        }
        previous = Some(current);
        total += 1;
    }
}

#[test]
fn no_slot_shrinks_with_total_beside_one_relative() {
    let sizing: Sizing = vec![
        Size::relative(500_000).at_least(10),
        Size::exact(10),
        Size::remainder().at_least(8),
        Size::remainder(),
    ]
    .into();
    let mut previous: Option<Vec<i64>> = None;
    let mut total: i64 = -30;
    while total <= 150 {
        let current = sizing.to_lengths(total, 2);
        if let Some(prev) = previous {
            for slot in 0..4 {
                assert!(current[slot] >= prev[slot]);
            }
            assert_eq!(current[1], 10);
        }
        previous = Some(current);
        total += 1;
    }
}

#[test]
fn every_remainder_excluded_keeps_minimums() {
    let sizing: Sizing = vec![
        Size::remainder().at_least(30),
        Size::remainder().at_least(40),
    ]
    .into();
    assert_eq!(sizing.to_lengths(20, 0), vec![30, 40]);
    assert_eq!(sizing.to_lengths(-5, 2), vec![30, 40]);
}

#[test]
fn remainder_maximum_caps_without_redistribution() {
    // the freed budget is not handed to the other slot: the exclusion pass
    // looks at minimums only
    let sizing: Sizing = vec![Size::remainder().at_most(10), Size::remainder()].into();
    assert_eq!(sizing.to_lengths(50, 0), vec![10, 25]);
}

#[test]
fn absolute_output_is_not_clamped_by_its_range() {
    // the range of an absolute slot only bounds interactive resizing
    let sizing: Sizing = vec![Size::initial(30).at_most(10)].into();
    assert_eq!(sizing.to_lengths(100, 0), vec![30]);
}

#[test]
fn negative_budget_degrades_to_zero_shares() {
    let sizing: Sizing = vec![Size::remainder(), Size::remainder()].into();
    assert_eq!(sizing.to_lengths(-10, 0), vec![0, 0]);
    let sizing: Sizing = vec![Size::exact(40), Size::remainder()].into();
    assert_eq!(sizing.to_lengths(10, 0), vec![40, 0]);
}

#[test]
fn shares_truncate_to_whole_points() {
    let sizing: Sizing = vec![Size::remainder(), Size::remainder()].into();
    assert_eq!(sizing.to_lengths(51, 0), vec![25, 25]);
    let sizing: Sizing = vec![Size::relative(333_333)].into();
    assert_eq!(sizing.to_lengths(10, 0), vec![3]);
}

#[test]
fn builders_and_accessors() {
    let s = Size::exact(15);
    assert!(s.is_absolute());
    assert!(!s.is_relative());
    assert!(!s.is_remainder());
    assert_eq!(s.range().min, 15);
    assert_eq!(s.range().max, 15);

    let s = Size::initial(15);
    assert!(s.is_absolute());
    assert_eq!(s.range().min, 0);
    assert_eq!(s.range().max, i64::MAX);

    let s = Size::relative(400_000);
    assert!(s.is_relative());

    let s = Size::remainder().at_least(4).at_most(9);
    assert!(s.is_remainder());
    assert_eq!(s.range().min, 4);
    assert_eq!(s.range().max, 9);

    let s = Size::remainder().with_range(slot_sizing::rangei::Rangei::new(2, 6));
    assert_eq!(s.range().min, 2);
    assert_eq!(s.range().max, 6);

    let mut s = Size::remainder();
    s.range_mut().min = 11;
    assert_eq!(s.range().min, 11);
    assert_eq!(s.range().max, i64::MAX);
}

#[test]
fn clamp_restricts_into_range() {
    let r = slot_sizing::rangei::Rangei::new(10, 20);
    assert_eq!(r.clamp(5), 10);
    assert_eq!(r.clamp(15), 15);
    assert_eq!(r.clamp(50), 20);
}

#[test]
fn whole_fraction_takes_the_total() {
    let sizing: Sizing = vec![Size::relative(1_000_000)].into();
    assert_eq!(sizing.to_lengths(37, 0), vec![37]);
}

#[test]
fn extreme_bounds_are_handled() {
    let sizing: Sizing = vec![Size::exact(MAX_POINTS), Size::remainder()].into();
    assert_eq!(sizing.to_lengths(MAX_POINTS, MAX_POINTS), vec![MAX_POINTS, 0]);
    let sizing: Sizing = vec![Size::remainder()].into();
    assert_eq!(sizing.to_lengths(MAX_POINTS, 0), vec![MAX_POINTS]);
    assert_eq!(sizing.to_lengths(-MAX_POINTS, 0), vec![0]);
}
