use evsieve::range::{Interval, IntervalPairIterator, IntervalSet};

#[test]
fn test_interval_iterator() {
    assert_eq!(
        IntervalPairIterator::new(
            vec![Interval::new(1, 2), Interval::new(3, 4), Interval::new(5, 6), Interval::new(7, 8)],
            vec![Interval::new(2, 3), Interval::new(5, 7), Interval::new(11, 13), Interval::new(17, 19), Interval::new(23, 29)],
        ).collect_pairs(),
        vec![
            (Interval::new(1, 2), Interval::new(2, 3)),
            (Interval::new(3, 4), Interval::new(2, 3)),
            (Interval::new(3, 4), Interval::new(5, 7)),
            (Interval::new(5, 6), Interval::new(5, 7)),
            (Interval::new(7, 8), Interval::new(5, 7)),
            (Interval::new(7, 8), Interval::new(11, 13)),
            (Interval::new(7, 8), Interval::new(17, 19)),
            (Interval::new(7, 8), Interval::new(23, 29)),
        ]
    );
}

#[test]
fn test_set() {
    assert_eq!(
        IntervalSet {
            intervals: vec![Interval::new(1, 2), Interval::new(3, 4), Interval::new(5, 6), Interval::new(7, 8)],
        }.intersect(&IntervalSet {
            intervals: vec![Interval::new(2, 3), Interval::new(5, 7), Interval::new(11, 13), Interval::new(17, 19), Interval::new(23, 29)]
        }).intervals,

        vec![Interval::new(2, 3), Interval::new(5, 7)]
    );

    assert_eq!(
        IntervalSet {
            intervals: vec![Interval::new(i32::MIN, -5), Interval::new(11, 20), Interval::new(30, i32::MAX)],
        }.intersect(&IntervalSet {
            intervals: vec![Interval::new(i32::MIN, 40), Interval::new(50, 60), Interval::new(100, i32::MAX)]
        }).intervals,

        vec![Interval::new(i32::MIN, -5), Interval::new(11, 20), Interval::new(30, 40), Interval::new(50, 60), Interval::new(100, i32::MAX)]
    );

    assert_eq!(
        IntervalSet {
            intervals: vec![Interval::new(1, 2), Interval::new(3, 4), Interval::new(5, 6), Interval::new(7, 8)],
        }.union(&IntervalSet {
            intervals: vec![Interval::new(2, 3), Interval::new(5, 7), Interval::new(11, 13), Interval::new(17, 19), Interval::new(23, 29)]
        }).intervals,

        vec![Interval::new(1, 8), Interval::new(11, 13), Interval::new(17, 19), Interval::new(23, 29)]
    );

    assert_eq!(
        IntervalSet {
            intervals: vec![Interval::new(i32::MIN, -5), Interval::new(11, 20), Interval::new(30, i32::MAX)],
        }.union(&IntervalSet {
            intervals: vec![Interval::new(i32::MIN, 40), Interval::new(50, 60), Interval::new(100, i32::MAX)]
        }).intervals,

        vec![Interval::new(i32::MIN, i32::MAX)]
    );
}

#[test]
fn range_unittest() {
    // Intersection test
    assert_eq!(
        Interval::new(Some(1), Some(3)).intersect(&Interval::new(Some(2), Some(4))),
        Some(Interval::new(Some(2), Some(3)))
    );
    assert_eq!(
        Interval::new(Some(2), Some(4)).intersect(&Interval::new(Some(1), Some(3))),
        Some(Interval::new(Some(2), Some(3)))
    );
    assert_eq!(
        Interval::new(Some(1), Some(3)).intersect(&Interval::new(Some(5), Some(7))),
        None,
    );
    assert_eq!(
        Interval::new(Some(1), Some(3)).intersect(&Interval::new(Some(-4), Some(-2))),
        None,
    );
    assert_eq!(
        Interval::new(Some(1), Some(3)).intersect(&Interval::new(Some(-4), None)),
        Some(Interval::new(Some(1), Some(3))),
    );

    //Bounding tests.
    assert_eq!(
        Interval::new(Some(1), Some(3)).bound_range(&Interval::new(Some(2), Some(4))),
        Interval::new(Some(2), Some(3))
    );
    assert_eq!(
        Interval::new(Some(1), Some(3)).bound_range(&Interval::new(None, Some(4))),
        Interval::new(Some(1), Some(3))
    );
    assert_eq!(
        Interval::new(Some(1), None).bound_range(&Interval::new(None, Some(4))),
        Interval::new(Some(1), Some(4))
    );
    assert_eq!(
        Interval::new(None, None).bound_range(&Interval::new(None, Some(4))),
        Interval::new(None, Some(4))
    );
    assert_eq!(
        Interval::new(None, Some(3)).bound_range(&Interval::new(Some(5), None)),
        Interval::new(Some(3), Some(3))
    );
    assert_eq!(
        Interval::new(Some(3), None).bound_range(&Interval::new(Some(-2), Some(1))),
        Interval::new(Some(3), Some(3))
    );

    // Delta-range tests.
    assert_eq!(
        Interval::new(Some(3), Some(7)).delta_range(),
        Interval::new(Some(-4), Some(4))
    );
    assert_eq!(
        Interval::new(Some(-12), Some(2)).delta_range(),
        Interval::new(Some(-14), Some(14))
    );
    assert_eq!(
        Interval::new(None, Some(7)).delta_range(),
        Interval::new(None, None)
    );
    assert_eq!(
        Interval::new(None, None).delta_range(),
        Interval::new(None, None)
    );
}
