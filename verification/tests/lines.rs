use bresenham::Bresenham;
use bresenham::BresenhamInclusive;
use bresenham::Octant;

#[test]
fn test_empty() {
    let bi = Bresenham::new((0, 0), (0, 0));
    let res: Vec<(isize, isize)> = bi.collect_points();
    assert_eq!(res, []);

    let bi = BresenhamInclusive::new((0, 0), (0, 0));
    let res: Vec<(isize, isize)> = bi.collect_points();
    assert_eq!(res, [(0, 0)]);

    let mut bi = BresenhamInclusive::new((0, 1), (0, 1));
    bi.advance();
    let res: Vec<(isize, isize)> = bi.collect_points();
    assert_eq!(res, []);
}

#[test]
fn test_wp_example() {
    let bi = Bresenham::new((0, 1), (6, 4));
    let res: Vec<(isize, isize)> = bi.collect_points();
    assert_eq!(res, [(0, 1), (1, 1), (2, 2), (3, 2), (4, 3), (5, 3)]);

    let bi = BresenhamInclusive::new((0, 1), (6, 4));
    let res: Vec<(isize, isize)> = bi.collect_points();
    assert_eq!(
        res,
        [(0, 1), (1, 1), (2, 2), (3, 2), (4, 3), (5, 3), (6, 4)]
    )
}

#[test]
fn test_inverse_wp() {
    let bi = Bresenham::new((6, 4), (0, 1));
    let res: Vec<(isize, isize)> = bi.collect_points();
    assert_eq!(res, [(6, 4), (5, 4), (4, 3), (3, 3), (2, 2), (1, 2)]);

    let bi = BresenhamInclusive::new((6, 4), (0, 1));
    let res: Vec<(isize, isize)> = bi.collect_points();
    assert_eq!(
        res,
        [(6, 4), (5, 4), (4, 3), (3, 3), (2, 2), (1, 2), (0, 1)]
    );
}

#[test]
fn test_straight_hline() {
    let bi = Bresenham::new((2, 3), (5, 3));
    let res: Vec<(isize, isize)> = bi.collect_points();
    assert_eq!(res, [(2, 3), (3, 3), (4, 3)]);

    let bi = BresenhamInclusive::new((2, 3), (5, 3));
    let res: Vec<(isize, isize)> = bi.collect_points();
    assert_eq!(res, [(2, 3), (3, 3), (4, 3), (5, 3)]);
}

#[test]
fn test_straight_vline() {
    let bi = Bresenham::new((2, 3), (2, 6));
    let res: Vec<(isize, isize)> = bi.collect_points();
    assert_eq!(res, [(2, 3), (2, 4), (2, 5)]);

    let bi = BresenhamInclusive::new((2, 3), (2, 6));
    let res: Vec<(isize, isize)> = bi.collect_points();
    assert_eq!(res, [(2, 3), (2, 4), (2, 5), (2, 6)]);
}

#[test]
fn test_next_matches_collect() {
    let mut it = Bresenham::new((-3, 7), (4, -2));
    let mut stepped: Vec<(isize, isize)> = Vec::new();
    while let Some(p) = it.next() {
        stepped.push(p);
    }
    let collected = Bresenham::new((-3, 7), (4, -2)).collect_points();
    assert_eq!(stepped, collected);

    let mut it = BresenhamInclusive::new((-3, 7), (4, -2));
    let mut stepped: Vec<(isize, isize)> = Vec::new();
    while let Some(p) = it.next() {
        stepped.push(p);
    }
    let collected = BresenhamInclusive::new((-3, 7), (4, -2)).collect_points();
    assert_eq!(stepped, collected);
}

#[test]
fn test_exhausted_next_stays_none() {
    let mut it = Bresenham::new((1, 1), (3, 2));
    while it.next().is_some() {}
    assert_eq!(it.next(), None);
    assert_eq!(it.next(), None);

    let mut it = BresenhamInclusive::new((1, 1), (3, 2));
    while it.next().is_some() {}
    assert_eq!(it.next(), None);
}

#[test]
fn test_octant_round_trip() {
    // One direction per octant tag, in tag order 0..=7.
    let dirs: [(isize, isize); 8] = [
        (5, 2),
        (2, 5),
        (-2, 5),
        (-5, 2),
        (-5, -2),
        (-2, -5),
        (2, -5),
        (5, -2),
    ];
    let samples: [(isize, isize); 5] = [(0, 0), (3, 1), (-4, 9), (7, -6), (-2, -8)];
    for dir in dirs {
        let oct = Octant::from_points((0, 0), dir);
        for p in samples {
            assert_eq!(oct.from_octant0(oct.to_octant0(p)), p);
            assert_eq!(oct.to_octant0(oct.from_octant0(p)), p);
        }
    }
}

#[test]
fn test_octant_canonical_is_shallow() {
    let dirs: [(isize, isize); 8] = [
        (5, 2),
        (2, 5),
        (-2, 5),
        (-5, 2),
        (-5, -2),
        (-2, -5),
        (2, -5),
        (5, -2),
    ];
    let start: (isize, isize) = (1, -3);
    for dir in dirs {
        let end: (isize, isize) = (start.0 + dir.0, start.1 + dir.1);
        let oct = Octant::from_points(start, end);
        let c0 = oct.to_octant0(start);
        let c1 = oct.to_octant0(end);
        let dx = c1.0 - c0.0;
        let dy = c1.1 - c0.1;
        assert!(dx >= 0);
        assert!(0 <= dy && dy <= dx);
        assert_eq!(dx, 5);
        assert_eq!(dy, 2);
    }
}

#[test]
fn test_inclusive_endpoints() {
    let pairs: [((isize, isize), (isize, isize)); 6] = [
        ((0, 1), (6, 4)),
        ((6, 4), (0, 1)),
        ((-5, 3), (2, -9)),
        ((2, -9), (-5, 3)),
        ((4, 4), (4, 4)),
        ((-1, 0), (-1, 8)),
    ];
    for (a, b) in pairs {
        let pts = BresenhamInclusive::new(a, b).collect_points();
        assert_eq!(*pts.first().unwrap(), a);
        assert_eq!(*pts.last().unwrap(), b);
    }
}

#[test]
fn test_walk_lengths() {
    let pairs: [((isize, isize), (isize, isize), usize); 5] = [
        ((0, 1), (6, 4), 6),
        ((6, 4), (0, 1), 6),
        ((2, 3), (5, 3), 3),
        ((2, 3), (2, 6), 3),
        ((-3, -4), (5, 7), 11),
    ];
    for (a, b, len) in pairs {
        assert_eq!(Bresenham::new(a, b).collect_points().len(), len);
        assert_eq!(BresenhamInclusive::new(a, b).collect_points().len(), len + 1);
    }
}

#[test]
fn test_points_match_rounded_line() {
    // Each produced point is the ideal line rounded down in canonical space:
    // the k-th inclusive point is (x0 + k, y0 + k * dy / dx), mapped back.
    let pairs: [((isize, isize), (isize, isize)); 5] = [
        ((0, 1), (6, 4)),
        ((6, 4), (0, 1)),
        ((-5, 3), (2, -9)),
        ((3, -1), (-4, 6)),
        ((2, 3), (2, 6)),
    ];
    for (a, b) in pairs {
        let oct = Octant::from_points(a, b);
        let c0 = oct.to_octant0(a);
        let c1 = oct.to_octant0(b);
        let dx = c1.0 - c0.0;
        let dy = c1.1 - c0.1;
        let walked = BresenhamInclusive::new(a, b).collect_points();
        assert_eq!(walked.len(), (dx + 1) as usize);
        for k in 0..=dx {
            let ideal = oct.from_octant0((c0.0 + k, c0.1 + k * dy / dx));
            assert_eq!(walked[k as usize], ideal);
        }
    }
}

#[test]
fn test_reversal_changes_interior() {
    // Walking the same segment in the two directions keeps the endpoints but
    // may pick different interior points: the reversed forward walk is not
    // the backward walk.
    let forward = BresenhamInclusive::new((0, 1), (6, 4)).collect_points();
    let backward = BresenhamInclusive::new((6, 4), (0, 1)).collect_points();
    let mut reversed = forward.clone();
    reversed.reverse();
    assert_ne!(reversed, backward);
}
