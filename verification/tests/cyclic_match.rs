use cyclic_match::Coord;
use cyclic_match::CyclicMatch;
use cyclic_match::LineString;

fn coord(x: f64, y: f64) -> Coord {
    Coord { x: x.to_bits(), y: y.to_bits() }
}

#[test]
fn test_cyclic_match() {
    let a = coord(0., 0.);
    let b = coord(0., 10.);
    let c = coord(10., 10.);
    let d = coord(0., 10.);
    let e = coord(0.5, 0.5);

    let mut ls_x = LineString(vec![a, b, c, d]);
    ls_x.close();
    let mut ls_y = LineString(vec![c, d, a, b]);
    ls_y.close();

    assert!(ls_x.is_cyclic_match(ls_x.clone()));
    assert!(ls_x.is_cyclic_match(ls_y));

    let one_less = LineString(vec![a, b, c]);
    assert!(!ls_x.is_cyclic_match(one_less));

    let one_more = LineString(vec![a, b, c, d, e]);
    assert!(!ls_x.is_cyclic_match(one_more));

    let a_cyclic = LineString(vec![a, d, c, b]);
    assert!(!ls_x.is_cyclic_match(a_cyclic));
}

#[test]
fn reflexive_on_closed_rings() {
    let ring = LineString(vec![
        coord(0., 0.),
        coord(4., 0.),
        coord(4., 3.),
        coord(2., 5.),
        coord(0., 3.),
        coord(0., 0.),
    ]);
    assert!(ring.is_cyclic_match(ring.clone()));

    let tiny = LineString(vec![coord(1., 2.), coord(1., 2.)]);
    assert!(tiny.is_cyclic_match(tiny.clone()));
}

#[test]
fn rotation_matches_in_both_orders() {
    let p0 = coord(0., 0.);
    let p1 = coord(1., 0.);
    let p2 = coord(1., 1.);
    let p3 = coord(0., 1.);
    let ring = LineString(vec![p0, p1, p2, p3, p0]);

    let rotations = [
        LineString(vec![p1, p2, p3, p0, p1]),
        LineString(vec![p2, p3, p0, p1, p2]),
        LineString(vec![p3, p0, p1, p2, p3]),
    ];
    for rotated in rotations {
        assert!(ring.is_cyclic_match(rotated.clone()));
        assert!(rotated.is_cyclic_match(ring.clone()));
    }
}

#[test]
fn length_mismatch_is_never_a_match() {
    let p0 = coord(0., 0.);
    let p1 = coord(1., 0.);
    let p2 = coord(1., 1.);
    let p3 = coord(0., 1.);
    let square = LineString(vec![p0, p1, p2, p3, p0]);
    let triangle = LineString(vec![p0, p1, p2, p0]);
    assert!(!square.is_cyclic_match(triangle.clone()));
    assert!(!triangle.is_cyclic_match(square));
}

#[test]
fn open_line_strings_never_match() {
    let p0 = coord(0., 0.);
    let p1 = coord(1., 0.);
    let p2 = coord(1., 1.);
    let p3 = coord(0., 1.);
    let closed = LineString(vec![p0, p1, p2, p0]);
    // Same length, same leading points, but the last does not close it.
    let open = LineString(vec![p0, p1, p2, p3]);
    assert!(!closed.is_cyclic_match(open.clone()));
    assert!(!open.is_cyclic_match(closed.clone()));
    assert!(!open.is_cyclic_match(open.clone()));
}

#[test]
fn interior_swap_breaks_the_cycle() {
    let p0 = coord(0., 0.);
    let p1 = coord(1., 0.);
    let p2 = coord(1., 1.);
    let p3 = coord(0., 1.);
    let p4 = coord(-1., 0.5);
    let ring = LineString(vec![p0, p1, p2, p3, p4, p0]);
    // Swap the non-adjacent interior points p1 and p3.
    let swapped = LineString(vec![p0, p3, p2, p1, p4, p0]);
    assert!(!ring.is_cyclic_match(swapped));
}

#[test]
fn reversed_winding_is_not_a_match() {
    let p0 = coord(0., 0.);
    let p1 = coord(1., 0.);
    let p2 = coord(1., 1.);
    let ring = LineString(vec![p0, p1, p2, p0]);
    let reversed = LineString(vec![p0, p2, p1, p0]);
    assert!(!ring.is_cyclic_match(reversed));
}

#[test]
fn degenerate_line_strings_never_match() {
    let p0 = coord(0., 0.);
    let empty = LineString(vec![]);
    let single = LineString(vec![p0]);
    assert!(!empty.is_cyclic_match(LineString(vec![])));
    assert!(!single.is_cyclic_match(LineString(vec![p0])));
    assert!(!empty.is_cyclic_match(LineString(vec![p0])));
}

#[test]
fn close_appends_the_first_coordinate_once() {
    let p0 = coord(0., 0.);
    let p1 = coord(1., 0.);
    let p2 = coord(1., 1.);

    let mut open = LineString(vec![p0, p1, p2]);
    open.close();
    assert!(open.is_closed());
    assert_eq!(open.coords_count(), 4);
    assert!(open.0[3] == p0);

    let mut already = LineString(vec![p0, p1, p2, p0]);
    already.close();
    assert_eq!(already.coords_count(), 4);
}

#[test]
fn is_closed_and_coords_count() {
    let p0 = coord(0., 0.);
    let p1 = coord(1., 0.);
    assert!(LineString(vec![]).is_closed());
    assert!(LineString(vec![p0]).is_closed());
    assert!(!LineString(vec![p0, p1]).is_closed());
    assert!(LineString(vec![p0, p1, p0]).is_closed());
    assert_eq!(LineString(vec![p0, p1, p0]).coords_count(), 3);
}
