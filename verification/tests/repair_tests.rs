use cadastre::builder::convex_hull_fallback;
use cadastre::geom::Coord;
use cadastre::repair::reconstruct_rings;
use cadastre::topology::organize_rings;

fn c(x: i64, y: i64) -> Coord {
    Coord { x: x * 1_000_000_000, y: y * 1_000_000_000 }
}

#[test]
fn test_reconstruct_simple_ring() {
    let arcs = vec![
        vec![c(0, 0), c(1, 0)],
        vec![c(1, 0), c(1, 1)],
        vec![c(1, 1), c(0, 1)],
        vec![c(0, 1), c(0, 0)],
    ];

    let result = reconstruct_rings(&arcs);
    assert!(result.is_ok());
    let rings = result.unwrap();
    assert_eq!(rings.len(), 1);
}

#[test]
fn test_self_closing_arc() {
    let arcs = vec![vec![c(0, 0), c(1, 0), c(1, 1), c(0, 0)]];

    let result = reconstruct_rings(&arcs);
    assert!(result.is_ok());
    let rings = result.unwrap();
    assert_eq!(rings.len(), 1);
}

#[test]
fn four_arcs_make_one_closed_ring() {
    // The same square handed over in a scrambled order still closes.
    let arcs = vec![
        vec![c(1, 1), c(0, 1)],
        vec![c(0, 1), c(0, 0)],
        vec![c(0, 0), c(1, 0)],
        vec![c(1, 0), c(1, 1)],
    ];
    let rings = reconstruct_rings(&arcs).unwrap();
    assert_eq!(rings.len(), 1);
    let ring = &rings[0];
    assert_eq!(ring.len(), 5);
    assert_eq!(ring.first(), ring.last());
}

#[test]
fn unconnected_short_arcs_fail_repair() {
    let arcs = vec![vec![c(0, 0), c(1, 0)], vec![c(5, 5), c(6, 5)]];
    assert!(reconstruct_rings(&arcs).is_err());
}

#[test]
fn test_organize_single_ring() {
    let ring = vec![c(0, 0), c(1, 0), c(1, 1), c(0, 0)];

    let polygons = organize_rings(vec![ring]);
    assert_eq!(polygons.len(), 1);
    assert!(polygons[0].interiors.is_empty());
}

#[test]
fn outer_square_takes_inner_square_as_hole() {
    let outer = vec![c(0, 0), c(10, 0), c(10, 10), c(0, 10), c(0, 0)];
    let inner = vec![c(2, 2), c(4, 2), c(4, 4), c(2, 4), c(2, 2)];
    let polygons = organize_rings(vec![outer.clone(), inner.clone()]);
    assert_eq!(polygons.len(), 1);
    assert_eq!(polygons[0].exterior, outer);
    assert_eq!(polygons[0].interiors.len(), 1);
    assert_eq!(polygons[0].interiors[0], inner);
}

#[test]
fn test_convex_hull() {
    let arcs = vec![vec![c(0, 0), c(1, 0)], vec![Coord { x: 500_000_000, y: 1_000_000_000 }]];

    let result = convex_hull_fallback(&arcs);
    assert!(result.is_ok());
}

#[test]
fn convex_hull_needs_three_points() {
    let arcs = vec![vec![c(0, 0), c(1, 0)]];
    assert!(convex_hull_fallback(&arcs).is_err());
}

#[test]
fn remove_dead_ends_drops_the_spur() {
    let mut arcs = vec![
        vec![c(0, 0), c(1, 0)],
        vec![c(1, 0), c(1, 1)],
        vec![c(1, 1), c(0, 0)],
        vec![c(1, 1), c(9, 9)],
    ];
    cadastre::topology::remove_dead_ends(&mut arcs);
    assert_eq!(arcs.len(), 3);
}
