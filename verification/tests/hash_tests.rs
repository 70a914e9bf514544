use cadastre::geom::{Coord, Geometry, Polygon};
use cadastre::hash::{geometry_hash, hash_to_hex};
use cadastre::hashes_equal;

fn c(x: i64, y: i64) -> Coord {
    Coord { x: x * 1_000_000_000, y: y * 1_000_000_000 }
}

fn square_from(start: usize) -> Geometry {
    let base = [c(0, 0), c(1, 0), c(1, 1), c(0, 1)];
    let mut ring: Vec<Coord> = Vec::new();
    for i in 0..4 {
        ring.push(base[(start + i) % 4]);
    }
    ring.push(base[start % 4]);
    Geometry::Polygon(Polygon { exterior: ring, interiors: Vec::new() })
}

#[test]
fn test_same_geometry_same_hash() {
    let p1 = Geometry::Point(c(1, 2));
    let p2 = Geometry::Point(c(1, 2));
    assert_eq!(geometry_hash(&p1), geometry_hash(&p2));
}

#[test]
fn test_different_geometry_different_hash() {
    let p1 = Geometry::Point(c(1, 2));
    let p2 = Geometry::Point(c(1, 3));
    assert_ne!(geometry_hash(&p1), geometry_hash(&p2));
}

#[test]
fn test_polygon_hash() {
    let poly = Geometry::Polygon(Polygon {
        exterior: vec![c(0, 0), c(1, 0), c(1, 1), c(0, 0)],
        interiors: Vec::new(),
    });
    let hash = geometry_hash(&poly);
    assert_eq!(hash.len(), 32);
}

#[test]
fn test_polygon_same_hash_different_start() {
    let hash0 = geometry_hash(&square_from(0));
    let hash1 = geometry_hash(&square_from(1));
    let hash3 = geometry_hash(&square_from(3));

    assert_eq!(
        hash0, hash1,
        "Same polygon starting at different vertex should have same hash"
    );
    assert_eq!(
        hash0, hash3,
        "Same polygon starting at different vertex should have same hash"
    );
}

#[test]
fn sub_quantum_nudge_keeps_the_point_hash() {
    // A point on the quantisation grid, nudged by under half a quantum.
    let a = Geometry::Point(Coord { x: 1_000_000_000, y: 2_000_000_000 });
    let b = Geometry::Point(Coord { x: 1_000_000_499, y: 1_999_999_501 });
    assert_eq!(geometry_hash(&a), geometry_hash(&b));
}

#[test]
fn hex_rendering_is_two_lowercase_digits_per_byte() {
    let mut h = [0u8; 32];
    h[0] = 0xbe;
    h[1] = 0xef;
    let hex = hash_to_hex(&h);
    assert_eq!(hex.len(), 64);
    assert!(hex.starts_with("beef"));
    assert!(hex.ends_with("00"));
}

#[test]
fn hashes_equal_compares_all_bytes() {
    let a = [7u8; 32];
    let mut b = [7u8; 32];
    assert!(hashes_equal(&a, &b));
    b[31] = 8;
    assert!(!hashes_equal(&a, &b));
}
