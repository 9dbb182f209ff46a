use sphere_n::interp::interpolate;
use sphere_n::trig::{cos_fx, sin_fx, HALF_PI_FX, PI_FX, TWO_PI_FX};
use sphere_n::{initialize_global_arrays, CdfTableCache, ErrorKind, SCALE};

fn to_f64(x: i64) -> f64 {
    x as f64 / SCALE as f64
}

// Every cumulative table is non-decreasing across its grid, for all
// orders up to twelve.
#[test]
fn test_table_monotone() {
    let mut cache = CdfTableCache::new();
    for n in 0..=12i64 {
        let t = cache.get_table(n).unwrap();
        assert_eq!(t.len(), 300);
        for i in 0..299 {
            assert!(t[i] <= t[i + 1], "order {} dips at {}", n, i);
        }
    }
}

// Base cases: the order-0 table is the domain grid itself, and the
// order-1 table is the negated cosine of the grid, to within 1e-12.
#[test]
fn test_table_base_cases() {
    let g = initialize_global_arrays();
    let mut cache = CdfTableCache::new();
    let t0 = cache.get_table(0).unwrap();
    assert_eq!(t0, g.x);
    let t1 = cache.get_table(1).unwrap();
    for i in 0..300 {
        assert!((to_f64(t1[i]) - to_f64(g.neg_cosine[i])).abs() < 1e-12);
    }
}

// Cache reproducibility: independent caches, and repeated calls on one
// cache, return identical tables.
#[test]
fn test_cache_reproducible() {
    let mut c1 = CdfTableCache::new();
    let mut c2 = CdfTableCache::new();
    let a = c1.get_table(7).unwrap();
    let b = c2.get_table(7).unwrap();
    assert_eq!(a, b);
    let c = c1.get_table(7).unwrap();
    assert_eq!(a, c);
    // filling in a different order changes nothing
    let mut c3 = CdfTableCache::new();
    c3.get_table(11).unwrap();
    assert_eq!(c3.get_table(7).unwrap(), a);
}

// A negative order is invalid.
#[test]
fn test_table_invalid_order() {
    let mut cache = CdfTableCache::new();
    assert_eq!(cache.get_table(-1).unwrap_err(), ErrorKind::InvalidDimension);
    assert_eq!(cache.get_table(-7).unwrap_err(), ErrorKind::InvalidDimension);
}

// The primitive arrays: 300 samples over [0, π], with exact endpoints.
#[test]
fn test_globals() {
    let g = initialize_global_arrays();
    assert_eq!(g.x.len(), 300);
    assert_eq!(g.neg_cosine.len(), 300);
    assert_eq!(g.sine.len(), 300);
    assert_eq!(g.x[0], 0);
    assert_eq!(g.x[299], PI_FX);
    assert_eq!(g.sine[0], 0);
    assert_eq!(g.neg_cosine[0], -SCALE);
    assert!((to_f64(g.neg_cosine[299]) - 1.0).abs() < 1e-9);
    assert!(to_f64(g.sine[299]).abs() < 1e-9);
}

// The inverse lookup on a small exact table: interior interpolation,
// exact hits, and clamping at both ends.
#[test]
fn test_interpolate_exact() {
    let tp: Vec<i64> = vec![0, 10, 20, 30];
    let grid: Vec<i64> = vec![0, 100, 200, 300];
    assert_eq!(interpolate(&tp, &grid, 5), 50);
    assert_eq!(interpolate(&tp, &grid, 20), 200);
    assert_eq!(interpolate(&tp, &grid, 27), 270);
    assert_eq!(interpolate(&tp, &grid, -1), 0);
    assert_eq!(interpolate(&tp, &grid, 0), 0);
    assert_eq!(interpolate(&tp, &grid, 30), 300);
    assert_eq!(interpolate(&tp, &grid, 95), 300);
}

// Fixed-point sine and cosine at characteristic angles, and the
// Pythagorean identity across the quadrants, to within 1e-9.
#[test]
fn test_trig_values() {
    assert_eq!(cos_fx(0), SCALE);
    assert_eq!(sin_fx(0), 0);
    assert!((to_f64(sin_fx(HALF_PI_FX)) - 1.0).abs() < 1e-9);
    assert!(to_f64(cos_fx(HALF_PI_FX)).abs() < 1e-9);
    assert!((to_f64(cos_fx(PI_FX)) + 1.0).abs() < 1e-9);
    assert!(to_f64(sin_fx(PI_FX)).abs() < 1e-9);
    assert!((to_f64(cos_fx(TWO_PI_FX)) - 1.0).abs() < 1e-9);
    let mut x: i64 = 0;
    while x < TWO_PI_FX {
        let s = to_f64(sin_fx(x));
        let c = to_f64(cos_fx(x));
        assert!((s * s + c * c - 1.0).abs() < 1e-9);
        x += TWO_PI_FX / 37;
    }
}
