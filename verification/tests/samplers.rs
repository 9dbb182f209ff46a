use lds_rs::PRIME_TABLE;
use sphere_n::{
    CdfTableCache, CylindN, ErrorKind, Sphere3, Sphere3Hopf, SphereChain, SphereGen, SphereN,
    SCALE, VdCorput,
};

fn to_f64(x: i64) -> f64 {
    x as f64 / SCALE as f64
}

fn norm_sq(v: &[i64]) -> f64 {
    v.iter().map(|&x| to_f64(x) * to_f64(x)).sum()
}

fn close(a: f64, b: f64, eps: f64) -> bool {
    (a - b).abs() < eps
}

fn primes() -> Vec<usize> {
    PRIME_TABLE.iter().map(|&b| b as usize).collect()
}

#[test]
fn test_sphere3() {
    let base: [usize; 5] = [2, 3, 5, 7, 11];
    let mut cache = CdfTableCache::new();
    let mut sgen = Sphere3::new(&base, &mut cache).unwrap();
    sgen.reseed(10);
    for _i in 0..10 {
        sgen.pop();
    }
    let res = sgen.pop();
    assert!(close(to_f64(res[0]), -0.4797401941417802, 1e-6));
    assert!(close(to_f64(res[1]), 0.5799062768626047, 1e-6));
    assert!(close(to_f64(res[2]), -0.609958496658014, 1e-6));
    assert!(close(to_f64(res[3]), -0.24800945251109802, 1e-6));
}

#[test]
fn test_cylind_n() {
    let base = primes();
    let mut cgen = CylindN::new(5, &base).unwrap();
    cgen.reseed(0);
    for _i in 0..10 {
        cgen.pop_vec();
    }
    let res = cgen.pop_vec();
    assert!(close(to_f64(res[0]), 0.6284456558612375, 1e-6));
    assert!(close(to_f64(res[1]), 0.032662755534715766, 1e-6));
    assert!(close(to_f64(res[2]), 0.11758502909407893, 1e-6));
    assert!(close(to_f64(res[3]), -0.31367724756166177, 1e-6));
    assert!(close(to_f64(res[4]), 0.3180323054739925, 1e-6));
    assert!(close(to_f64(res[5]), 0.625, 1e-6));
}

#[test]
fn test_sphere_n() {
    let base = primes();
    let mut cache = CdfTableCache::new();
    let mut sgen = SphereN::new(6, &base, &mut cache).unwrap();
    sgen.reseed(0);
    let res = sgen.pop_vec();
    assert!(close(to_f64(res[0]), 0.361367435929826, 1e-6));
    assert!(close(to_f64(res[1]), 0.18966026119111232, 1e-6));
    assert!(close(to_f64(res[2]), -0.5807571031092044, 1e-6));
    assert!(close(to_f64(res[3]), 0.531081205910399, 1e-6));
    assert!(close(to_f64(res[4]), 0.4171022266758069, 1e-6));
    assert!(close(to_f64(res[5]), 0.20035526944272675, 1e-6));
    assert!(close(to_f64(res[6]), 6.123233995736766e-17, 1e-6));
}

#[test]
fn test_reseed() {
    let base = primes();
    let mut cache = CdfTableCache::new();
    let mut sgen = SphereN::new(6, &base, &mut cache).unwrap();
    sgen.reseed(0);
    let res1 = sgen.pop_vec();
    sgen.reseed(0);
    let res2 = sgen.pop_vec();
    assert_eq!(res1, res2);
}

#[test]
fn test_normalized() {
    let base = primes();
    let mut cache = CdfTableCache::new();
    let mut sgen = SphereN::new(6, &base, &mut cache).unwrap();
    sgen.reseed(0);
    let res = sgen.pop_vec();
    assert!(close(norm_sq(&res), 1.0, 1e-6));
}

#[test]
fn test_sphere_n_3d() {
    let base = primes();
    let mut cache = CdfTableCache::new();
    let mut sgen = SphereN::new(4, &base, &mut cache).unwrap();
    sgen.reseed(0);
    let res = sgen.pop_vec();
    assert!(close(to_f64(res[0]), 0.4809684718990214, 1e-6));
    assert!(close(to_f64(res[1]), 0.6031153874276115, 1e-6));
    assert!(close(to_f64(res[2]), -0.5785601510223212, 1e-6));
    assert!(close(to_f64(res[3]), 0.2649326520763179, 1e-6));
}

#[test]
fn test_cylind_n_2d() {
    let base = primes();
    let mut cgen = CylindN::new(2, &base).unwrap();
    cgen.reseed(0);
    let res = cgen.pop_vec();
    assert!(close(to_f64(res[0]), -0.5, 1e-6));
    assert!(close(to_f64(res[1]), 0.8660254037844387, 1e-6));
}

// The cylinder sampler's first point after a rewind to zero, to tight
// tolerance: the height coordinate is exactly zero in fixed point.
#[test]
fn test_cylind_first_point_tight() {
    let mut cgen = CylindN::new(2, &[2, 3]).unwrap();
    cgen.reseed(0);
    let res = cgen.pop_vec();
    assert_eq!(res.len(), 3);
    assert!(close(to_f64(res[0]), -0.5, 1e-9));
    assert!(close(to_f64(res[1]), 0.8660254037844387, 1e-9));
    assert_eq!(res[2], 0);
}

// End-to-end scenario: dimension 3, bases [2,3,5,7], reseed, discard
// ten points, then match the eleventh against fixed reference values.
#[test]
fn test_sphere_end_to_end() {
    let mut cache = CdfTableCache::new();
    let mut sgen = SphereN::new(3, &[2, 3, 5, 7], &mut cache).unwrap();
    sgen.reseed(10);
    for _i in 0..10 {
        sgen.pop_vec();
    }
    let res = sgen.pop_vec();
    assert_eq!(res.len(), 4);
    assert!(close(to_f64(res[0]), -0.4797401941417802, 1e-6));
    assert!(close(to_f64(res[1]), 0.5799062768626047, 1e-6));
    assert!(close(to_f64(res[2]), -0.609958496658014, 1e-6));
    assert!(close(to_f64(res[3]), -0.24800945251109802, 1e-6));
}

// Every point of every sphere sampler has n + 1 coordinates and unit
// norm to within 1e-9.
#[test]
fn test_sphere_unit_norm_all_dims() {
    let base = primes();
    for n in 2..=8usize {
        let mut cache = CdfTableCache::new();
        let mut sgen = SphereN::new(n, &base, &mut cache).unwrap();
        sgen.reseed(0);
        for _i in 0..20 {
            let res = sgen.pop_vec();
            assert_eq!(res.len(), n + 1);
            assert!(close(norm_sq(&res), 1.0, 1e-9));
        }
    }
}

// Every point of every cylinder sampler has n + 1 coordinates and unit
// norm to within 1e-9.
#[test]
fn test_cylind_unit_norm_all_dims() {
    let base = primes();
    for n in 2..=8usize {
        let mut cgen = CylindN::new(n, &base).unwrap();
        cgen.reseed(0);
        for _i in 0..20 {
            let res = cgen.pop_vec();
            assert_eq!(res.len(), n + 1);
            assert!(close(norm_sq(&res), 1.0, 1e-9));
        }
    }
}

// Reseeding erases history: the point after a rewind does not depend on
// how many pops came before, bit for bit.
#[test]
fn test_reseed_erases_history() {
    let base = primes();
    let mut cache = CdfTableCache::new();
    let mut sgen = SphereN::new(5, &base, &mut cache).unwrap();
    sgen.reseed(7);
    let a = sgen.pop_vec();
    for _i in 0..9 {
        sgen.pop_vec();
    }
    sgen.reseed(7);
    let b = sgen.pop_vec();
    assert_eq!(a, b);

    let mut cgen = CylindN::new(4, &base).unwrap();
    cgen.reseed(3);
    let a = cgen.pop_vec();
    for _i in 0..5 {
        cgen.pop_vec();
    }
    cgen.reseed(3);
    let b = cgen.pop_vec();
    assert_eq!(a, b);
}

// Strategy equivalence: the open-dispatch composition (generic levels
// over the capability trait) and the closed-variant composition, built
// from the same bases and seed, emit bit-identical sequences for 100
// consecutive points.
#[test]
fn test_strategy_equivalence() {
    let bases: [usize; 6] = [2, 3, 5, 7, 11, 13];
    let mut cache = CdfTableCache::new();
    let mut closed = SphereN::new(5, &bases, &mut cache).unwrap();
    let s3 = Sphere3::new(&[5, 7, 11], &mut cache).unwrap();
    let c4 = SphereChain::new(3, s3, &mut cache);
    let mut open = SphereChain::new(2, c4, &mut cache);
    assert_eq!(open.dimension(), 5);
    closed.reseed(0);
    open.reseed(0);
    for _i in 0..100 {
        assert_eq!(closed.pop_vec(), open.pop_vec());
    }
}

// Construction-time validation: a dimension below two, or too few
// bases, is rejected with the invalid-dimension error.
#[test]
fn test_invalid_dimension() {
    let mut cache = CdfTableCache::new();
    assert_eq!(
        SphereN::new(1, &[2, 3, 5], &mut cache).err().unwrap(),
        ErrorKind::InvalidDimension
    );
    assert_eq!(
        SphereN::new(3, &[2, 3, 5], &mut cache).err().unwrap(),
        ErrorKind::InvalidDimension
    );
    assert!(SphereN::new(3, &[2, 3, 5, 7], &mut cache).is_ok());
    assert_eq!(
        Sphere3::new(&[2, 3], &mut cache).err().unwrap(),
        ErrorKind::InvalidDimension
    );
    assert_eq!(CylindN::new(1, &[2, 3]).err().unwrap(), ErrorKind::InvalidDimension);
    assert_eq!(CylindN::new(3, &[2, 3]).err().unwrap(), ErrorKind::InvalidDimension);
    assert!(CylindN::new(2, &[2, 3]).is_ok());
}

// The van der Corput cursor emits exact digit-reversal rationals.
#[test]
fn test_vdc_exact() {
    let mut v = VdCorput::new(2);
    assert_eq!(v.pop(), SCALE / 2);
    assert_eq!(v.pop(), SCALE / 4);
    assert_eq!(v.pop(), 3 * (SCALE / 4));
    v.reseed(0);
    assert_eq!(v.pop(), SCALE / 2);
    let mut v3 = VdCorput::new(3);
    assert_eq!(v3.pop(), SCALE / 3);
    assert_eq!(v3.pop(), 2 * SCALE / 3);
}

// The Hopf-coordinate 3-sphere generator: four unit-norm coordinates,
// reproducible under reseeding.
#[test]
fn test_sphere3_hopf() {
    let mut hgen = Sphere3Hopf::new(2, 3, 5);
    hgen.reseed(0);
    let mut first = Vec::new();
    for i in 0..10 {
        let res = hgen.pop();
        assert_eq!(res.len(), 4);
        assert!(close(norm_sq(&res), 1.0, 1e-9));
        if i == 0 {
            first = res;
        }
    }
    hgen.reseed(0);
    assert_eq!(hgen.pop(), first);
}

// A sampler's table accessors return the same tables the cache serves.
#[test]
fn test_get_tp() {
    let base = primes();
    let mut cache = CdfTableCache::new();
    let sgen = SphereN::new(4, &base, &mut cache).unwrap();
    assert_eq!(sgen.get_tp().clone(), cache.get_table(3).unwrap());
    assert_eq!(
        sgen.get_tp_minus1().unwrap().clone(),
        cache.get_table(2).unwrap()
    );
    let sg3 = SphereN::new(3, &base, &mut cache).unwrap();
    assert!(sg3.get_tp_minus1().is_none());
}
