//! Cross-checks of the fixed-point normal distribution against a
//! floating-point reference implementation.

use proto_sim::fixed::SCALE;
use proto_sim::normal::{cdf, inverse_cdf, CDF_CLAMP};
use statrs::distribution::{Continuous, ContinuousCDF, Normal};

fn reference() -> Normal {
    Normal::new(0.0, 1.0).unwrap()
}

#[test]
fn cdf_tracks_the_reference_distribution() {
    let n = reference();
    let mut worst: f64 = 0.0;
    let mut z = -6 * SCALE;
    while z <= 6 * SCALE {
        let ours = cdf(z) as f64 / SCALE as f64;
        let theirs = n.cdf(z as f64 / SCALE as f64);
        worst = worst.max((ours - theirs).abs());
        z += SCALE / 50;
    }
    // the rational approximation is good to a few parts in ten million
    assert!(worst < 3.0e-7, "worst error {}", worst);
}

#[test]
fn inverse_cdf_tracks_the_reference_distribution() {
    let n = reference();
    let mut p = SCALE / 10;
    while p <= SCALE * 9 / 10 {
        let ours = inverse_cdf(p) as f64 / SCALE as f64;
        let theirs = n.inverse_cdf(p as f64 / SCALE as f64);
        assert!((ours - theirs).abs() < 1.0e-5, "p {} ours {} theirs {}", p, ours, theirs);
        p += SCALE / 100;
    }
}

#[test]
fn inverse_cdf_inverts_cdf_to_one_unit() {
    let mut p = 1;
    while p < SCALE {
        let z = inverse_cdf(p);
        assert!(cdf(z) <= p);
        assert!(p <= cdf(z + 1));
        p += SCALE / 97;
    }
}

#[test]
fn cdf_saturates_at_the_clamp() {
    assert_eq!(cdf(-CDF_CLAMP), 0);
    assert_eq!(cdf(CDF_CLAMP), SCALE);
    assert_eq!(cdf(i128::MIN + 1), 0);
    assert_eq!(cdf(i128::MAX), SCALE);
    assert_eq!(cdf(0), SCALE / 2);
}

#[test]
fn density_is_positive_where_the_reference_is() {
    // a sanity anchor for the reference crate itself
    let n = reference();
    assert!(n.pdf(0.0) > 0.39);
}
