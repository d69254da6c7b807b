//! Tests of the exponentially weighted moving average.
//!
//! Values are fixed-point: microseconds-scale integers, `SCALE` = 1.0.

use snapshot::ExponentialMovingAverage;
use snapshot::SCALE;

#[test]
fn test_ema() {
    // Window of 10 samples: alpha = 2/11.
    let mut ema = ExponentialMovingAverage::new(10, 1);
    ema.add(3 * SCALE);

    assert_eq!(ema.value, Some(3 * SCALE));
    assert_eq!(ema.var, 0);

    ema.reset();
    ema.add(5 * SCALE);
    ema.add(6 * SCALE);

    // Mean 5.181818... and variance 0.148760..., exact in fixed point
    // (5.1818 and 0.1488 at four decimal places).
    assert_eq!(ema.value, Some(5_181_818));
    assert_eq!(ema.var, 148_760_330_578);

    ema.reset();
    ema.add(5 * SCALE);
    ema.add(6 * SCALE);
    ema.add(7 * SCALE);

    // Variance 0.613482... (0.6135 at four decimals).
    assert_eq!(ema.var, 613_482_783_961);

    ema.reset();
    ema.add(5 * SCALE);
    ema.add(600 * SCALE);
    ema.add(70 * SCALE);

    // Standard deviation 208.247047, exact in fixed point.
    assert_eq!(ema.std_dev, 208_247_047);
}

#[test]
fn ema_seed_after_reset() {
    // A sample fed to a reset average only seeds the mean; the variance
    // and standard deviation stay zero.
    let mut ema = ExponentialMovingAverage::new(5, 1);
    ema.add(7 * SCALE);
    ema.add(9 * SCALE);
    ema.reset();
    assert_eq!(ema.value, None);
    assert_eq!(ema.var, 0);
    assert_eq!(ema.std_dev, 0);
    ema.add(-42 * SCALE);
    assert_eq!(ema.value, Some(-42 * SCALE));
    assert_eq!(ema.var, 0);
    assert_eq!(ema.std_dev, 0);
}

#[test]
fn ema_constant_signal_has_no_variance() {
    let mut ema = ExponentialMovingAverage::new(10, 1);
    for _ in 0..20 {
        ema.add(250_000);
    }
    assert_eq!(ema.value, Some(250_000));
    assert_eq!(ema.var, 0);
    assert_eq!(ema.std_dev, 0);
}

#[test]
fn ema_rational_window() {
    // A window of 2_000_000/200_000 = 10 samples behaves exactly like the
    // integer window 10.
    let mut a = ExponentialMovingAverage::new(10, 1);
    let mut b = ExponentialMovingAverage::new(2_000_000, 200_000);
    for v in [5 * SCALE, 6 * SCALE, 7 * SCALE] {
        a.add(v);
        b.add(v);
    }
    assert_eq!(a.value, b.value);
    assert_eq!(a.var, b.var);
    assert_eq!(a.std_dev, b.std_dev);
}
