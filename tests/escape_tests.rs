use mandelbrot::escape::EscapeCounter;
use num::complex::Complex;

fn diverge(c: Complex<f64>, cap: u32) -> u32 {
    let mut z: Complex<f64> = Complex { re: 0.0, im: 0.0 };
    let mut counter = EscapeCounter::new(cap);
    while !counter.is_finished() {
        z = z * z + c;
        counter.record(z.norm() > 2.0);
    }
    counter.iterations()
}

#[test]
fn origin_reaches_cap() {
    assert_eq!(diverge(Complex { re: 0.0, im: 0.0 }, 500), 500);
}

#[test]
fn far_point_escapes_first() {
    assert_eq!(diverge(Complex { re: 3.0, im: 0.0 }, 500), 1);
}

#[test]
fn escape_after_a_few_steps() {
    // 1, 2, 5: |z| exceeds 2 after the third step
    assert_eq!(diverge(Complex { re: 1.0, im: 0.0 }, 500), 3);
    assert_eq!(diverge(Complex { re: 1.0, im: 0.0 }, 2), 2);
}

#[test]
fn cap_of_one() {
    assert_eq!(diverge(Complex { re: 0.0, im: 0.0 }, 1), 1);
    assert_eq!(diverge(Complex { re: 5.0, im: 5.0 }, 1), 1);
}

#[test]
fn counts_stay_within_cap() {
    for cap in 1..30u32 {
        for i in -20..20 {
            for j in -20..20 {
                let n = diverge(Complex { re: i as f64 / 8.0, im: j as f64 / 8.0 }, cap);
                assert!(1 <= n && n <= cap);
            }
        }
    }
}

#[test]
fn counter_stops_on_escape() {
    let mut c = EscapeCounter::new(10);
    assert!(!c.is_finished());
    c.record(false);
    c.record(false);
    assert!(!c.is_finished());
    c.record(true);
    assert!(c.is_finished());
    assert_eq!(c.iterations(), 3);
}
