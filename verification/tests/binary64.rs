use touch_swipe::binary64::Binary64;

fn number(x: f64) -> Binary64 {
    Binary64::from_bits(x.to_bits())
}

/// Equal bit for bit; any NaN stands for NaN.
fn same(ours: Binary64, theirs: f64) -> bool {
    if theirs.is_nan() {
        ours.is_nan()
    } else {
        ours.to_bits() == theirs.to_bits()
    }
}

/// A fixed stream of bit patterns.
struct Stream(u64);

impl Stream {
    fn next(&mut self) -> u64 {
        self.0 ^= self.0 << 13;
        self.0 ^= self.0 >> 7;
        self.0 ^= self.0 << 17;
        self.0
    }

    /// A number of everyday size half of the time, any double otherwise.
    fn float(&mut self) -> f64 {
        let bits = self.next();
        match self.next() % 4 {
            0 => f64::from_bits(bits),
            1 => (bits % 2_000_000) as f64 / 256.0 - 3000.0,
            2 => f64::from_bits(bits % (1 << 54)),
            _ => f64::from_bits((bits & 0x800f_ffff_ffff_ffff) | ((1000 + bits % 50) << 52)),
        }
    }
}

const EDGES: [f64; 18] = [
    0.0,
    -0.0,
    1.0,
    -1.0,
    0.1,
    16.0,
    256.0,
    -1.5,
    f64::MIN_POSITIVE,
    -f64::MIN_POSITIVE,
    5e-324,
    -5e-324,
    f64::MAX,
    f64::MIN,
    f64::INFINITY,
    f64::NEG_INFINITY,
    f64::NAN,
    f64::EPSILON,
];

fn check(x: f64, y: f64) {
    let (a, b) = (number(x), number(y));
    assert!(same(a.plus(b), x + y), "{x:e} + {y:e}");
    assert!(same(a.minus(b), x - y), "{x:e} - {y:e}");
    assert!(same(a.times(b), x * y), "{x:e} * {y:e}");
    assert!(same(a.negated(), -x), "-{x:e}");
    assert!(same(a.abs(), x.abs()), "|{x:e}|");
    assert_eq!(a.less_than(b), x < y, "{x:e} < {y:e}");
    assert_eq!(a == b, x == y, "{x:e} == {y:e}");
    for divisor in [1, 2, 3, 5, 7, 10, 1000, 1024] {
        assert!(same(a.over(divisor), x / divisor as f64), "{x:e} / {divisor}");
    }
}

#[test]
fn edge_cases_agree_with_hardware() {
    for x in EDGES {
        for y in EDGES {
            check(x, y);
        }
    }
}

#[test]
fn random_numbers_agree_with_hardware() {
    let mut stream = Stream(0x9e37_79b9_7f4a_7c15);
    for _ in 0..200_000 {
        let x = stream.float();
        let y = stream.float();
        check(x, y);
    }
}

#[test]
fn near_neighbours_agree_with_hardware() {
    let mut stream = Stream(88_172_645_463_325_252);
    for _ in 0..50_000 {
        let x = stream.float();
        let y = f64::from_bits(x.to_bits().wrapping_add(stream.next() % 9).wrapping_sub(4));
        check(x, y);
        check(x, -y);
        check(x, f64::from_bits(x.to_bits().wrapping_sub((stream.next() % 70) << 52)));
    }
}

#[test]
fn ties_go_to_even() {
    let one_ulp = f64::EPSILON;
    assert!(same(number(1.0).plus(number(one_ulp / 2.0)), 1.0));
    assert!(same(
        number(1.0 + one_ulp).plus(number(one_ulp / 2.0)),
        1.0 + 2.0 * one_ulp
    ));
    assert!(same(number(5e-324).over(2), 0.0));
    assert!(same(number(15e-324).over(2), 10e-324));
}

#[test]
fn overflow_gives_infinity() {
    assert!(same(number(f64::MAX).plus(number(f64::MAX)), f64::INFINITY));
    assert!(same(number(f64::MIN).times(number(2.0)), f64::NEG_INFINITY));
}

#[test]
fn bits_come_back() {
    for x in EDGES {
        assert_eq!(number(x).to_bits(), x.to_bits());
        assert_eq!(number(x).is_nan(), x.is_nan());
    }
    assert_eq!(Binary64::zero().to_bits(), 0);
}
