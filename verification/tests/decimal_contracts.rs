// What the library takes for granted of `rust_decimal`, held against the
// crate itself on boundary values and on a fixed stream of samples.

use markups::amount::{power_of_ten, Amount};
use markups::markup_applier::{calculate_spread, can_subtract};
use rust_decimal::{Decimal, RoundingStrategy};

const MAX_MANTISSA: i128 = 79228162514264337593543950335;
const MAX_SHORT: i128 = 18446744073709551615;

struct Samples(u64);

impl Samples {
    fn next(&mut self) -> u64 {
        self.0 = self
            .0
            .wrapping_mul(6364136223846793005)
            .wrapping_add(1442695040888963407);
        let mut x = self.0;
        x ^= x >> 33;
        x = x.wrapping_mul(0xff51afd7ed558ccd);
        x ^= x >> 33;
        x
    }

    fn below(&mut self, bound: u64) -> u64 {
        self.next() % bound
    }

    // A mantissa of at most `bits` bits, with a bias toward short ones and
    // toward the edges.
    fn mantissa(&mut self, bits: u32) -> i128 {
        let width = 1 + self.below(bits as u64) as u32;
        let raw = ((self.next() as u128) << 64 | self.next() as u128) >> (128 - width);
        let magnitude = match self.below(8) {
            0 => 0,
            1 => (1u128 << width) - 1,
            _ => raw,
        } as i128;
        if self.below(2) == 0 {
            magnitude
        } else {
            -magnitude
        }
    }

    fn scale(&mut self) -> u32 {
        self.below(29) as u32
    }
}

fn decimal(mantissa: i128, scale: u32) -> Decimal {
    Decimal::from_i128_with_scale(mantissa, scale)
}

fn toward_zero(x: i128, d: i128) -> i128 {
    x / d
}

// The product of two magnitudes as a 256-bit number, high half first.
fn wide_product(a: u128, b: u128) -> (u128, u128) {
    let mask = (1u128 << 64) - 1;
    let (a1, a0) = (a >> 64, a & mask);
    let (b1, b0) = (b >> 64, b & mask);
    let low = a0 * b0;
    let mid1 = a1 * b0;
    let mid2 = a0 * b1;
    let (mid, carry_mid) = mid1.overflowing_add(mid2);
    let (lo, carry_lo) = low.overflowing_add(mid << 64);
    let hi = a1 * b1 + (mid >> 64) + ((carry_mid as u128) << 64) + carry_lo as u128;
    (hi, lo)
}

// Whether `m1 / 10^s1 < m2 / 10^s2`, with no rounding anywhere.
fn exactly_less(m1: i128, s1: u32, m2: i128, s2: u32) -> bool {
    let left = wide_product(m1.unsigned_abs(), power_of_ten(28 - s1) as u128);
    let right = wide_product(m2.unsigned_abs(), power_of_ten(28 - s2) as u128);
    match (m1 < 0, m2 < 0) {
        (false, false) => left < right,
        (true, true) => left > right,
        (true, false) => left != (0, 0) || right != (0, 0),
        (false, true) => false,
    }
}

#[test]
fn rounding_toward_zero_divides_the_mantissa() {
    let mut samples = Samples(1);
    for _ in 0..20000 {
        let m = samples.mantissa(96);
        let s = samples.scale();
        let digits = match samples.below(10) {
            0 => u32::MAX,
            1 => 28 + samples.below(5) as u32,
            _ => samples.below(29) as u32,
        };
        let r = decimal(m, s).round_dp_with_strategy(digits, RoundingStrategy::ToZero);
        if s <= digits {
            assert_eq!((r.mantissa(), r.scale()), (m, s));
        } else {
            assert_eq!(r.scale(), digits, "{} e-{} to {}", m, s, digits);
            assert_eq!(r.mantissa(), toward_zero(m, power_of_ten(s - digits)));
        }
    }
}

#[test]
fn rounding_toward_zero_at_the_edges() {
    for (m, s, digits, want) in [
        (MAX_MANTISSA, 28, 0, 7i128),
        (-MAX_MANTISSA, 28, 0, -7),
        (MAX_MANTISSA, 28, 27, 7922816251426433759354395033),
        (-19, 1, 0, -1),
        (19, 1, 0, 1),
        (-9, 1, 0, 0),
        (0, 5, 2, 0),
        (1, 28, 27, 0),
    ] {
        let r = decimal(m, s).round_dp_with_strategy(digits, RoundingStrategy::ToZero);
        assert_eq!((r.mantissa(), r.scale()), (want, digits));
    }
}

// The mantissa of a sum or difference at the finer scale, where computing it
// does not leave 128 bits.
fn at_finer_scale(m1: i128, s1: u32, m2: i128, s2: u32, subtract: bool) -> Option<i128> {
    let s = s1.max(s2);
    let x = m1.checked_mul(power_of_ten(s - s1))?;
    let y = m2.checked_mul(power_of_ten(s - s2))?;
    if subtract {
        x.checked_sub(y)
    } else {
        x.checked_add(y)
    }
}

fn check_sum(m1: i128, s1: u32, m2: i128, s2: u32, subtract: bool) -> bool {
    if m1.abs() > MAX_SHORT || m2.abs() > MAX_SHORT {
        return false;
    }
    if m1 != 0 && m2 != 0 && s1.abs_diff(s2) > 19 {
        return false;
    }
    let exact = match at_finer_scale(m1, s1, m2, s2, subtract) {
        Some(exact) if exact.abs() <= MAX_MANTISSA => exact,
        _ => return false,
    };
    let r = if subtract {
        decimal(m1, s1) - decimal(m2, s2)
    } else {
        decimal(m1, s1) + decimal(m2, s2)
    };
    let s = s1.max(s2);
    assert!(r.scale() <= s, "{}e-{} {}e-{}", m1, s1, m2, s2);
    assert_eq!(
        r.mantissa() * power_of_ten(s - r.scale()),
        exact,
        "{}e-{} {}e-{} subtract {}",
        m1,
        s1,
        m2,
        s2,
        subtract
    );
    true
}

#[test]
fn sums_and_differences_of_short_operands_are_exact() {
    let mut samples = Samples(2);
    let mut covered = 0;
    for round in 0..60000 {
        let m1 = samples.mantissa(64);
        let m2 = samples.mantissa(64);
        let s1 = samples.scale();
        let s2 = match samples.below(4) {
            0 => s1,
            1 => samples.scale(),
            _ => (s1 + samples.below(20) as u32).min(28),
        };
        if check_sum(m1, s1, m2, s2, round % 2 == 0) {
            covered += 1;
        }
        if check_sum(m2, s2, m1, s1, round % 2 == 0) {
            covered += 1;
        }
    }
    assert!(covered > 40000, "{}", covered);
}

#[test]
fn sums_and_differences_at_the_edges() {
    let edges = [
        0,
        1,
        -1,
        9,
        u32::MAX as i128,
        u32::MAX as i128 + 1,
        -(u32::MAX as i128),
        MAX_SHORT,
        -MAX_SHORT,
        MAX_SHORT - 1,
        4294967296 * 1000000000,
        7922816251,
        -7922816252,
    ];
    let mut covered = 0;
    for &m1 in &edges {
        for &m2 in &edges {
            for s1 in 0..=28u32 {
                for s2 in 0..=28u32 {
                    for subtract in [false, true] {
                        if check_sum(m1, s1, m2, s2, subtract) {
                            covered += 1;
                        }
                    }
                }
            }
        }
    }
    assert!(covered > 100000, "{}", covered);
}

fn check_product(m1: i128, s1: u32, m2: i128, s2: u32) -> bool {
    if m1.abs() > MAX_SHORT || m2.abs() > MAX_SHORT || s1 + s2 > 28 {
        return false;
    }
    let exact = match m1.checked_mul(m2) {
        Some(exact) if exact.abs() <= MAX_MANTISSA => exact,
        _ => return false,
    };
    let r = decimal(m1, s1) * decimal(m2, s2);
    assert_eq!(r.mantissa(), exact);
    assert_eq!(r.scale(), if exact == 0 { 0 } else { s1 + s2 });
    true
}

#[test]
fn products_of_short_operands_are_exact() {
    let mut samples = Samples(3);
    let mut covered = 0;
    for _ in 0..60000 {
        let m1 = samples.mantissa(64);
        let m2 = samples.mantissa(40);
        let s1 = samples.below(15) as u32;
        let s2 = samples.below(15) as u32;
        if check_product(m1, s1, m2, s2) {
            covered += 1;
        }
        if check_product(m2, s2, m1, s1) {
            covered += 1;
        }
    }
    assert!(covered > 40000, "{}", covered);
    assert!(check_product(MAX_SHORT, 0, 4294967295, 28));
    assert!(check_product(-MAX_SHORT, 14, 4294967295, 14));
    assert!(check_product(4294967295, 28, 4294967295, 0));
    assert!(check_product(0, 9, 12, 9));
    assert!(check_product(10_000_000_000_000_000_000, 5, -1_000_000_000, 23));
}

fn division_digits(scale: u32) -> u32 {
    if scale <= 19 {
        9
    } else {
        28 - scale
    }
}

fn check_quotient(m: i128, s: u32, divisor: i128) -> bool {
    if m.abs() > MAX_SHORT || divisor == 0 || divisor.abs() > u32::MAX as i128 {
        return false;
    }
    if (m * power_of_ten(division_digits(s))) % divisor != 0 {
        return false;
    }
    let r = decimal(m, s) / decimal(divisor, 0);
    // r * divisor == m / 10^s, compared at the finer of the two scales
    let t = r.scale().max(s);
    let left = r.mantissa() * power_of_ten(t - r.scale()) * divisor;
    let right = m * power_of_ten(t - s);
    assert_eq!(left, right, "{}e-{} / {}", m, s, divisor);
    true
}

#[test]
fn quotients_that_end_are_exact() {
    let mut samples = Samples(4);
    let mut covered = 0;
    for _ in 0..60000 {
        let m = samples.mantissa(64);
        let s = samples.scale();
        let divisor = match samples.below(6) {
            0 => 2,
            1 => -2,
            2 => [4, 5, 8, 10, 16, 25, 40, 125, 512, 1 << 9, 1953125][samples.below(11) as usize],
            3 => samples.mantissa(32),
            _ => 2,
        };
        if check_quotient(m, s, divisor) {
            covered += 1;
        }
    }
    assert!(covered > 30000, "{}", covered);
}

#[test]
fn halves_are_exact_below_28_digits() {
    let mut samples = Samples(5);
    for _ in 0..20000 {
        let m = samples.mantissa(64);
        let s = samples.below(28) as u32;
        assert!(check_quotient(m, s, 2));
    }
    for m in [1, -1, 3, MAX_SHORT, -MAX_SHORT, MAX_SHORT - 1, 0] {
        for s in 0..28u32 {
            assert!(check_quotient(m, s, 2));
        }
        // at 28 digits only an even mantissa has an exact half
        assert_eq!(check_quotient(m, 28, 2), m % 2 == 0);
    }
}

#[test]
fn order_is_the_order_of_the_numbers() {
    let mut samples = Samples(6);
    for _ in 0..40000 {
        let m1 = samples.mantissa(96);
        let s1 = samples.scale();
        let (m2, s2) = match samples.below(4) {
            // the same number at another scale, where it can be written there
            0 => {
                let s2 = (s1 + samples.below(5) as u32).min(28);
                match m1.checked_mul(power_of_ten(s2 - s1)) {
                    Some(m2) if m2.abs() <= MAX_MANTISSA => (m2, s2),
                    _ => (m1, s1),
                }
            }
            _ => (samples.mantissa(96), samples.scale()),
        };
        assert_eq!(
            decimal(m1, s1) < decimal(m2, s2),
            exactly_less(m1, s1, m2, s2),
            "{}e-{} < {}e-{}",
            m1,
            s1,
            m2,
            s2
        );
    }
    assert!(!(decimal(0, 5) < decimal(0, 0)));
    assert!(!(decimal(10, 1) < decimal(1, 0)));
    assert!(decimal(-1, 28) < decimal(0, 0));
    assert!(decimal(MAX_MANTISSA - 1, 0) < decimal(MAX_MANTISSA, 0));
    assert!(decimal(MAX_MANTISSA, 28) < decimal(1, 0) * decimal(8, 0));
}

#[test]
fn whole_part_drops_the_fraction() {
    let mut samples = Samples(7);
    for _ in 0..20000 {
        let m = samples.mantissa(96);
        let s = samples.scale();
        assert_eq!(decimal(m, s).as_i128(), toward_zero(m, power_of_ten(s)));
    }
    assert_eq!(decimal(-19, 1).as_i128(), -1);
    assert_eq!(decimal(19, 1).as_i128(), 1);
    assert_eq!(decimal(-9, 1).as_i128(), 0);
    assert_eq!(decimal(MAX_MANTISSA, 0).as_i128(), MAX_MANTISSA);
}

#[test]
fn mantissa_and_scale_survive_the_round_trip() {
    let mut samples = Samples(8);
    for _ in 0..20000 {
        let m = samples.mantissa(96);
        let s = samples.scale();
        let d = decimal(m, s);
        assert_eq!((d.mantissa(), d.scale()), (m, s));
    }
}

#[test]
fn spread_agrees_with_exact_arithmetic_on_samples() {
    let mut samples = Samples(9);
    let mut covered = 0;
    for _ in 0..40000 {
        let bid = Amount::new(samples.mantissa(64), samples.below(29) as u32);
        let ask = Amount::new(samples.mantissa(64), samples.below(29) as u32);
        let digits = samples.below(30) as u32;
        if !can_subtract(ask, bid) {
            continue;
        }
        covered += 1;
        let spread = calculate_spread(bid, ask, digits);
        let s = bid.scale.max(ask.scale);
        let exact = ask.mantissa * power_of_ten(s - ask.scale)
            - bid.mantissa * power_of_ten(s - bid.scale);
        let want = if s <= digits {
            exact
        } else {
            toward_zero(exact, power_of_ten(s - digits)) * power_of_ten(s - digits)
        };
        assert!(spread.scale <= s);
        assert_eq!(spread.mantissa * power_of_ten(s - spread.scale), want);
    }
    assert!(covered > 10000, "{}", covered);
}
