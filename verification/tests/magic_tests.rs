use numlang::codegen::magic::{compute_magic_s64, compute_magic_u64_nonneg};

#[test]
fn unsigned_magic_rejects_zero_and_one() {
    assert_eq!(compute_magic_u64_nonneg(0), None);
    assert_eq!(compute_magic_u64_nonneg(1), None);
}

#[test]
fn unsigned_magic_known_values() {
    assert_eq!(compute_magic_u64_nonneg(2), Some((9223372036854775808, 0)));
    assert_eq!(compute_magic_u64_nonneg(3), Some((6148914691236517206, 0)));
    assert_eq!(compute_magic_u64_nonneg(7), Some((5270498306774157605, 1)));
    assert_eq!(compute_magic_u64_nonneg(10), Some((7378697629483820647, 2)));
    assert_eq!(compute_magic_u64_nonneg(1000), Some((2361183241434822607, 7)));
}

#[test]
fn unsigned_magic_none_when_no_shift_fits() {
    assert_eq!(compute_magic_u64_nonneg(u64::MAX), None);
}

#[test]
fn unsigned_magic_divides_like_division() {
    for d in [2u64, 3, 5, 7, 10, 12, 100, 641, 1000, 65537, 1 << 40, 123456789] {
        let (m, s) = compute_magic_u64_nonneg(d).unwrap();
        for n in [0u64, 1, 2, 6, 7, 99, 100, 1000, 123456, 1 << 40, (1 << 62) + 12345, (1 << 63) - 1] {
            let q = ((n as u128) * (m as u128)) >> (64 + s as u32);
            assert_eq!(q as u64, n / d, "n = {} d = {}", n, d);
        }
    }
}

#[test]
fn signed_magic_known_values() {
    assert_eq!(compute_magic_s64(3), (6148914691236517206, 0, false));
    assert_eq!(compute_magic_s64(7), (0x4924924924924925, 1, false));
    assert_eq!(compute_magic_s64(-7), (0x4924924924924925, 1, false));
    assert_eq!(compute_magic_s64(10), (7378697629483820647, 2, false));
    assert_eq!(compute_magic_s64(-5), (7378697629483820647, 1, false));
}

#[test]
fn signed_magic_extreme_divisors() {
    assert_eq!(compute_magic_s64(1), (1, 0, true));
    assert_eq!(compute_magic_s64(-1), (1, 0, true));
    assert_eq!(compute_magic_s64(i64::MAX), (4611686018427387905, 61, false));
    assert_eq!(compute_magic_s64(i64::MIN), (-9223372036854775807, 62, true));
}

#[test]
fn signed_magic_divides_like_truncating_division() {
    let divisors: [i64; 10] = [2, 3, 7, 10, 641, -3, -7, -1000, i64::MAX, i64::MIN];
    let dividends: [i64; 11] = [0, 1, -1, 13, -13, 1_000_000_007, -999_999_999, i64::MAX, i64::MIN + 1, i64::MIN, 6];
    for &d in divisors.iter() {
        let (m, s, add) = compute_magic_s64(d);
        let full: i128 = m as i128 + if add { 1i128 << 64 } else { 0 };
        for &n in dividends.iter() {
            let prod = n as i128 * full;
            let mut q = prod >> (64 + s as u32);
            if n < 0 {
                q += 1;
            }
            if d < 0 {
                q = -q;
            }
            assert_eq!(q, (n / d) as i128, "n = {}, d = {}", n, d);
        }
    }
}
