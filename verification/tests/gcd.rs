use gcd_service::gcd::gcd;
use gcd_service::gcd::gcd_reduce;

#[test]
fn test_gcd() {
    assert_eq!(gcd(14, 15), 1);
    assert_eq!(gcd(50, 50), 50);
    assert_eq!(gcd(24, 81), 3);
}

#[test]
fn gcd_with_zero_operands() {
    assert_eq!(gcd(5, 0), 5);
    assert_eq!(gcd(0, 5), 5);
    assert_eq!(gcd(0, 0), 0);
}

#[test]
fn gcd_is_commutative_on_samples() {
    let samples = [(14u64, 15u64), (50, 50), (24, 81), (0, 9), (1024, 48)];
    for (a, b) in samples {
        assert_eq!(gcd(a, b), gcd(b, a));
    }
}

#[test]
fn gcd_is_associative_on_samples() {
    let samples = [(12u64, 18u64, 24u64), (7, 13, 29), (100, 250, 35), (0, 6, 9)];
    for (a, b, c) in samples {
        assert_eq!(gcd(gcd(a, b), c), gcd(a, gcd(b, c)));
    }
}

#[test]
fn gcd_divides_both_and_no_larger_does() {
    let pairs = [(24u64, 81u64), (14, 15), (36, 60), (17, 17)];
    for (a, b) in pairs {
        let g = gcd(a, b);
        assert!(g > 0);
        assert_eq!(a % g, 0);
        assert_eq!(b % g, 0);
        for d in (g + 1)..=a.max(b) {
            assert!(!(a % d == 0 && b % d == 0));
        }
    }
}

#[test]
fn reduce_single_element() {
    assert_eq!(gcd_reduce(&vec![7]), 7);
}

#[test]
fn reduce_order_does_not_matter() {
    assert_eq!(gcd_reduce(&vec![12, 18, 24]), 6);
    assert_eq!(gcd_reduce(&vec![24, 12, 18]), 6);
    assert_eq!(gcd_reduce(&vec![18, 24, 12]), 6);
    assert_eq!(gcd_reduce(&vec![24, 18, 12]), 6);
    assert_eq!(gcd_reduce(&vec![12, 24, 18]), 6);
    assert_eq!(gcd_reduce(&vec![18, 12, 24]), 6);
}

#[test]
fn reduce_handles_zeros() {
    assert_eq!(gcd_reduce(&vec![0, 0]), 0);
    assert_eq!(gcd_reduce(&vec![0, 12, 18]), 6);
}
