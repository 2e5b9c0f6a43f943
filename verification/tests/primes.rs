use bench_harness::primes::{calculate_primes, is_prime};

fn divides_naively(n: u32) -> bool {
    if n < 2 {
        return false;
    }
    let mut d = 2u32;
    while d < n {
        if n % d == 0 {
            return false;
        }
        d += 1;
    }
    true
}

#[test]
fn primes_below_thirty() {
    let primes = calculate_primes(30);
    assert_eq!(primes, vec![2, 3, 5, 7, 11, 13, 17, 19, 23, 29]);
    assert_eq!(primes.len(), 10);
}

#[test]
fn no_primes_below_two() {
    assert_eq!(calculate_primes(0), Vec::<u32>::new());
    assert_eq!(calculate_primes(1), Vec::<u32>::new());
    assert_eq!(calculate_primes(2), Vec::<u32>::new());
    assert_eq!(calculate_primes(3), vec![2]);
}

#[test]
fn small_numbers() {
    assert!(!is_prime(0));
    assert!(!is_prime(1));
    assert!(is_prime(2));
    assert!(is_prime(3));
    assert!(!is_prime(4));
    assert!(is_prime(5));
    assert!(!is_prime(9));
    assert!(!is_prime(15));
    assert!(!is_prime(25));
    assert!(!is_prime(49));
    assert!(is_prime(97));
}

#[test]
fn agrees_with_naive_division_below_two_thousand() {
    for n in 0..2000u32 {
        assert_eq!(is_prime(n), divides_naively(n), "at {}", n);
    }
}

#[test]
fn squares_of_primes_are_composite() {
    assert!(!is_prime(65521 * 65521));
    assert!(!is_prime(46337 * 46337));
    assert!(!is_prime(7919 * 7919));
}

#[test]
fn largest_values() {
    assert!(is_prime(4294967291));
    assert!(!is_prime(4294967295));
    assert!(!is_prime(4294967294));
    assert!(is_prime(2147483647));
}

#[test]
fn prime_count_below_ten_thousand() {
    assert_eq!(calculate_primes(10000).len(), 1229);
}

#[test]
fn primes_are_ascending() {
    let primes = calculate_primes(500);
    for pair in primes.windows(2) {
        assert!(pair[0] < pair[1]);
    }
}
