use gh_actions::{
    calculate_fibonacci, calculate_fibonacci_recursive, count_words, factorial, gcd, is_palindrome,
    is_prime, lcm, reverse_string, validate_email,
};
#[test]
fn test_fibonacci_base_cases() {
    assert_eq!(calculate_fibonacci(0).unwrap(), 0);
    assert_eq!(calculate_fibonacci(1).unwrap(), 1);
    assert_eq!(calculate_fibonacci(2).unwrap(), 1);
}

#[test]
fn test_fibonacci_normal_cases() {
    assert_eq!(calculate_fibonacci(5).unwrap(), 5);
    assert_eq!(calculate_fibonacci(10).unwrap(), 55);
    assert_eq!(calculate_fibonacci(15).unwrap(), 610);
}

#[test]
fn test_fibonacci_large_valid() {
    assert_eq!(calculate_fibonacci(50).unwrap(), 12586269025);
}

#[test]
fn utils_test_fibonacci_too_large() {
    let result = calculate_fibonacci(94);
    assert!(result.is_err());
    assert!(result.unwrap_err().contains("too large"));
}

#[test]
fn test_fibonacci_recursive() {
    assert_eq!(calculate_fibonacci_recursive(0).unwrap(), 0);
    assert_eq!(calculate_fibonacci_recursive(1).unwrap(), 1);
    assert_eq!(calculate_fibonacci_recursive(10).unwrap(), 55);
    assert_eq!(calculate_fibonacci_recursive(20).unwrap(), 6765);
}

#[test]
fn test_fibonacci_both_methods_agree() {
    for i in 0..=20 {
        assert_eq!(
            calculate_fibonacci(i).unwrap(),
            calculate_fibonacci_recursive(i).unwrap()
        );
    }
}

#[test]
fn test_validate_email_valid() {
    assert!(validate_email("test@example.com"));
    assert!(validate_email("user.name@domain.co.uk"));
    assert!(validate_email("test+tag@example.org"));
    assert!(validate_email("user123@test-domain.com"));
}

#[test]
fn test_validate_email_invalid() {
    assert!(!validate_email(""));
    assert!(!validate_email("test"));
    assert!(!validate_email("@domain.com"));
    assert!(!validate_email("user@"));
    assert!(!validate_email("user@@domain.com"));
    assert!(!validate_email("user@domain"));
    assert!(!validate_email(".user@domain.com"));
    assert!(!validate_email("user.@domain.com"));
    assert!(!validate_email("user..name@domain.com"));
    assert!(!validate_email("user@.domain.com"));
    assert!(!validate_email("user@domain.com."));
}

#[test]
fn test_validate_email_edge_cases() {
    // Five bytes meets the minimum length, so "a@b.c" is accepted.
    assert!(validate_email("a@b.c"));
    assert!(!validate_email(&("a".repeat(65) + "@example.com"))); // Local part too long
}

#[test]
fn test_is_prime() {
    // Test small primes
    assert!(!is_prime(0));
    assert!(!is_prime(1));
    assert!(is_prime(2));
    assert!(is_prime(3));
    assert!(!is_prime(4));
    assert!(is_prime(5));
    
    // Test larger primes
    assert!(is_prime(17));
    assert!(is_prime(97));
    assert!(is_prime(101));
    
    // Test composites
    assert!(!is_prime(100));
    assert!(!is_prime(121));
}

#[test]
fn test_factorial() {
    assert_eq!(factorial(0).unwrap(), 1);
    assert_eq!(factorial(1).unwrap(), 1);
    assert_eq!(factorial(5).unwrap(), 120);
    assert_eq!(factorial(10).unwrap(), 3628800);
}

#[test]
fn test_factorial_too_large() {
    let result = factorial(21);
    assert!(result.is_err());
    assert!(result.unwrap_err().contains("too large"));
}

#[test]
fn test_gcd() {
    assert_eq!(gcd(48, 18), 6);
    assert_eq!(gcd(17, 13), 1);
    assert_eq!(gcd(100, 25), 25);
    assert_eq!(gcd(0, 5), 5);
    assert_eq!(gcd(5, 0), 5);
}

#[test]
fn test_lcm() {
    assert_eq!(lcm(4, 6), Some(12));
    assert_eq!(lcm(17, 13), Some(221));
    assert_eq!(lcm(0, 5), Some(0));
    assert_eq!(lcm(5, 0), Some(0));
}

#[test]
fn test_reverse_string() {
    assert_eq!(reverse_string("hello"), "olleh");
    assert_eq!(reverse_string(""), "");
    assert_eq!(reverse_string("a"), "a");
    assert_eq!(reverse_string("12345"), "54321");
}

#[test]
fn test_count_words() {
    assert_eq!(count_words("hello world"), 2);
    assert_eq!(count_words(""), 0);
    assert_eq!(count_words("   "), 0);
    assert_eq!(count_words("single"), 1);
    assert_eq!(count_words("  hello   world  test  "), 3);
}

#[test]
fn test_performance_fibonacci() {
    let start = std::time::Instant::now();
    let _ = calculate_fibonacci(40);
    let duration = start.elapsed();
    
    // Should complete in reasonable time (less than 1 second)
    assert!(duration.as_secs() < 1);
}

#[test]
fn test_performance_fibonacci_recursive() {
    let start = std::time::Instant::now();
    let _ = calculate_fibonacci_recursive(30);
    let duration = start.elapsed();
    
    // Recursive with memoization should be fast
    assert!(duration.as_millis() < 100);
}

#[test]
fn test_is_palindrome() {
    assert!(is_palindrome("racecar"));
    assert!(is_palindrome("A man a plan a canal Panama"));
    // Only letters are kept: "raceacar" reversed is "racaecar", which differs.
    assert!(!is_palindrome("race a car"));
    assert!(!is_palindrome("hello"));
    assert!(is_palindrome("Madam"));
    assert!(is_palindrome(""));
    assert!(is_palindrome("a"));
}

#[test]
fn palindrome_ignores_punctuation() {
    assert!(is_palindrome("No 'x' in Nixon"));
}

#[test]
fn reverse_handles_multibyte_characters() {
    assert_eq!(reverse_string("añb"), "bña");
    assert_eq!(reverse_string("ab c"), "c ba");
}

#[test]
fn count_words_treats_unicode_whitespace_as_separator() {
    assert_eq!(count_words("a\tb\nc"), 3);
    assert_eq!(count_words("a\u{3000}b"), 2);
    assert_eq!(count_words("\u{a0}"), 0);
}

#[test]
fn fibonacci_largest_index_fits() {
    assert_eq!(calculate_fibonacci(93).unwrap(), 12200160415121876738);
    assert_eq!(calculate_fibonacci_recursive(93).unwrap(), 12200160415121876738);
    assert_eq!(
        calculate_fibonacci_recursive(94).unwrap_err(),
        "Number too large for u64"
    );
    assert_eq!(calculate_fibonacci(94).unwrap_err(), "Number too large for u64");
}

#[test]
fn factorial_largest_argument_fits() {
    assert_eq!(factorial(20).unwrap(), 2432902008176640000);
    assert_eq!(factorial(21).unwrap_err(), "Number too large for u64 factorial");
}

#[test]
fn lcm_overflow_is_none() {
    assert_eq!(lcm(u64::MAX, u64::MAX - 1), None);
    assert_eq!(lcm(6, 4), Some(12));
    assert_eq!(gcd(0, 0), 0);
}

#[test]
fn is_prime_on_large_values() {
    assert!(is_prime(4294967291));
    assert!(!is_prime(4294967291u64 * 3));
    assert!(!is_prime(65521u64 * 65521));
    assert!(is_prime(1000000007));
}

#[test]
fn validate_email_length_limits_count_bytes() {
    let local64 = "a".repeat(64) + "@example.com";
    assert!(validate_email(&local64));
    let local65 = "a".repeat(65) + "@example.com";
    assert!(!validate_email(&local65));
    let domain253 = "a@".to_string() + &"b".repeat(249) + ".com";
    assert!(validate_email(&domain253));
    let domain254 = "a@".to_string() + &"b".repeat(250) + ".com";
    assert!(!validate_email(&domain254));
    let two_byte_local = "é".repeat(33) + "@example.com";
    assert!(!validate_email(&two_byte_local));
    let two_byte_ok = "é".repeat(32) + "@example.com";
    assert!(validate_email(&two_byte_ok));
    assert!(!validate_email("a b@example.com"));
    assert!(!validate_email("user@exa_mple.com"));
    assert!(validate_email("us_er@example.com"));
}
