use optima::retry::Retry;

#[test]
fn as_many_failures_as_the_limit_are_forgiven() {
    for limit in [0u32, 1, 5] {
        let mut r = Retry::new(limit);
        for n in 0..limit {
            assert!(r.failed());
            assert_eq!(r.attempt, n + 1);
        }
        assert!(!r.failed());
        assert!(!r.failed());
        assert_eq!(r.attempt, limit);
    }
}
