use scheduler::clock::timestamp;

#[test]
fn timestamp_in_milliseconds() {
    assert_eq!(timestamp(0, 0), 0);
    assert_eq!(timestamp(1, 999_999_999), 1999);
    assert_eq!(timestamp(1_600_000_000, 1_500_000), 1_600_000_000_001);
    assert_eq!(timestamp(2, 999_999), 2000);
}
