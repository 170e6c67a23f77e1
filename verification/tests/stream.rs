use jiji_hamster_bridge::stream::Backoff;

const SECOND: u128 = 1_000_000_000;

#[test]
fn waits_double_up_to_half_a_minute() {
    let mut b = Backoff::new();
    let waits: Vec<u128> = (0..8).map(|_| b.on_end().nanos / SECOND).collect();
    assert_eq!(waits, vec![1, 2, 4, 8, 16, 30, 30, 30]);
}

#[test]
fn a_line_starts_over() {
    let mut b = Backoff::new();
    for _ in 0..10 {
        b.on_end();
    }
    b.on_line();
    assert_eq!(b.on_end().nanos, SECOND);
    assert_eq!(b.on_end().nanos, 2 * SECOND);
}
