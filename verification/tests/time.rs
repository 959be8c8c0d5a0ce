use row4::time::{micros_of, millis_of, nanos_of, Timer};

#[test]
fn units_of_a_length_of_time() {
    assert_eq!(millis_of(0, 0), 0);
    assert_eq!(millis_of(2, 345_678_901), 2_345);
    assert_eq!(micros_of(2, 345_678_901), 2_345_678);
    assert_eq!(nanos_of(2, 345_678_901), 2_345_678_901);
    assert_eq!(millis_of(0, 999_999), 0);
    assert_eq!(millis_of(0, 1_000_000), 1);
    assert_eq!(micros_of(0, 999), 0);
    assert_eq!(micros_of(0, 1_000), 1);
}

#[test]
fn units_stop_at_the_largest_number() {
    assert_eq!(millis_of(u64::MAX, 0), u64::MAX);
    assert_eq!(micros_of(u64::MAX / 1_000_000 + 1, 0), u64::MAX);
    assert_eq!(nanos_of(u64::MAX / 1_000_000_000 + 1, 0), u64::MAX);
    assert_eq!(millis_of(u64::MAX / 1_000, 614_999_999), u64::MAX - 1);
    assert_eq!(millis_of(u64::MAX / 1_000, 999_999_999), u64::MAX);
    assert_eq!(nanos_of(18_446_744_073, 709_551_615), u64::MAX);
    assert_eq!(nanos_of(18_446_744_073, 709_551_614), u64::MAX - 1);
}

#[test]
fn timer_runs_forward() {
    let mut timer = Timer::new();
    let first = timer.elapsed_nanos();
    let mut spin = 0u64;
    for i in 0..2_000_000u64 {
        spin = spin.wrapping_add(i * i);
    }
    assert_ne!(spin, 1);
    let second = timer.elapsed_nanos();
    assert!(second >= first);
    assert!(timer.elapsed_millis() < 10_000);
    assert!(timer.elapsed_micros() >= timer.elapsed_millis());
    timer.reset();
    assert!(timer.elapsed_millis() < 10_000);
}
