use probing_web::clock::{micros_from_reading, millis_from_reading, now_ms, unix_time_micros};

#[test]
fn readings_become_whole_milliseconds() {
    assert_eq!(millis_from_reading(Some(1_234_567)), 1_234);
    assert_eq!(millis_from_reading(Some(999)), 0);
    assert_eq!(millis_from_reading(None), 0);
    let past_u64_millis: u128 = ((u64::MAX as u128) + 1) * 1000 + 5_000;
    assert_eq!(millis_from_reading(Some(past_u64_millis)), 5);
}

#[test]
fn readings_become_capped_microseconds() {
    assert_eq!(micros_from_reading(Some(1_234_567)), 1_234_567);
    assert_eq!(micros_from_reading(None), 0);
    assert_eq!(micros_from_reading(Some(u128::MAX)), u64::MAX);
    assert_eq!(micros_from_reading(Some(u64::MAX as u128)), u64::MAX);
}

#[test]
fn the_clock_reads_after_the_epoch() {
    let ms = now_ms();
    let us = unix_time_micros();
    assert!(ms > 1_600_000_000_000);
    assert!(us / 1000 >= ms);
}
