use rl_stats_overlay::clock::{epoch_millis, epoch_millis_signed, now_ms, subsec_nanos_now};

#[test]
fn millis_of_clock_readings() {
    assert_eq!(epoch_millis(None), 0);
    assert_eq!(epoch_millis(Some((1, 500_000_000))), 1500);
    assert_eq!(epoch_millis(Some((1_700_000_000, 999_999_999))), 1_700_000_000_999);
    let wrapped = ((u64::MAX as u128) * 1000 + 999) as u64;
    assert_eq!(epoch_millis(Some((u64::MAX, 999_999_999))), wrapped);
    assert_eq!(epoch_millis_signed(None), 0);
    assert_eq!(epoch_millis_signed(Some((2, 1_000_000))), 2001);
    assert_eq!(epoch_millis_signed(Some((u64::MAX, 0))), ((u64::MAX as u128) * 1000) as u64 as i64);
}

#[test]
fn the_clock_reads_after_the_epoch() {
    assert!(now_ms() > 1_600_000_000_000);
    assert!(subsec_nanos_now() < 1_000_000_000);
}
