use simpleterm::flash::{check_flash, FLASH_TIME_MS};

#[test]
fn flash_half_period_is_off() {
    let t0: u64 = 10_000;
    let mut then = t0;
    assert!(!check_flash(t0 + FLASH_TIME_MS / 2, &mut then));
    assert_eq!(then, t0);
}

#[test]
fn flash_one_and_a_half_periods_is_on() {
    let t0: u64 = 10_000;
    let mut then = t0;
    assert!(check_flash(t0 + FLASH_TIME_MS * 3 / 2, &mut then));
    assert_eq!(then, t0);
}

#[test]
fn flash_after_long_gap_restarts() {
    let t0: u64 = 10_000;
    let mut then = t0;
    let now = t0 + FLASH_TIME_MS * 5 / 2;
    assert!(check_flash(now, &mut then));
    assert_eq!(then, now);
}

#[test]
fn flash_boundaries() {
    let mut then: u64 = 0;
    assert!(!check_flash(500, &mut then));
    assert!(check_flash(501, &mut then));
    assert!(check_flash(1000, &mut then));
    assert_eq!(then, 0);
    assert!(check_flash(1001, &mut then));
    assert_eq!(then, 1001);
}

#[test]
fn flash_clock_behind_counts_as_no_time() {
    let mut then: u64 = 5_000;
    assert!(!check_flash(1_000, &mut then));
    assert_eq!(then, 5_000);
}
