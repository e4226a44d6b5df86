use anachro::groundhog::{
    micros_between, millis_between, seconds_between, ticks_between, Promote, RollingSince,
    RollingTimer,
};
use std::sync::atomic::{AtomicU32, Ordering};

struct TestTimer(&'static AtomicU32);

impl RollingTimer for TestTimer {
    const TICKS_PER_SECOND: u32 = 10;

    fn get_ticks(&self) -> u32 {
        self.0.load(Ordering::SeqCst)
    }

    fn is_initialized(&self) -> bool {
        true
    }
}

#[test]
fn simple_wrap() {
    assert_eq!(0x10u32.since(0xFFFFFFF0), 0x20);
    assert_eq!(0xFFFFFFF0u32.since(0x10), 0xFFFFFFE0);
}

#[test]
fn timer_test() {
    let timer_cell: &'static AtomicU32 = Box::leak(Box::new(AtomicU32::new(20)));
    let timer = TestTimer(timer_cell);

    assert_eq!(timer.ticks_since(0), 20);
    assert_eq!(timer.seconds_since(0), 2);
    assert_eq!(timer.millis_since(0), 2000);
    assert_eq!(timer.micros_since(0), 2000000);

    timer_cell.store(0xFFFF_FFFF, Ordering::SeqCst);

    assert_eq!(timer.ticks_since(0), 0xFFFF_FFFF);
    assert_eq!(timer.seconds_since(0), 0xFFFF_FFFF / 10);

    // Out of range
    assert_eq!(timer.millis_since(0), 0xFFFF_FFFF);
    assert_eq!(timer.micros_since(0), 0xFFFF_FFFF);

    timer_cell.store(0x4000_0000, Ordering::SeqCst);

    assert_eq!(timer.ticks_since(0xC000_0000), 0x8000_0000);
    assert_eq!(timer.seconds_since(0xC000_0000), 0x8000_0000 / 10);

    // Out of range
    assert_eq!(timer.millis_since(0xC000_0000), 0xFFFF_FFFF);
    assert_eq!(timer.micros_since(0xC000_0000), 0xFFFF_FFFF);
}

#[test]
fn elapsed_time_between_ticks() {
    assert_eq!(ticks_between(5, 3), 2);
    assert_eq!(ticks_between(3, 5), 0xFFFF_FFFE);
    assert_eq!(seconds_between(35, 0, 10), 3);
    assert_eq!(millis_between(35, 0, 10), 3500);
    assert_eq!(micros_between(1, 0, 1_000_000), 1);
    assert_eq!(micros_between(0x10, 0xFFFF_FFF0, 1_000_000), 0x20);
}

#[test]
fn promote_saturates_u32() {
    assert_eq!(7u32.promote(), 7u64);
    assert_eq!(<u32 as Promote>::saturate_demote(0x1_0000_0000u64), 0xFFFF_FFFF);
    assert_eq!(<u32 as Promote>::saturate_demote(12u64), 12);
    assert_eq!(0xFFFF_FFFFu32.mul_then_div(1000, 10), 0xFFFF_FFFF);
    assert_eq!(100u32.mul_then_div(3, 7), 42);
}

#[test]
fn promote_saturates_u64() {
    assert_eq!(9u64.promote(), 9u128);
    assert_eq!(<u64 as Promote>::saturate_demote(u128::MAX), u64::MAX);
    assert_eq!(u64::MAX.mul_then_div(2, 1), u64::MAX);
    assert_eq!(1_000u64.mul_then_div(1_000, 10), 100_000);
    assert_eq!(0x10u64.since(0xFFFF_FFFF_FFFF_FFF0), 0x20);
}

#[test]
fn timer_constants() {
    assert_eq!(<u32 as RollingSince>::MILLIS_PER_SECOND, 1_000);
    assert_eq!(<u32 as RollingSince>::MICROS_PER_SECOND, 1_000_000);
    assert_eq!(<u64 as RollingSince>::MICROS_PER_SECOND, 1_000_000);
}

#[test]
fn counts_grow_with_ticks() {
    let mut last = 0;
    for ticks in [0u32, 1, 9, 10, 11, 1000, 0x1999_9999, 0x2000_0000, u32::MAX] {
        let ms = millis_between(ticks, 0, 10);
        assert!(ms >= last);
        last = ms;
    }
    assert_eq!(last, u32::MAX);
}
