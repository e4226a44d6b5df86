//! `groundhog` - A rolling timer
//!
//! Sometimes you just want a simple rolling timer.
//!
//! Make sure you poll it often enough.

use vstd::prelude::*;

verus! {

/// The number of ticks from `then` to `now` on a 32-bit counter that wraps
pub open spec fn wrapping_since(now: u32, then: u32) -> u32 {
    if now >= then {
        (now - then) as u32
    } else {
        (now + 0x1_0000_0000 - then) as u32
    }
}

/// `value * mul / div`, saturated at `u32::MAX`
pub open spec fn scaled_saturating(value: u32, mul: u32, div: u32) -> u32
    recommends
        div > 0,
{
    let exact = (value as int * mul as int) / (div as int);
    if exact > 0xFFFF_FFFF {
        0xFFFF_FFFF
    } else {
        exact as u32
    }
}

/// Counters that can measure elapsed time across a wrap-around
pub trait RollingSince: Sized {
    const MILLIS_PER_SECOND: Self;
    const MICROS_PER_SECOND: Self;

    spec fn elapsed_since(&self, other: Self) -> Self;

    /// The ticks elapsed from `other` to `self`, modulo the counter's range
    fn since(&self, other: Self) -> (r: Self)
        ensures
            r == self.elapsed_since(other);
}

/// Integers that can be widened for intermediate arithmetic
pub trait Promote: Sized + Copy {
    type NextSize;

    const MAX_VAL: Self::NextSize;

    spec fn promoted(&self) -> Self::NextSize;

    spec fn demoted(other: Self::NextSize) -> Self;

    spec fn nonzero(&self) -> bool;

    spec fn scaled(&self, mul: Self, div: Self) -> Self;

    /// Widen to the next integer size
    fn promote(&self) -> (r: Self::NextSize)
        ensures
            r == self.promoted();

    /// Narrow from the next integer size, saturating at `MAX_VAL`
    fn saturate_demote(other: Self::NextSize) -> (r: Self)
        ensures
            r == Self::demoted(other);

    /// `self * mul / div` computed in the next integer size, saturating
    fn mul_then_div(&self, mul: Self, div: Self) -> (r: Self)
        requires
            div.nonzero(),
        ensures
            r == self.scaled(mul, div);
}

impl Promote for u32 {
    type NextSize = u64;

    const MAX_VAL: u64 = 0xFFFF_FFFF;

    open spec fn promoted(&self) -> u64 {
        *self as u64
    }

    open spec fn demoted(other: u64) -> u32 {
        if other > 0xFFFF_FFFF {
            0xFFFF_FFFF
        } else {
            other as u32
        }
    }

    open spec fn nonzero(&self) -> bool {
        *self != 0
    }

    open spec fn scaled(&self, mul: u32, div: u32) -> u32 {
        scaled_saturating(*self, mul, div)
    }

    fn promote(&self) -> (r: u64) {
        *self as u64
    }

    fn saturate_demote(other: u64) -> (r: u32) {
        let capped = if other < Self::MAX_VAL {
            other
        } else {
            Self::MAX_VAL
        };
        capped as u32
    }

    fn mul_then_div(&self, mul: u32, div: u32) -> (r: u32) {
        let a = self.promote();
        let b = mul.promote();
        proof {
            assert(a * b <= 0xFFFF_FFFE_0000_0001) by (nonlinear_arith)
                requires
                    a <= 0xFFFF_FFFF,
                    b <= 0xFFFF_FFFF,
            ;
        }
        let product = a * b;
        let quotient = product / div.promote();
        Self::saturate_demote(quotient)
    }
}

impl Promote for u64 {
    type NextSize = u128;

    const MAX_VAL: u128 = 0xFFFF_FFFF_FFFF_FFFF;

    open spec fn promoted(&self) -> u128 {
        *self as u128
    }

    open spec fn demoted(other: u128) -> u64 {
        if other > 0xFFFF_FFFF_FFFF_FFFF {
            0xFFFF_FFFF_FFFF_FFFF
        } else {
            other as u64
        }
    }

    open spec fn nonzero(&self) -> bool {
        *self != 0
    }

    open spec fn scaled(&self, mul: u64, div: u64) -> u64 {
        let exact = (*self as int * mul as int) / (div as int);
        if exact > 0xFFFF_FFFF_FFFF_FFFF {
            0xFFFF_FFFF_FFFF_FFFF
        } else {
            exact as u64
        }
    }

    fn promote(&self) -> (r: u128) {
        *self as u128
    }

    fn saturate_demote(other: u128) -> (r: u64) {
        let capped = if other < Self::MAX_VAL {
            other
        } else {
            Self::MAX_VAL
        };
        capped as u64
    }

    fn mul_then_div(&self, mul: u64, div: u64) -> (r: u64) {
        let a = self.promote();
        let b = mul.promote();
        proof {
            assert(a * b <= 0xFFFF_FFFF_FFFF_FFFE_0000_0000_0000_0001) by (nonlinear_arith)
                requires
                    a <= 0xFFFF_FFFF_FFFF_FFFF,
                    b <= 0xFFFF_FFFF_FFFF_FFFF,
            ;
        }
        let product = a * b;
        let quotient = product / div.promote();
        Self::saturate_demote(quotient)
    }
}

impl RollingSince for u64 {
    const MILLIS_PER_SECOND: u64 = 1_000;
    const MICROS_PER_SECOND: u64 = 1_000_000;

    open spec fn elapsed_since(&self, other: u64) -> u64 {
        if *self >= other {
            (*self - other) as u64
        } else {
            (*self + 0x1_0000_0000_0000_0000 - other) as u64
        }
    }

    fn since(&self, other: u64) -> (r: u64) {
        self.wrapping_sub(other)
    }
}

impl RollingSince for u32 {
    const MILLIS_PER_SECOND: u32 = 1_000;
    const MICROS_PER_SECOND: u32 = 1_000_000;

    open spec fn elapsed_since(&self, other: u32) -> u32 {
        wrapping_since(*self, other)
    }

    fn since(&self, other: u32) -> (r: u32) {
        self.wrapping_sub(other)
    }
}

/// The ticks elapsed from `then` to `now`
pub fn ticks_between(now: u32, then: u32) -> (r: u32)
    ensures
        r == wrapping_since(now, then),
{
    now.since(then)
}

/// The whole seconds elapsed from `then` to `now` at `ticks_per_second`
pub fn seconds_between(now: u32, then: u32, ticks_per_second: u32) -> (r: u32)
    requires
        ticks_per_second > 0,
    ensures
        r == wrapping_since(now, then) / ticks_per_second,
{
    ticks_between(now, then) / ticks_per_second
}

/// The whole milliseconds elapsed from `then` to `now` at `ticks_per_second`,
/// saturating at `u32::MAX`
pub fn millis_between(now: u32, then: u32, ticks_per_second: u32) -> (r: u32)
    requires
        ticks_per_second > 0,
    ensures
        r == scaled_saturating(wrapping_since(now, then), 1_000, ticks_per_second),
{
    ticks_between(now, then).mul_then_div(<u32 as RollingSince>::MILLIS_PER_SECOND, ticks_per_second)
}

/// The whole microseconds elapsed from `then` to `now` at `ticks_per_second`,
/// saturating at `u32::MAX`
pub fn micros_between(now: u32, then: u32, ticks_per_second: u32) -> (r: u32)
    requires
        ticks_per_second > 0,
    ensures
        r == scaled_saturating(wrapping_since(now, then), 1_000_000, ticks_per_second),
{
    ticks_between(now, then).mul_then_div(<u32 as RollingSince>::MICROS_PER_SECOND, ticks_per_second)
}

/// A free-running 32-bit tick counter
pub trait RollingTimer {
    /// The rate of the counter; must not be zero
    const TICKS_PER_SECOND: u32;

    /// Get the current tick
    fn get_ticks(&self) -> u32;

    /// Determine if the timer is initialized
    fn is_initialized(&self) -> bool;

    /// Get the number of ticks since the other measurement
    ///
    /// Make sure the old value isn't too stale. The ticks are counted
    /// forward from `rhs` to the tick that this call reads from
    /// [`RollingTimer::get_ticks`], across a wrap-around of the counter.
    fn ticks_since(&self, rhs: u32) -> (r: u32)
        ensures
            exists|now: u32|
                call_ensures(Self::get_ticks, (self,), now) && r == wrapping_since(now, rhs) && (rhs
                    + r) % 0x1_0000_0000 == now,
    {
        let read = Self::get_ticks;
        let now = read(self);
        proof {
            lemma_wrapping_since(now, rhs);
        }
        ticks_between(now, rhs)
    }

    /// Get the number of whole seconds since the other measurement
    ///
    /// Make sure the old value isn't too stale
    fn seconds_since(&self, rhs: u32) -> (r: u32)
        requires
            Self::TICKS_PER_SECOND > 0,
        ensures
            exists|now: u32|
                call_ensures(Self::get_ticks, (self,), now) && r == wrapping_since(now, rhs)
                    / Self::TICKS_PER_SECOND,
    {
        let read = Self::get_ticks;
        let now = read(self);
        seconds_between(now, rhs, Self::TICKS_PER_SECOND)
    }

    /// Get the number of whole milliseconds since the other measurement,
    /// saturating at `u32::MAX`
    fn millis_since(&self, rhs: u32) -> (r: u32)
        requires
            Self::TICKS_PER_SECOND > 0,
        ensures
            exists|now: u32|
                call_ensures(Self::get_ticks, (self,), now) && r == scaled_saturating(
                    wrapping_since(now, rhs),
                    1_000,
                    Self::TICKS_PER_SECOND,
                ),
    {
        let read = Self::get_ticks;
        let now = read(self);
        millis_between(now, rhs, Self::TICKS_PER_SECOND)
    }

    /// Get the number of whole microseconds since the other measurement,
    /// saturating at `u32::MAX`
    fn micros_since(&self, rhs: u32) -> (r: u32)
        requires
            Self::TICKS_PER_SECOND > 0,
        ensures
            exists|now: u32|
                call_ensures(Self::get_ticks, (self,), now) && r == scaled_saturating(
                    wrapping_since(now, rhs),
                    1_000_000,
                    Self::TICKS_PER_SECOND,
                ),
    {
        let read = Self::get_ticks;
        let now = read(self);
        micros_between(now, rhs, Self::TICKS_PER_SECOND)
    }
}

/// The ticks elapsed across a wrap-around are counted right: adding them
/// to the earlier tick gives the later one, modulo the counter's range, and
/// a counter that did not wrap gives the plain difference.
pub proof fn lemma_wrapping_since(now: u32, then: u32)
    ensures
        (then + wrapping_since(now, then)) % 0x1_0000_0000 == now,
        now >= then ==> wrapping_since(now, then) == now - then,
        wrapping_since(now, now) == 0,
{
}

/// The ticks from `then` to `now` are the one count that, added to `then`,
/// gives `now` on the wrapping counter: counted forward, never backward.
pub proof fn lemma_forward_count_unique(now: u32, then: u32, r: u32)
    ensures
        (then + r) % 0x1_0000_0000 == now <==> r == wrapping_since(now, then),
{
}

/// A count of seconds, milliseconds or microseconds never decreases as more
/// ticks elapse.
pub proof fn lemma_scaled_monotonic(a: u32, b: u32, mul: u32, div: u32)
    requires
        div > 0,
        a <= b,
    ensures
        scaled_saturating(a, mul, div) <= scaled_saturating(b, mul, div),
{
    assert((a as int * mul as int) <= (b as int * mul as int)) by (nonlinear_arith)
        requires
            a <= b,
    ;
    assert((a as int * mul as int) / (div as int) <= (b as int * mul as int) / (div as int)) by (nonlinear_arith)
        requires
            (a as int * mul as int) <= (b as int * mul as int),
            div > 0,
    ;
}

} // verus!
