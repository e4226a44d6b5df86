//! The rules of the interrupt-driven nRF52840 UARTE transport
//!
//! A timer pends the UARTE interrupt periodically; at each interrupt the
//! handler hands received bytes to the incoming queue and sends the next
//! chunk of the outgoing queue. What the handler does with the events it
//! reads is decided here.

use nrf52840_hal::timer::Instance as TimerInstance;
use vstd::prelude::*;

verus! {

#[verifier::external_type_specification]
#[verifier::external_body]
pub struct ExInterrupt(nrf52840_hal::pac::Interrupt);

/// The longest buffer EasyDMA moves on the nRF52840
pub const EASY_DMA_SIZE: usize = 65535;

/// The longest buffer a read is started with (its length register is a
/// byte)
pub const MAX_READ_LEN: usize = 255;

/// `disable_interrupt` of a timer instance: stops the interrupt of its
/// compare event. Nothing is claimed of the hardware.
#[verifier::external_body]
fn timer_disable_interrupt<T: TimerInstance>(timer: &T) {
    timer.disable_interrupt();
}

/// `timer_cancel` of a timer instance: stops the timer and resets its
/// compare event. Nothing is claimed of the hardware.
#[verifier::external_body]
fn timer_cancel<T: TimerInstance>(timer: &T) {
    timer.timer_cancel();
}

/// `set_periodic` of a timer instance: a 1 MHz, 32-bit timer that clears
/// itself at its compare value. Nothing is claimed of the hardware.
#[verifier::external_body]
fn timer_set_periodic<T: TimerInstance>(timer: &T) {
    timer.set_periodic();
}

/// `set_shorts_periodic` of a timer instance. Nothing is claimed of the
/// hardware.
#[verifier::external_body]
fn timer_set_shorts_periodic<T: TimerInstance>(timer: &T) {
    timer.set_shorts_periodic();
}

/// `enable_interrupt` of a timer instance: enables the interrupt of its
/// compare event. Nothing is claimed of the hardware.
#[verifier::external_body]
fn timer_enable_interrupt<T: TimerInstance>(timer: &T) {
    timer.enable_interrupt();
}

/// `timer_start` of a timer instance: starts it with `cycles` as its
/// compare value. Nothing is claimed of the hardware.
#[verifier::external_body]
fn timer_start<T: TimerInstance>(timer: &T, cycles: u32) {
    timer.timer_start(cycles);
}

/// `timer_reset_event` of a timer instance: resets its compare event.
/// Nothing is claimed of the hardware.
#[verifier::external_body]
fn timer_reset_event<T: TimerInstance>(timer: &T) {
    timer.timer_reset_event();
}

/// `NVIC::pend`: marks the interrupt as pending. Nothing is claimed of the
/// hardware.
#[verifier::external_body]
fn nvic_pend(interrupt: nrf52840_hal::pac::Interrupt) {
    nrf52840_hal::pac::NVIC::pend(interrupt);
}

/// The timer that makes a UARTE interrupt give up on a quiet line
pub struct UarteTimer<Timer> {
    pub timer: Timer,
    pub timeout_flag: &'static core::sync::atomic::AtomicBool,
    pub interrupt: nrf52840_hal::pac::Interrupt,
}

impl<Timer> UarteTimer<Timer> where Timer: TimerInstance {
    /// A timer that raises `timeout_flag` and pends `interrupt` each time
    /// it fires
    pub fn new(
        timer: Timer,
        timeout_flag: &'static core::sync::atomic::AtomicBool,
        interrupt: nrf52840_hal::pac::Interrupt,
    ) -> (r: Self)
        ensures
            r.timer == timer,
            r.timeout_flag == timeout_flag,
            r.interrupt == interrupt,
    {
        UarteTimer { timer, timeout_flag, interrupt }
    }

    /// Start the timer, firing every `microsecs` microseconds
    pub fn init(&mut self, microsecs: u32)
        ensures
            *final(self) == *old(self),
    {
        timer_disable_interrupt(&self.timer);
        timer_cancel(&self.timer);
        timer_set_periodic(&self.timer);
        timer_set_shorts_periodic(&self.timer);
        timer_enable_interrupt(&self.timer);
        timer_start(&self.timer, microsecs);
    }

    /// The timer fired: reset its event, raise the timeout flag, and pend
    /// the UARTE interrupt
    pub fn interrupt(&self) {
        timer_reset_event(&self.timer);
        self.timeout_flag.store(true, core::sync::atomic::Ordering::SeqCst);
        nvic_pend(self.interrupt);
    }
}

/// The events a UARTE interrupt found raised
#[derive(Debug, PartialEq, Eq, Clone, Copy, Structural)]
pub struct UarteEvents {
    /// The receive buffer is full
    pub endrx: bool,
    /// The transmit buffer was sent
    pub endtx: bool,
    /// At least one byte was received
    pub rxdrdy: bool,
    pub error: bool,
    pub txstopped: bool,
    /// The timer fired since the last interrupt
    pub timeout: bool,
    /// The ERRORSRC register
    pub errsrc: u32,
}

/// What a UARTE interrupt does with the events it found
#[derive(Debug, PartialEq, Eq, Clone, Copy, Structural)]
pub struct IrqPlan {
    /// Look at the receive side: take what was received, and cycle the
    /// receive grant where needed (see [`rx_received`] and [`rx_recycle`])
    pub service_rx: bool,
    /// First stop the unfinished read and flush the FIFO
    pub cancel_read: bool,
    /// Look at the transmit side: start sending the next chunk, if any
    pub service_tx: bool,
    /// First release the chunk that was sent
    pub release_tx: bool,
    /// Clear the events that were handled
    pub clear_endrx: bool,
    pub clear_endtx: bool,
    pub clear_error: bool,
    pub clear_rxdrdy: bool,
    pub clear_txstopped: bool,
    /// Clear the ERRORSRC flags that were found
    pub clear_errsrc: bool,
}

/// Decide what a UARTE interrupt does with the events `ev`, given whether a
/// receive grant (`has_rx`) and a transmit grant (`has_tx`) are held
///
/// The receive side is looked at when the buffer filled, the timer fired,
/// or no read is in progress; an unfinished read is cut short only when the
/// timer fired and bytes arrived. The transmit side is looked at when a
/// chunk was sent or none is in progress.
pub fn irq_plan(ev: &UarteEvents, has_rx: bool, has_tx: bool) -> (p: IrqPlan)
    ensures
        p.service_rx == (ev.endrx || ev.timeout || !has_rx),
        p.cancel_read == (p.service_rx && !ev.endrx && ev.timeout && ev.rxdrdy),
        p.service_tx == (ev.endtx || !has_tx),
        p.release_tx == ev.endtx,
        p.clear_endrx == ev.endrx,
        p.clear_endtx == ev.endtx,
        p.clear_error == ev.error,
        p.clear_rxdrdy == ev.rxdrdy,
        p.clear_txstopped == ev.txstopped,
        p.clear_errsrc == (ev.errsrc != 0),
{
    let service_rx = ev.endrx || ev.timeout || !has_rx;
    IrqPlan {
        service_rx,
        cancel_read: service_rx && !ev.endrx && ev.timeout && ev.rxdrdy,
        service_tx: ev.endtx || !has_tx,
        release_tx: ev.endtx,
        clear_endrx: ev.endrx,
        clear_endtx: ev.endtx,
        clear_error: ev.error,
        clear_rxdrdy: ev.rxdrdy,
        clear_txstopped: ev.txstopped,
        clear_errsrc: ev.errsrc != 0,
    }
}

/// The bytes a read delivered: its AMOUNT register, which is only trusted
/// when a byte was received since the read began
pub fn rx_received(rxdrdy: bool, amount: u32) -> (r: usize)
    ensures
        r == (if rxdrdy {
            amount as usize
        } else {
            0
        }),
{
    if rxdrdy {
        amount as usize
    } else {
        0
    }
}

/// Is the receive grant cycled (the `received` bytes committed, and a new
/// grant taken)? Only when something was received, or no grant is held.
pub fn rx_recycle(received: usize, has_rx: bool) -> (r: bool)
    ensures
        r == (received != 0 || !has_rx),
{
    received != 0 || !has_rx
}

/// The part of a `len`-byte outgoing chunk that one write sends (and that
/// is released once it was sent)
pub fn tx_chunk_len(len: usize) -> (r: usize)
    ensures
        r == (if len < EASY_DMA_SIZE {
            len
        } else {
            EASY_DMA_SIZE
        }),
{
    if len < EASY_DMA_SIZE {
        len
    } else {
        EASY_DMA_SIZE
    }
}

/// Can a read be started with a buffer of `len` bytes?
pub fn read_len_ok(len: usize) -> (r: bool)
    ensures
        r == (len <= MAX_READ_LEN),
{
    len <= MAX_READ_LEN
}

/// Can a write be started with a buffer of `len` bytes?
pub fn write_len_ok(len: usize) -> (r: bool)
    ensures
        r == (len <= EASY_DMA_SIZE),
{
    len <= EASY_DMA_SIZE
}

/// A GPIO port of the nRF52840
#[derive(Debug, PartialEq, Eq, Clone, Copy, Structural)]
pub enum Port {
    Port0,
    Port1,
}

/// The PORT bit of a pin select register for a pin of port `p`
pub fn port_bit(p: &Port) -> (r: bool)
    ensures
        r == (*p == Port::Port1),
{
    match p {
        Port::Port0 => false,
        Port::Port1 => true,
    }
}

} // verus!
