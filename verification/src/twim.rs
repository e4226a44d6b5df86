//! The rules of the nRF52840 TWIM (I2C master) driver
//!
//! The driver hands EasyDMA buffers to the peripheral, starts a transfer,
//! waits for it to stop, and then judges the outcome. What it checks before
//! and after the transfer is decided here.

use vstd::prelude::*;

verus! {

/// The longest buffer EasyDMA moves on the nRF52840
pub const EASY_DMA_SIZE: usize = 65535;

/// The size of the RAM buffer a write is copied through when its data does
/// not lie in RAM
pub const FORCE_COPY_BUFFER_SIZE: usize = 1024;

/// The first address of the data RAM, the only memory EasyDMA reads
pub const SRAM_LOWER: usize = 0x2000_0000;

/// The address past the data RAM
pub const SRAM_UPPER: usize = 0x3000_0000;

/// Does a buffer of `len` bytes at address `start` lie in data RAM (its end
/// strictly below `SRAM_UPPER`)?
pub fn in_data_ram(start: usize, len: usize) -> (r: bool)
    ensures
        r == (SRAM_LOWER <= start && start + len < SRAM_UPPER),
{
    start >= SRAM_LOWER && start < SRAM_UPPER && len < SRAM_UPPER - start
}

/// The errors of a TWIM transfer
#[derive(Debug, Copy, Clone, Eq, PartialEq, Structural)]
pub enum Error {
    TxBufferTooLong,
    RxBufferTooLong,
    TxBufferZeroLength,
    RxBufferZeroLength,
    Transmit,
    Receive,
    DMABufferNotInDataMemory,
    AddressNack,
    DataNack,
    Overrun,
    Timeout(u32),
}

/// Can a buffer of `len` bytes, lying in RAM or not (`in_ram`), be sent?
pub fn tx_buffer_check(in_ram: bool, len: usize) -> (r: Result<(), Error>)
    ensures
        !in_ram ==> r == Err::<(), Error>(Error::DMABufferNotInDataMemory),
        in_ram && len == 0 ==> r == Err::<(), Error>(Error::TxBufferZeroLength),
        in_ram && len > EASY_DMA_SIZE ==> r == Err::<(), Error>(Error::TxBufferTooLong),
        in_ram && 0 < len <= EASY_DMA_SIZE ==> r is Ok,
{
    if !in_ram {
        return Err(Error::DMABufferNotInDataMemory);
    }
    if len == 0 {
        return Err(Error::TxBufferZeroLength);
    }
    if len > EASY_DMA_SIZE {
        return Err(Error::TxBufferTooLong);
    }
    Ok(())
}

/// Can a buffer of `len` bytes receive? (A mutable buffer always lies in
/// RAM.)
pub fn rx_buffer_check(len: usize) -> (r: Result<(), Error>)
    ensures
        len == 0 ==> r == Err::<(), Error>(Error::RxBufferZeroLength),
        len > EASY_DMA_SIZE ==> r == Err::<(), Error>(Error::RxBufferTooLong),
        0 < len <= EASY_DMA_SIZE ==> r is Ok,
{
    if len == 0 {
        return Err(Error::RxBufferZeroLength);
    }
    if len > EASY_DMA_SIZE {
        return Err(Error::RxBufferTooLong);
    }
    Ok(())
}

/// The error the ERRORSRC flags report: a NACK of the address, a NACK of a
/// data byte, or an overrun (reported as a data NACK), in that order
pub fn errorsrc_check(anack: bool, dnack: bool, overrun: bool) -> (r: Result<(), Error>)
    ensures
        anack ==> r == Err::<(), Error>(Error::AddressNack),
        !anack && (dnack || overrun) ==> r == Err::<(), Error>(Error::DataNack),
        !anack && !dnack && !overrun ==> r is Ok,
{
    if anack {
        return Err(Error::AddressNack);
    }
    if dnack {
        return Err(Error::DataNack);
    }
    if overrun {
        return Err(Error::DataNack);
    }
    Ok(())
}

/// Did a write move its whole buffer of `len` bytes, the peripheral having
/// counted `amount`?
pub fn write_amount_check(amount: u32, len: usize) -> (r: Result<(), Error>)
    ensures
        r is Ok <==> amount == len as u32,
        r is Err ==> r == Err::<(), Error>(Error::Transmit),
{
    if amount != len as u32 {
        return Err(Error::Transmit);
    }
    Ok(())
}

/// Did a read fill its whole buffer of `len` bytes, the peripheral having
/// counted `amount`?
pub fn read_amount_check(amount: u32, len: usize) -> (r: Result<(), Error>)
    ensures
        r is Ok <==> amount == len as u32,
        r is Err ==> r == Err::<(), Error>(Error::Receive),
{
    if amount != len as u32 {
        return Err(Error::Receive);
    }
    Ok(())
}

/// Did a write followed by a read move both whole buffers? A short write is
/// reported before a short read.
pub fn write_read_amount_check(tx_amount: u32, tx_len: usize, rx_amount: u32, rx_len: usize) -> (r:
    Result<(), Error>)
    ensures
        tx_amount != tx_len as u32 ==> r == Err::<(), Error>(Error::Transmit),
        tx_amount == tx_len as u32 && rx_amount != rx_len as u32 ==> r == Err::<(), Error>(
            Error::Receive,
        ),
        tx_amount == tx_len as u32 && rx_amount == rx_len as u32 ==> r is Ok,
{
    let bad_write = tx_amount != tx_len as u32;
    let bad_read = rx_amount != rx_len as u32;
    if bad_write {
        return Err(Error::Transmit);
    }
    if bad_read {
        return Err(Error::Receive);
    }
    Ok(())
}

/// Can a write of `len` bytes be copied through the RAM buffer?
pub fn copy_len_check(len: usize) -> (r: Result<(), Error>)
    ensures
        len > FORCE_COPY_BUFFER_SIZE ==> r == Err::<(), Error>(Error::TxBufferTooLong),
        len <= FORCE_COPY_BUFFER_SIZE ==> r is Ok,
{
    if len > FORCE_COPY_BUFFER_SIZE {
        return Err(Error::TxBufferTooLong);
    }
    Ok(())
}

/// Has a transfer that began `elapsed` ticks ago run out of its
/// `timeout_ticks`?
pub fn timeout_check(elapsed: u32, timeout_ticks: u32) -> (r: Result<(), Error>)
    ensures
        elapsed >= timeout_ticks ==> r == Err::<(), Error>(Error::Timeout(timeout_ticks)),
        elapsed < timeout_ticks ==> r is Ok,
{
    if elapsed >= timeout_ticks {
        return Err(Error::Timeout(timeout_ticks));
    }
    Ok(())
}

} // verus!
