use anachro::twim::{
    in_data_ram, copy_len_check, errorsrc_check, read_amount_check, rx_buffer_check, timeout_check,
    tx_buffer_check, write_amount_check, write_read_amount_check, Error,
};
use anachro::uarte::{
    irq_plan, port_bit, read_len_ok, rx_received, rx_recycle, tx_chunk_len, write_len_ok, Port,
    UarteEvents,
};

#[test]
fn twim_tx_buffer_rules() {
    assert_eq!(tx_buffer_check(false, 4), Err(Error::DMABufferNotInDataMemory));
    assert_eq!(tx_buffer_check(true, 0), Err(Error::TxBufferZeroLength));
    assert_eq!(tx_buffer_check(true, 65536), Err(Error::TxBufferTooLong));
    assert_eq!(tx_buffer_check(true, 65535), Ok(()));
    assert_eq!(tx_buffer_check(true, 1), Ok(()));
}

#[test]
fn twim_rx_buffer_rules() {
    assert_eq!(rx_buffer_check(0), Err(Error::RxBufferZeroLength));
    assert_eq!(rx_buffer_check(70000), Err(Error::RxBufferTooLong));
    assert_eq!(rx_buffer_check(16), Ok(()));
}

#[test]
fn twim_errorsrc_mapping() {
    assert_eq!(errorsrc_check(true, true, true), Err(Error::AddressNack));
    assert_eq!(errorsrc_check(false, true, false), Err(Error::DataNack));
    assert_eq!(errorsrc_check(false, false, true), Err(Error::DataNack));
    assert_eq!(errorsrc_check(false, false, false), Ok(()));
}

#[test]
fn twim_amount_checks() {
    assert_eq!(write_amount_check(3, 3), Ok(()));
    assert_eq!(write_amount_check(2, 3), Err(Error::Transmit));
    assert_eq!(read_amount_check(2, 3), Err(Error::Receive));
    assert_eq!(read_amount_check(5, 5), Ok(()));
    assert_eq!(write_read_amount_check(1, 2, 0, 3), Err(Error::Transmit));
    assert_eq!(write_read_amount_check(2, 2, 0, 3), Err(Error::Receive));
    assert_eq!(write_read_amount_check(2, 2, 3, 3), Ok(()));
}

#[test]
fn twim_copy_and_timeout() {
    assert_eq!(copy_len_check(1024), Ok(()));
    assert_eq!(copy_len_check(1025), Err(Error::TxBufferTooLong));
    assert_eq!(timeout_check(99_999, 100_000), Ok(()));
    assert_eq!(timeout_check(100_000, 100_000), Err(Error::Timeout(100_000)));
}

fn events() -> UarteEvents {
    UarteEvents {
        endrx: false,
        endtx: false,
        rxdrdy: false,
        error: false,
        txstopped: false,
        timeout: false,
        errsrc: 0,
    }
}

#[test]
fn uarte_quiet_interrupt_does_nothing() {
    let p = irq_plan(&events(), true, true);
    assert!(!p.service_rx);
    assert!(!p.cancel_read);
    assert!(!p.service_tx);
    assert!(!p.release_tx);
    assert!(!p.clear_errsrc);
}

#[test]
fn uarte_timeout_cuts_partial_read() {
    let mut ev = events();
    ev.timeout = true;
    ev.rxdrdy = true;
    let p = irq_plan(&ev, true, true);
    assert!(p.service_rx);
    assert!(p.cancel_read);
    assert!(p.clear_rxdrdy);

    ev.endrx = true;
    let p = irq_plan(&ev, true, true);
    assert!(p.service_rx);
    assert!(!p.cancel_read);
    assert!(p.clear_endrx);
}

#[test]
fn uarte_missing_grants_are_serviced() {
    let mut ev = events();
    ev.errsrc = 4;
    let p = irq_plan(&ev, false, false);
    assert!(p.service_rx);
    assert!(p.service_tx);
    assert!(!p.release_tx);
    assert!(p.clear_errsrc);

    ev.endtx = true;
    let p = irq_plan(&ev, true, true);
    assert!(p.service_tx);
    assert!(p.release_tx);
    assert!(p.clear_endtx);
}

#[test]
fn uarte_receive_and_lengths() {
    assert_eq!(rx_received(false, 17), 0);
    assert_eq!(rx_received(true, 17), 17);
    assert!(rx_recycle(3, true));
    assert!(rx_recycle(0, false));
    assert!(!rx_recycle(0, true));
    assert_eq!(tx_chunk_len(10), 10);
    assert_eq!(tx_chunk_len(70_000), 65_535);
    assert!(read_len_ok(255));
    assert!(!read_len_ok(256));
    assert!(write_len_ok(65_535));
    assert!(!write_len_ok(65_536));
    assert!(!port_bit(&Port::Port0));
    assert!(port_bit(&Port::Port1));
}

#[test]
fn twim_ram_check() {
    assert!(in_data_ram(0x2000_0000, 16));
    assert!(!in_data_ram(0x1FFF_FFFF, 1));
    assert!(!in_data_ram(0x2FFF_FFF0, 16));
    assert!(in_data_ram(0x2FFF_FFF0, 15));
    assert!(!in_data_ram(0x3000_0000, 0));
    assert!(!in_data_ram(usize::MAX, 2));
}
