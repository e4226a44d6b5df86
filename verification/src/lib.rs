//! Anachro: a publish/subscribe protocol for small devices, with the
//! state machines of its clients and its broker.
pub mod groundhog;
pub mod icd;
pub mod server;
pub mod client;
pub mod spi;
pub mod twim;
pub mod uarte;
pub mod frame;
