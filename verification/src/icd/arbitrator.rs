//! # Arbitrator Messages
//!
//! These are messages that are sent FROM the central Arbitrator,
//! TO the peripheral Component/Client.

use crate::icd::{PubSubPath, Uuid};
use vstd::prelude::*;

verus! {

/// Arbitrator Message
#[derive(Debug, Eq, PartialEq)]
pub enum Arbitrator<'a> {
    Control(Control),
    PubSub(Result<PubSubResponse<'a>, PubSubError>),
    ObjStore,
    Mailbox,
}

/// The response to a Pub/Sub request
#[derive(Debug, Eq, PartialEq)]
pub enum PubSubResponse<'a> {
    SubAck { path: PubSubPath<'a> },
    SubMsg(SubMsg<'a>),
}

/// A message published on a path the Component subscribed to
#[derive(Debug, Eq, PartialEq)]
pub struct SubMsg<'a> {
    pub path: PubSubPath<'a>,
    pub payload: &'a [u8],
}

/// The response to a Control request
#[derive(Debug, Eq, PartialEq)]
pub struct Control {
    pub seq: u16,
    pub response: Result<ControlResponse, ControlError>,
}

/// A successful answer to a Control request
#[derive(Debug, Eq, PartialEq)]
pub enum ControlResponse {
    ComponentRegistration(Uuid),
    PubSubShortRegistration(u16),
}

/// A refused Control request
#[derive(Debug, Eq, PartialEq)]
pub enum ControlError {
    NoWildcardsInShorts,
    ResetConnection,
}

/// A Pub/Sub error
///
/// The protocol defines no Pub/Sub error yet: nothing in this library
/// builds one, and none can be built outside it.
#[derive(Debug, Eq, PartialEq)]
pub struct PubSubError {
    undefined: (),
}

} // verus!
