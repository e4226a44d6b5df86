//! # Client Messages
//!
//! These are messages that are sent FROM the peripheral
//! Component/Client, TO the central Arbitrator.
//!
//! The [`Component` enum](enum.Component.html) is the top level
//! message sent by Component/Clients.

use crate::icd::{Name, PubSubPath, Version};
use vstd::prelude::*;

verus! {

/// Component Message
///
/// This is the primary message sent FROM the peripheral
/// Component/Client, TO the central Arbitrator.
#[derive(Debug, Eq, PartialEq)]
pub enum Component<'a> {
    /// Control Messages
    ///
    /// These are used to establish or manage the connection
    /// between the Component/Client and Arbitrator
    Control(Control<'a>),
    /// Pub/Sub messages
    ///
    /// These are used to send or receive Pub/Sub messages
    PubSub(PubSub<'a>),
}

/// Pub/Sub Message
///
/// These messages are used to communicate on the Pub/Sub
/// communication layer
#[derive(Debug, Eq, PartialEq)]
pub struct PubSub<'a> {
    /// The path in question, common to all message types
    pub path: PubSubPath<'a>,
    /// The pub/sub message type
    pub ty: PubSubType<'a>,
}

/// Pub/Sub Message Type
///
/// The specific kind of pub/sub message
#[derive(Debug, Eq, PartialEq)]
pub enum PubSubType<'a> {
    /// Publish the given message/payload on the given path
    Pub { payload: &'a [u8] },
    /// Subscribe to the given path
    Sub,
    /// Unsubscribe to the given path
    Unsub,
}

/// Control Messages
///
/// These messages are used to communicate on the control layer
#[derive(Debug, Eq, PartialEq)]
pub struct Control<'a> {
    /// Sequence Number
    ///
    /// This number is chosen by the Client/Component, and
    /// will be echoed back by the Arbitrator when replying
    pub seq: u16,
    /// The specific control message
    pub ty: ControlType<'a>,
}

/// Control Message Type
///
/// The specific kind of Control Message
#[derive(Debug, Eq, PartialEq)]
pub enum ControlType<'a> {
    /// This message is used to establish/reset the connection
    /// between a given client and an Arbitrator
    RegisterComponent(ComponentInfo<'a>),
    /// This message is used to register a path "short code",
    /// which can use a u16 instead of a full utf-8 path to save
    /// message bandwidth
    RegisterPubSubShortId(PubSubShort<'a>),
}

/// Information about this Component/Client needed for
/// registration
#[derive(Debug, Eq, PartialEq)]
pub struct ComponentInfo<'a> {
    /// The name of the Client/Component
    pub name: Name<'a>,
    /// The verson of the Client/Component
    pub version: Version,
}

/// Pub/Sub Short Code Registration
#[derive(Debug, Eq, PartialEq)]
pub struct PubSubShort<'a> {
    /// The 'long' UTF-8 path to register
    pub long_name: &'a str,
    /// The 'short' u16 path to register
    pub short_id: u16,
}

} // verus!
