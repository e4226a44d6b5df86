//! # The Anachro Protocol Client Library
//!
//! The Client tracks the state of its connection to a broker: it registers
//! as a component, subscribes to its topics, registers short codes for its
//! subscribe and publish paths, and then exchanges Pub/Sub messages.

use crate::icd::arbitrator::{
    Arbitrator, Control as AControl, ControlResponse, PubSubResponse, SubMsg,
};
use crate::icd::component::{
    Component, ComponentInfo, Control as CControl, ControlType, PubSub, PubSubShort, PubSubType,
};
use crate::server::pushed_since;
use crate::icd::{
    topic_matches, str_equal, utf8_len, ManagedString, Name, Path, PathView, PubSubPath, StrBuf, Uuid, Version,
    MAX_NAME_LEN,
};
use vstd::prelude::*;
use vstd::string::StringSliceAdditionalSpecFns;

verus! {

/// The reasons postcard gives for failing to encode or decode a message,
/// as plain values (the application maps postcard's own error onto these)
#[derive(Debug, PartialEq, Eq, Clone, Copy, Structural)]
pub enum PostcardError {
    WontImplement,
    NotYetImplemented,
    SerializeBufferFull,
    SerializeSeqLengthUnknown,
    DeserializeUnexpectedEnd,
    DeserializeBadVarint,
    DeserializeBadBool,
    DeserializeBadChar,
    DeserializeBadUtf8,
    DeserializeBadOption,
    DeserializeBadEnum,
    DeserializeBadEncoding,
    SerdeSerCustom,
    SerdeDeCustom,
}

/// The shortcode offset used for Publish topics
///
/// `0x0000..=0x7FFF` is the range used for subscription topic shortcodes,
/// and `0x8000..=0xFFFF` the range used for publish topic shortcodes.
pub const PUBLISH_SHORTCODE_OFFSET: u16 = 0x8000;

/// The Error type of the ClientIo interface
#[derive(Debug, PartialEq, Eq, Clone, Copy, Structural)]
pub enum ClientIoError {
    /// The ClientIo implementor failed to deserialize an incoming message
    ParsingError,
    /// The ClientIo implementor does not have any data to give at the moment
    NoData,
    /// The ClientIo is unable to send a packet, as the interface is full/busy
    OutputFull,
}

/// The main Client error type
#[derive(Debug, PartialEq, Eq, Clone, Copy, Structural)]
pub enum Error {
    NotActive,
    Busy,
    UnexpectedMessage,
    ClientIoError(ClientIoError),
}

impl From<ClientIoError> for Error {
    fn from(other: ClientIoError) -> (r: Error) {
        Error::ClientIoError(other)
    }
}

impl vstd::std_specs::convert::FromSpecImpl<ClientIoError> for Error {
    open spec fn obeys_from_spec() -> bool {
        true
    }

    open spec fn from_spec(other: ClientIoError) -> Error {
        Error::ClientIoError(other)
    }
}

/// A trait for defining the IO layer for a given client
pub trait ClientIo {
    /// Attempt to receive one message FROM the Arbitrator/Broker, TO the Client
    fn recv(&mut self) -> Result<Option<Arbitrator>, ClientIoError>;

    /// Attempt to send one message TO the Arbitrator/Broker, FROM the Client
    fn send(&mut self, msg: &Component) -> Result<(), ClientIoError>;
}

/// A message sent to the broker, as plain values
pub enum SentView {
    /// A component registration
    Register { seq: u16, name: Seq<char>, version: Version },
    /// A short code registration
    ShortCode { seq: u16, long: Seq<char>, short: u16 },
    /// A subscription
    Subscribe { path: PathView },
    /// The end of a subscription
    Unsubscribe { path: PathView },
    /// A publication
    Publish { path: PathView, payload: Seq<u8> },
}

/// The message `c`, as plain values
pub open spec fn component_view(c: Component) -> SentView {
    match c {
        Component::Control(ctl) => match ctl.ty {
            ControlType::RegisterComponent(info) => SentView::Register {
                seq: ctl.seq,
                name: info.name.chars(),
                version: info.version,
            },
            ControlType::RegisterPubSubShortId(ps) => SentView::ShortCode {
                seq: ctl.seq,
                long: ps.long_name@,
                short: ps.short_id,
            },
        },
        Component::PubSub(ps) => match ps.ty {
            PubSubType::Pub { payload } => SentView::Publish { path: ps.path.view(), payload: payload@ },
            PubSubType::Sub => SentView::Subscribe { path: ps.path.view() },
            PubSubType::Unsub => SentView::Unsubscribe { path: ps.path.view() },
        },
    }
}

/// What a receipt of the transport means to the client
pub open spec fn received_view(r: Result<Option<Arbitrator>, ClientIoError>) -> Result<
    Incoming,
    ClientIoError,
> {
    match r {
        Ok(Some(a)) => Ok(incoming(Some(&a))),
        Ok(None) => Ok(Incoming::Nothing),
        Err(e) => Err(e),
    }
}

/// A client's end of its transport, with a record of each message sent
/// through it and of each receipt, each with the transport's answer
pub struct ClientLink<'c, C: ClientIo> {
    pub io: &'c mut C,
    sent: Ghost<Seq<(SentView, Result<(), ClientIoError>)>>,
    received: Ghost<Seq<Result<Incoming, ClientIoError>>>,
}

impl<'c, C: ClientIo> ClientLink<'c, C> {
    /// The messages sent so far, with the transport's answers
    pub closed spec fn sent(&self) -> Seq<(SentView, Result<(), ClientIoError>)> {
        self.sent@
    }

    /// The receipts so far
    pub closed spec fn received(&self) -> Seq<Result<Incoming, ClientIoError>> {
        self.received@
    }

    /// Record what goes through `io` from now on
    pub fn new(io: &'c mut C) -> (r: Self)
        ensures
            r.sent() == Seq::<(SentView, Result<(), ClientIoError>)>::empty(),
            r.received() == Seq::<Result<Incoming, ClientIoError>>::empty(),
    {
        ClientLink { io, sent: Ghost(Seq::empty()), received: Ghost(Seq::empty()) }
    }

    /// Send `msg` to the broker
    pub fn send(&mut self, msg: &Component) -> (r: Result<(), ClientIoError>)
        ensures
            final(self).sent() == old(self).sent().push((component_view(*msg), r)),
            final(self).received() == old(self).received(),
    {
        let r = self.io.send(msg);
        proof {
            self.sent@ = self.sent@.push((component_view(*msg), r));
        }
        r
    }

    /// Receive a message from the broker, if one is there
    pub fn recv(&mut self) -> (r: Result<Option<Arbitrator<'_>>, ClientIoError>)
        ensures
            final(self).received() == old(self).received().push(received_view(r)),
            final(self).sent() == old(self).sent(),
    {
        let r = self.io.recv();
        proof {
            self.received@ = self.received@.push(received_view(r));
        }
        r
    }
}

/// The reasons a table cannot decode a published message
pub enum TableError {
    NoMatch,
    Postcard(PostcardError),
}

/// A table of the topics a client subscribes to and publishes on
pub trait Table: Sized {
    fn sub_paths() -> &'static [&'static str];
    fn pub_paths() -> &'static [&'static str];
    fn from_pub_sub<'a>(msg: &'a SubMsg<'a>) -> Result<Self, TableError>;
}

/// A message that has been received FROM the Broker, TO the Client
#[derive(Debug)]
pub struct RecvMsg<T: Table> {
    pub path: Path<'static>,
    pub payload: T,
}

/// A message to be sent TO the Broker, FROM the Client
#[derive(Debug)]
pub struct SendMsg<'a> {
    pub buf: &'a [u8],
    pub path: &'static str,
}

/// The characters of each path of a table
pub open spec fn paths_chars(paths: Seq<&str>) -> Seq<Seq<char>> {
    paths.map_values(|s: &str| s@)
}

/// The state of a client's connection
#[derive(Debug, PartialEq, Eq, Clone, Copy, Structural)]
pub enum ClientState {
    Disconnected,
    PendingRegistration,
    Registered,
    Subscribing,
    Subscribed,
    ShortCodingSub,
    ShortCodingPub,
    Active,
}

impl ClientState {
    pub(crate) fn as_active(&self) -> (r: Result<(), Error>)
        ensures
            *self == ClientState::Active ==> r is Ok,
            *self != ClientState::Active ==> r == Err::<(), Error>(Error::NotActive),
    {
        match self {
            ClientState::Active => Ok(()),
            _ => Err(Error::NotActive),
        }
    }
}

/// The abstract state of a client
pub struct ClientModel {
    pub state: ClientState,
    pub ctr: u16,
    pub tick: u8,
    pub idx: usize,
    pub uuid: Seq<u8>,
    pub timeout: Option<u8>,
    pub subs: Seq<Seq<char>>,
    pub pubs: Seq<Seq<char>>,
    pub name: Seq<char>,
    pub version: Version,
}

/// The invariant of a client: the position it works on names one of its
/// paths, and a client whose timeout is zero ticks never gets past its
/// registration (each wait times out at once)
pub open spec fn client_wf(m: ClientModel) -> bool {
    &&& m.timeout == Some(0u8) ==> (m.state == ClientState::Disconnected || m.state
        == ClientState::PendingRegistration)
    &&& (m.state == ClientState::Subscribing || m.state == ClientState::ShortCodingSub) ==> m.idx
        < m.subs.len()
    &&& m.state == ClientState::ShortCodingPub ==> m.idx < m.pubs.len()
}

/// What a received message means to the client's connection logic
pub enum Incoming {
    /// No message was received
    Nothing,
    /// A control response: the id assigned by a registration, or the code
    /// confirmed by a short code registration
    Control { seq: u16, registered: Option<Seq<u8>>, short: Option<u16> },
    /// A subscription acknowledgement, with its long path if it has one
    SubAck { long: Option<Seq<char>> },
    /// A published message, on the path it was delivered under
    Published { path: PathView },
    /// Anything else
    Other,
}

/// What the received message `msg` means to the connection logic
pub open spec fn incoming(msg: Option<&Arbitrator>) -> Incoming {
    match msg {
        None => Incoming::Nothing,
        Some(a) => match *a {
            Arbitrator::Control(c) => Incoming::Control {
                seq: c.seq,
                registered: match c.response {
                    Ok(ControlResponse::ComponentRegistration(u)) => Some(u.view()),
                    _ => None,
                },
                short: match c.response {
                    Ok(ControlResponse::PubSubShortRegistration(sid)) => Some(sid),
                    _ => None,
                },
            },
            Arbitrator::PubSub(Ok(PubSubResponse::SubAck { path })) => Incoming::SubAck {
                long: match path {
                    PubSubPath::Long(p) => Some(p.chars()),
                    PubSubPath::Short(_) => None,
                },
            },
            Arbitrator::PubSub(Ok(PubSubResponse::SubMsg(sm))) => Incoming::Published {
                path: sm.path.view(),
            },
            _ => Incoming::Other,
        },
    }
}

/// The message a client is about to send
#[derive(Debug, PartialEq, Eq, Clone, Copy, Structural)]
pub enum OutKind {
    /// Register as a component
    Register,
    /// Subscribe to subscription path `i`
    Subscribe(usize),
    /// Register the short code of subscription path `i`
    ShortSub(usize),
    /// Register the short code of publish path `i`
    ShortPub(usize),
}

/// A message to send, and the state to take once it is sent
#[derive(Debug, PartialEq, Eq, Clone, Copy, Structural)]
pub struct Outgoing {
    pub kind: OutKind,
    pub next_state: ClientState,
    pub next_idx: usize,
}

/// One more tick, saturating at `u8::MAX`
pub open spec fn sat_inc(t: u8) -> u8 {
    if t < 255 {
        (t + 1) as u8
    } else {
        255
    }
}

/// The next sequence number, wrapping at `u16::MAX`
pub open spec fn wrap_inc(c: u16) -> u16 {
    if c < 0xFFFF {
        (c + 1) as u16
    } else {
        0
    }
}

/// One more tick spent waiting
pub open spec fn bumped(m: ClientModel) -> ClientModel {
    ClientModel { tick: sat_inc(m.tick), ..m }
}

/// Has the client waited as long as its timeout allows?
pub open spec fn timed_out(m: ClientModel) -> bool {
    m.timeout matches Some(t) && t <= m.tick
}

/// The short code of publish path `i`
pub open spec fn pub_code(i: usize) -> u16 {
    (i as u16) | 0x8000
}

/// The state after the message of `out` was sent
pub open spec fn after_send(m: ClientModel, out: Outgoing) -> ClientModel {
    ClientModel { state: out.next_state, idx: out.next_idx, tick: 0, ..m }
}

/// Names `kind` a path the client has?
pub open spec fn kind_valid(m: ClientModel, kind: OutKind) -> bool {
    match kind {
        OutKind::Register => true,
        OutKind::Subscribe(i) => i < m.subs.len(),
        OutKind::ShortSub(i) => i < m.subs.len(),
        OutKind::ShortPub(i) => i < m.pubs.len(),
    }
}

/// What the connection logic does in state `m` on the received message
/// `inc`: the next state, and either an error, nothing to send, or a message
/// to send (with the state to take once it is sent)
pub open spec fn decide_spec(m: ClientModel, inc: Incoming) -> (
    ClientModel,
    Result<Option<Outgoing>, Error>,
) {
    match m.state {
        ClientState::Disconnected => (
            ClientModel { ctr: wrap_inc(m.ctr), ..m },
            Ok(
                Some(
                    Outgoing {
                        kind: OutKind::Register,
                        next_state: ClientState::PendingRegistration,
                        next_idx: m.idx,
                    },
                ),
            ),
        ),
        ClientState::PendingRegistration => {
            let (m1, r) = match inc {
                Incoming::Nothing => (bumped(m), Ok(None)),
                Incoming::Control { seq, registered, .. } => {
                    if seq != m.ctr {
                        (bumped(m), Err(Error::UnexpectedMessage))
                    } else {
                        match registered {
                            Some(u) => (
                                ClientModel {
                                    uuid: u,
                                    state: ClientState::Registered,
                                    tick: 0,
                                    ..m
                                },
                                Ok(None),
                            ),
                            None => (bumped(m), Err(Error::UnexpectedMessage)),
                        }
                    }
                },
                _ => (bumped(m), Ok(None)),
            };
            if r is Ok && timed_out(m1) {
                (ClientModel { state: ClientState::Disconnected, tick: 0, ..m1 }, r)
            } else {
                (m1, r)
            }
        },
        ClientState::Registered => {
            if m.subs.len() == 0 {
                (ClientModel { state: ClientState::Subscribed, tick: 0, ..m }, Ok(None))
            } else {
                (
                    m,
                    Ok(
                        Some(
                            Outgoing {
                                kind: OutKind::Subscribe(0),
                                next_state: ClientState::Subscribing,
                                next_idx: 0,
                            },
                        ),
                    ),
                )
            }
        },
        ClientState::Subscribing => {
            let acked = inc == (Incoming::SubAck { long: Some(m.subs[m.idx as int]) });
            let i = (m.idx + 1) as usize;
            let (m1, out) = if !acked {
                (bumped(m), None)
            } else if i >= m.subs.len() {
                (ClientModel { idx: i, state: ClientState::Subscribed, tick: 0, ..m }, None)
            } else {
                (
                    ClientModel { idx: i, ..m },
                    Some(
                        Outgoing {
                            kind: OutKind::Subscribe(i),
                            next_state: ClientState::Subscribing,
                            next_idx: i,
                        },
                    ),
                )
            };
            if out is None && timed_out(m1) {
                (
                    m1,
                    Ok(
                        Some(
                            Outgoing {
                                kind: OutKind::Subscribe(m1.idx),
                                next_state: m1.state,
                                next_idx: m1.idx,
                            },
                        ),
                    ),
                )
            } else {
                (m1, Ok(out))
            }
        },
        ClientState::Subscribed => {
            if m.subs.len() == 0 && m.pubs.len() == 0 {
                (ClientModel { state: ClientState::Active, tick: 0, ..m }, Ok(None))
            } else if m.subs.len() == 0 {
                (
                    ClientModel { ctr: wrap_inc(m.ctr), ..m },
                    Ok(
                        Some(
                            Outgoing {
                                kind: OutKind::ShortPub(0),
                                next_state: ClientState::ShortCodingPub,
                                next_idx: 0,
                            },
                        ),
                    ),
                )
            } else {
                (
                    ClientModel { ctr: wrap_inc(m.ctr), ..m },
                    Ok(
                        Some(
                            Outgoing {
                                kind: OutKind::ShortSub(0),
                                next_state: ClientState::ShortCodingSub,
                                next_idx: 0,
                            },
                        ),
                    ),
                )
            }
        },
        ClientState::ShortCodingSub => {
            let acked = inc matches Incoming::Control { seq, short: Some(sid), .. } && seq == m.ctr
                && sid == (m.idx as u16);
            let i = (m.idx + 1) as usize;
            let (m1, out) = if !acked {
                (bumped(m), None)
            } else if i >= m.subs.len() {
                if m.pubs.len() == 0 {
                    (ClientModel { idx: i, state: ClientState::Active, tick: 0, ..m }, None)
                } else {
                    (
                        ClientModel {
                            idx: 0,
                            ctr: wrap_inc(m.ctr),
                            state: ClientState::ShortCodingPub,
                            ..m
                        },
                        Some(
                            Outgoing {
                                kind: OutKind::ShortPub(0),
                                next_state: ClientState::ShortCodingPub,
                                next_idx: 0,
                            },
                        ),
                    )
                }
            } else {
                (
                    ClientModel { idx: i, ctr: wrap_inc(m.ctr), ..m },
                    Some(
                        Outgoing {
                            kind: OutKind::ShortSub(i),
                            next_state: ClientState::ShortCodingSub,
                            next_idx: i,
                        },
                    ),
                )
            };
            if out is None && timed_out(m1) {
                (
                    ClientModel { ctr: wrap_inc(m1.ctr), ..m1 },
                    Ok(
                        Some(
                            Outgoing {
                                kind: OutKind::ShortSub(m1.idx),
                                next_state: m1.state,
                                next_idx: m1.idx,
                            },
                        ),
                    ),
                )
            } else {
                (m1, Ok(out))
            }
        },
        ClientState::ShortCodingPub => {
            let acked = inc matches Incoming::Control { seq, short: Some(sid), .. } && seq == m.ctr
                && sid == pub_code(m.idx);
            let i = (m.idx + 1) as usize;
            let (m1, out) = if !acked {
                (bumped(m), None)
            } else if i >= m.pubs.len() {
                (ClientModel { idx: i, state: ClientState::Active, tick: 0, ..m }, None)
            } else {
                (
                    ClientModel { idx: i, ctr: wrap_inc(m.ctr), ..m },
                    Some(
                        Outgoing {
                            kind: OutKind::ShortPub(i),
                            next_state: ClientState::ShortCodingPub,
                            next_idx: i,
                        },
                    ),
                )
            };
            if out is None && timed_out(m1) {
                (
                    ClientModel { ctr: wrap_inc(m1.ctr), ..m1 },
                    Ok(
                        Some(
                            Outgoing {
                                kind: OutKind::ShortPub(m1.idx),
                                next_state: m1.state,
                                next_idx: m1.idx,
                            },
                        ),
                    ),
                )
            } else {
                (m1, Ok(out))
            }
        },
        ClientState::Active => (m, Ok(None)),
    }
}

/// The message of kind `kind` for a client in state `m`, as plain values
pub open spec fn message_view(m: ClientModel, kind: OutKind) -> SentView {
    match kind {
        OutKind::Register => SentView::Register { seq: m.ctr, name: m.name, version: m.version },
        OutKind::Subscribe(i) => SentView::Subscribe { path: PathView::Long(m.subs[i as int]) },
        OutKind::ShortSub(i) => SentView::ShortCode {
            seq: m.ctr,
            long: m.subs[i as int],
            short: i as u16,
        },
        OutKind::ShortPub(i) => SentView::ShortCode {
            seq: m.ctr,
            long: m.pubs[i as int],
            short: pub_code(i),
        },
    }
}

/// Is `c` the message of kind `kind` for a client in state `m`?
pub open spec fn is_message_for(m: ClientModel, kind: OutKind, c: Component) -> bool {
    match kind {
        OutKind::Register => match c {
            Component::Control(ctl) => ctl.seq == m.ctr && match ctl.ty {
                ControlType::RegisterComponent(info) => info.name.chars() == m.name
                    && info.version == m.version,
                _ => false,
            },
            _ => false,
        },
        OutKind::Subscribe(i) => match c {
            Component::PubSub(ps) => ps.ty is Sub && ps.path.view() == PathView::Long(
                m.subs[i as int],
            ),
            _ => false,
        },
        OutKind::ShortSub(i) => match c {
            Component::Control(ctl) => ctl.seq == m.ctr && match ctl.ty {
                ControlType::RegisterPubSubShortId(ps) => ps.long_name@ == m.subs[i as int]
                    && ps.short_id == (i as u16),
                _ => false,
            },
            _ => false,
        },
        OutKind::ShortPub(i) => match c {
            Component::Control(ctl) => ctl.seq == m.ctr && match ctl.ty {
                ControlType::RegisterPubSubShortId(ps) => ps.long_name@ == m.pubs[i as int]
                    && ps.short_id == pub_code(i),
                _ => false,
            },
            _ => false,
        },
    }
}

/// The position of the first path equal to `p`
pub open spec fn first_index(paths: Seq<Seq<char>>, p: Seq<char>) -> Option<int>
    decreases paths.len(),
{
    if paths.len() == 0 {
        None
    } else if paths[0] == p {
        Some(0)
    } else {
        match first_index(paths.drop_first(), p) {
            Some(i) => Some(i + 1),
            None => None,
        }
    }
}

/// Does the state wait for a message from the broker?
pub open spec fn awaits_message(st: ClientState) -> bool {
    st == ClientState::PendingRegistration || st == ClientState::Subscribing || st
        == ClientState::ShortCodingSub || st == ClientState::ShortCodingPub
}

/// The Client interface
///
/// This is the primary interface used by clients. It is used to track
/// the state of a connection, and process any incoming or outgoing messages
pub struct Client {
    state: ClientState,
    name: Name<'static>,
    version: Version,
    ctr: u16,
    sub_paths: &'static [&'static str],
    pub_short_paths: &'static [&'static str],
    timeout_ticks: Option<u8>,
    uuid: Uuid,
    current_tick: u8,
    current_idx: usize,
}

impl Client {
    /// The abstract state of the client
    pub closed spec fn view(&self) -> ClientModel {
        ClientModel {
            state: self.state,
            ctr: self.ctr,
            tick: self.current_tick,
            idx: self.current_idx,
            uuid: self.uuid.view(),
            timeout: self.timeout_ticks,
            subs: paths_chars(self.sub_paths@),
            pubs: paths_chars(self.pub_short_paths@),
            name: self.name.chars(),
            version: self.version,
        }
    }

    /// The client's invariant holds
    pub closed spec fn wf(&self) -> bool {
        client_wf(self.view())
    }

    /// Have we reached the timeout limit provided by the user?
    fn timeout_violated(&self) -> (r: bool)
        ensures
            r == timed_out(self.view()),
    {
        match self.timeout_ticks {
            Some(ticks) => ticks <= self.current_tick,
            None => false,
        }
    }

    /// One more tick spent waiting for a response
    fn bump(&mut self)
        ensures
            final(self).view() == bumped(old(self).view()),
    {
        self.current_tick = self.current_tick.saturating_add(1);
    }
}

impl Client {
    /// Decide in a `ClientState::Disconnected` state: register anew
    fn disconnected(&mut self) -> (r: Result<Option<Outgoing>, Error>)
        requires
            old(self).view().state == ClientState::Disconnected,
        ensures
            (final(self).view(), r) == decide_spec(old(self).view(), Incoming::Nothing),
    {
        self.ctr = self.ctr.wrapping_add(1);
        Ok(
            Some(
                Outgoing {
                    kind: OutKind::Register,
                    next_state: ClientState::PendingRegistration,
                    next_idx: self.current_idx,
                },
            ),
        )
    }

    /// Decide in a `ClientState::PendingRegistration` state
    fn pending_registration(&mut self, msg: Option<&Arbitrator>) -> (r: Result<
        Option<Outgoing>,
        Error,
    >)
        requires
            old(self).view().state == ClientState::PendingRegistration,
        ensures
            (final(self).view(), r) == decide_spec(old(self).view(), incoming(msg)),
    {
        let mut r: Result<Option<Outgoing>, Error> = Ok(None);
        match msg {
            Some(Arbitrator::Control(c)) => {
                if c.seq != self.ctr {
                    self.bump();
                    r = Err(Error::UnexpectedMessage);
                } else {
                    match &c.response {
                        Ok(ControlResponse::ComponentRegistration(uuid)) => {
                            self.uuid = *uuid;
                            self.state = ClientState::Registered;
                            self.current_tick = 0;
                        },
                        _ => {
                            self.bump();
                            r = Err(Error::UnexpectedMessage);
                        },
                    }
                }
            },
            _ => {
                self.bump();
            },
        }
        if r.is_ok() && self.timeout_violated() {
            self.state = ClientState::Disconnected;
            self.current_tick = 0;
        }
        r
    }
}

impl Client {
    /// Decide in a `ClientState::Registered` state: subscribe to the first
    /// path, if there is one
    fn registered(&mut self) -> (r: Result<Option<Outgoing>, Error>)
        requires
            old(self).view().state == ClientState::Registered,
        ensures
            (final(self).view(), r) == decide_spec(old(self).view(), Incoming::Nothing),
    {
        if self.sub_paths.len() == 0 {
            self.state = ClientState::Subscribed;
            self.current_tick = 0;
            Ok(None)
        } else {
            Ok(
                Some(
                    Outgoing {
                        kind: OutKind::Subscribe(0),
                        next_state: ClientState::Subscribing,
                        next_idx: 0,
                    },
                ),
            )
        }
    }

    /// Decide in a `ClientState::Subscribing` state
    fn subscribing(&mut self, msg: Option<&Arbitrator>) -> (r: Result<Option<Outgoing>, Error>)
        requires
            client_wf(old(self).view()),
            old(self).view().state == ClientState::Subscribing,
        ensures
            (final(self).view(), r) == decide_spec(old(self).view(), incoming(msg)),
    {
        let acked = match msg {
            Some(Arbitrator::PubSub(Ok(PubSubResponse::SubAck { path: PubSubPath::Long(pth) }))) => {
                str_equal(pth.as_str(), self.sub_paths[self.current_idx])
            },
            _ => false,
        };
        let mut out: Option<Outgoing> = None;
        if acked {
            self.current_idx = self.current_idx + 1;
            if self.current_idx >= self.sub_paths.len() {
                self.state = ClientState::Subscribed;
                self.current_tick = 0;
            } else {
                out = Some(
                    Outgoing {
                        kind: OutKind::Subscribe(self.current_idx),
                        next_state: ClientState::Subscribing,
                        next_idx: self.current_idx,
                    },
                );
            }
        } else {
            self.bump();
        }
        if out.is_none() && self.timeout_violated() {
            out = Some(
                Outgoing {
                    kind: OutKind::Subscribe(self.current_idx),
                    next_state: self.state,
                    next_idx: self.current_idx,
                },
            );
        }
        Ok(out)
    }

    /// Decide in a `ClientState::Subscribed` state: register the first
    /// short code
    fn subscribed(&mut self) -> (r: Result<Option<Outgoing>, Error>)
        requires
            old(self).view().state == ClientState::Subscribed,
        ensures
            (final(self).view(), r) == decide_spec(old(self).view(), Incoming::Nothing),
    {
        if self.sub_paths.len() == 0 && self.pub_short_paths.len() == 0 {
            self.state = ClientState::Active;
            self.current_tick = 0;
            Ok(None)
        } else if self.sub_paths.len() == 0 {
            self.ctr = self.ctr.wrapping_add(1);
            Ok(
                Some(
                    Outgoing {
                        kind: OutKind::ShortPub(0),
                        next_state: ClientState::ShortCodingPub,
                        next_idx: 0,
                    },
                ),
            )
        } else {
            self.ctr = self.ctr.wrapping_add(1);
            Ok(
                Some(
                    Outgoing {
                        kind: OutKind::ShortSub(0),
                        next_state: ClientState::ShortCodingSub,
                        next_idx: 0,
                    },
                ),
            )
        }
    }
}

impl Client {
    /// Decide in a `ClientState::ShortCodingSub` state
    fn shortcoding_sub(&mut self, msg: Option<&Arbitrator>) -> (r: Result<
        Option<Outgoing>,
        Error,
    >)
        requires
            client_wf(old(self).view()),
            old(self).view().state == ClientState::ShortCodingSub,
        ensures
            (final(self).view(), r) == decide_spec(old(self).view(), incoming(msg)),
    {
        let n: usize = self.sub_paths.len();
        proof {
            assert(n == paths_chars(self.sub_paths@).len());
        }
        let acked = match msg {
            Some(
                Arbitrator::Control(
                    AControl { seq, response: Ok(ControlResponse::PubSubShortRegistration(sid)) },
                ),
            ) => *seq == self.ctr && *sid == (#[verifier::truncate] (self.current_idx as u16)),
            _ => false,
        };
        let mut out: Option<Outgoing> = None;
        if acked {
            self.current_idx = self.current_idx + 1;
            if self.current_idx >= self.sub_paths.len() {
                if self.pub_short_paths.len() == 0 {
                    self.state = ClientState::Active;
                    self.current_tick = 0;
                } else {
                    self.current_idx = 0;
                    self.ctr = self.ctr.wrapping_add(1);
                    self.state = ClientState::ShortCodingPub;
                    out = Some(
                        Outgoing {
                            kind: OutKind::ShortPub(0),
                            next_state: ClientState::ShortCodingPub,
                            next_idx: 0,
                        },
                    );
                }
            } else {
                self.ctr = self.ctr.wrapping_add(1);
                out = Some(
                    Outgoing {
                        kind: OutKind::ShortSub(self.current_idx),
                        next_state: ClientState::ShortCodingSub,
                        next_idx: self.current_idx,
                    },
                );
            }
        } else {
            self.bump();
        }
        if out.is_none() && self.timeout_violated() {
            self.ctr = self.ctr.wrapping_add(1);
            out = Some(
                Outgoing {
                    kind: OutKind::ShortSub(self.current_idx),
                    next_state: self.state,
                    next_idx: self.current_idx,
                },
            );
        }
        Ok(out)
    }

    /// Decide in a `ClientState::ShortCodingPub` state
    fn shortcoding_pub(&mut self, msg: Option<&Arbitrator>) -> (r: Result<
        Option<Outgoing>,
        Error,
    >)
        requires
            client_wf(old(self).view()),
            old(self).view().state == ClientState::ShortCodingPub,
        ensures
            (final(self).view(), r) == decide_spec(old(self).view(), incoming(msg)),
    {
        let n: usize = self.pub_short_paths.len();
        proof {
            assert(n == paths_chars(self.pub_short_paths@).len());
        }
        let acked = match msg {
            Some(
                Arbitrator::Control(
                    AControl { seq, response: Ok(ControlResponse::PubSubShortRegistration(sid)) },
                ),
            ) => *seq == self.ctr && *sid == ((#[verifier::truncate] (self.current_idx as u16))
                | PUBLISH_SHORTCODE_OFFSET),
            _ => false,
        };
        let mut out: Option<Outgoing> = None;
        if acked {
            self.current_idx = self.current_idx + 1;
            if self.current_idx >= self.pub_short_paths.len() {
                self.state = ClientState::Active;
                self.current_tick = 0;
            } else {
                self.ctr = self.ctr.wrapping_add(1);
                out = Some(
                    Outgoing {
                        kind: OutKind::ShortPub(self.current_idx),
                        next_state: ClientState::ShortCodingPub,
                        next_idx: self.current_idx,
                    },
                );
            }
        } else {
            self.bump();
        }
        if out.is_none() && self.timeout_violated() {
            self.ctr = self.ctr.wrapping_add(1);
            out = Some(
                Outgoing {
                    kind: OutKind::ShortPub(self.current_idx),
                    next_state: self.state,
                    next_idx: self.current_idx,
                },
            );
        }
        Ok(out)
    }
}

/// Every decision keeps the client's invariant: the state it leaves, and
/// the state taken once its message is sent, are well formed, and the
/// message it asks for names a path the client has.
pub proof fn lemma_decide_keeps_wf(m: ClientModel, inc: Incoming)
    requires
        client_wf(m),
    ensures
        client_wf(decide_spec(m, inc).0),
        decide_spec(m, inc).1 matches Ok(Some(o)) ==> kind_valid(decide_spec(m, inc).0, o.kind)
            && client_wf(after_send(decide_spec(m, inc).0, o)),
{
}

impl Client {
    /// Decide what to do next on the received message `msg` (`None` when
    /// nothing was received), and take the resulting state.
    ///
    /// The result is an error, nothing to send, or the kind of message to
    /// send next (see [`Client::message_for`]) together with the state to
    /// take once it was sent (see [`Client::message_sent`]).
    pub fn handle_message(&mut self, msg: Option<&Arbitrator>) -> (r: Result<
        Option<Outgoing>,
        Error,
    >)
        requires
            old(self).wf(),
        ensures
            final(self).wf(),
            (final(self).view(), r) == decide_spec(old(self).view(), incoming(msg)),
            r matches Ok(Some(o)) ==> kind_valid(final(self).view(), o.kind) && client_wf(
                after_send(final(self).view(), o),
            ),
    {
        proof {
            lemma_decide_keeps_wf(self.view(), incoming(msg));
        }
        match self.state {
            ClientState::Disconnected => self.disconnected(),
            ClientState::PendingRegistration => self.pending_registration(msg),
            ClientState::Registered => self.registered(),
            ClientState::Subscribing => self.subscribing(msg),
            ClientState::Subscribed => self.subscribed(),
            ClientState::ShortCodingSub => self.shortcoding_sub(msg),
            ClientState::ShortCodingPub => self.shortcoding_pub(msg),
            ClientState::Active => Ok(None),
        }
    }
}

impl Client {
    /// Create a new client instance
    ///
    /// `name` is the name of this device, `version` its semantic version,
    /// `ctr_init` the first value of the control counter, `sub_paths` and
    /// `pub_short_paths` the paths it subscribes to and publishes on, and
    /// `timeout_ticks` the number of calls to [`Client::process_one`] after
    /// which a response is given up on and the request sent again (`None`
    /// disables automatic retries).
    pub fn new(
        name: &str,
        version: Version,
        ctr_init: u16,
        sub_paths: &'static [&'static str],
        pub_short_paths: &'static [&'static str],
        timeout_ticks: Option<u8>,
    ) -> (r: Self)
        requires
            name.spec_bytes().len() <= MAX_NAME_LEN,
        ensures
            r.wf(),
            r.view().state == ClientState::Disconnected,
            r.view().ctr == ctr_init,
            r.view().tick == 0,
            r.view().idx == 0,
            r.view().uuid == Seq::new(16, |i: int| 0u8),
            r.view().timeout == timeout_ticks,
            r.view().subs == paths_chars(sub_paths@),
            r.view().pubs == paths_chars(pub_short_paths@),
            r.view().name == name@,
            r.view().version == version,
    {
        let uuid = Uuid::from_bytes([0u8; 16]);
        proof {
            assert(uuid.view() =~= Seq::new(16, |i: int| 0u8));
        }
        Client {
            state: ClientState::Disconnected,
            name: Name::try_from_str(name).unwrap(),
            version,
            ctr: ctr_init,
            sub_paths,
            pub_short_paths,
            timeout_ticks,
            uuid,
            current_tick: 0,
            current_idx: 0,
        }
    }

    /// Reset the client connection
    ///
    /// This immediately disconnects the client, at which point
    /// it will begin attemption to re-establish a connection to
    /// the broker.
    pub fn reset_connection(&mut self)
        requires
            old(self).wf(),
        ensures
            final(self).wf(),
            final(self).view() == (ClientModel {
                state: ClientState::Disconnected,
                tick: 0,
                idx: 0,
                ..old(self).view()
            }),
    {
        self.state = ClientState::Disconnected;
        self.current_tick = 0;
        self.current_idx = 0;
    }

    /// Is the client connected?
    pub fn is_connected(&self) -> (r: bool)
        ensures
            r == (self.view().state == ClientState::Active),
    {
        self.state.as_active().is_ok()
    }

    /// Obtain the `Uuid` assigned by the broker to this client
    ///
    /// If the client is not connected, `None` will be returned.
    pub fn get_id(&self) -> (r: Option<&Uuid>)
        ensures
            r is Some <==> self.view().state == ClientState::Active,
            r matches Some(u) ==> u.view() == self.view().uuid,
    {
        if self.is_connected() {
            Some(&self.uuid)
        } else {
            None
        }
    }

    /// The message of kind `kind`, as this client sends it now
    pub fn message_for(&self, kind: OutKind) -> (c: Component<'_>)
        requires
            kind_valid(self.view(), kind),
        ensures
            is_message_for(self.view(), kind, c),
            component_view(c) == message_view(self.view(), kind),
    {
        proof {
            assert(self.sub_paths@.len() == paths_chars(self.sub_paths@).len());
            assert(self.pub_short_paths@.len() == paths_chars(self.pub_short_paths@).len());
        }
        match kind {
            OutKind::Register => Component::Control(
                CControl {
                    seq: self.ctr,
                    ty: ControlType::RegisterComponent(
                        ComponentInfo { name: self.name.as_borrowed(), version: self.version },
                    ),
                },
            ),
            OutKind::Subscribe(i) => Component::PubSub(
                PubSub {
                    path: PubSubPath::Long(Path::borrow_from_str(self.sub_paths[i])),
                    ty: PubSubType::Sub,
                },
            ),
            OutKind::ShortSub(i) => Component::Control(
                CControl {
                    seq: self.ctr,
                    ty: ControlType::RegisterPubSubShortId(
                        PubSubShort {
                            long_name: self.sub_paths[i],
                            short_id: #[verifier::truncate] (i as u16),
                        },
                    ),
                },
            ),
            OutKind::ShortPub(i) => Component::Control(
                CControl {
                    seq: self.ctr,
                    ty: ControlType::RegisterPubSubShortId(
                        PubSubShort {
                            long_name: self.pub_short_paths[i],
                            short_id: (#[verifier::truncate] (i as u16)) | PUBLISH_SHORTCODE_OFFSET,
                        },
                    ),
                },
            ),
        }
    }

    /// Take the state that follows the sending of the message of `out`
    pub fn message_sent(&mut self, out: Outgoing)
        requires
            client_wf(after_send(old(self).view(), out)),
        ensures
            final(self).wf(),
            final(self).view() == after_send(old(self).view(), out),
    {
        self.state = out.next_state;
        self.current_idx = out.next_idx;
        self.current_tick = 0;
    }
}

/// The path a publication on `p` names: the short code of the first
/// publish path equal to `p`, or else `p` itself
pub open spec fn publish_path(pubs: Seq<Seq<char>>, p: Seq<char>) -> PathView {
    match first_index(pubs, p) {
        Some(i) => PathView::Short(pub_code(i as usize)),
        None => PathView::Long(p),
    }
}

/// `first_index` is the first position holding `p`, or `None` where no
/// position does
pub proof fn lemma_first_index(paths: Seq<Seq<char>>, p: Seq<char>, i: int)
    requires
        0 <= i <= paths.len(),
        forall|j: int| 0 <= j < i ==> paths[j] != p,
        i < paths.len() ==> paths[i] == p,
    ensures
        first_index(paths, p) == (if i < paths.len() {
            Some(i)
        } else {
            None::<int>
        }),
    decreases paths.len(),
{
    if paths.len() > 0 && i > 0 {
        assert(paths[0] != p);
        let rest = paths.drop_first();
        assert forall|j: int| 0 <= j < i - 1 implies rest[j] != p by {
            assert(rest[j] == paths[j + 1]);
        }
        lemma_first_index(rest, p, i - 1);
    }
}

/// The characters of the path a received publication is delivered under,
/// or `None` where it cannot be: a short code must name a subscription, and
/// a long path must fit an owned path
pub open spec fn delivered_path(m: ClientModel, path: PathView) -> Option<Seq<char>> {
    match path {
        PathView::Short(sid) => if (sid as int) < m.subs.len() {
            Some(m.subs[sid as int])
        } else {
            None
        },
        PathView::Long(p) => if utf8_len(p) <= crate::icd::MAX_PATH_LEN {
            Some(p)
        } else {
            None
        },
    }
}

impl Client {
    /// Does the client wait for a message from the broker?
    fn awaits(&self) -> (r: bool)
        ensures
            r == awaits_message(self.view().state),
    {
        match self.state {
            ClientState::PendingRegistration => true,
            ClientState::Subscribing => true,
            ClientState::ShortCodingSub => true,
            ClientState::ShortCodingPub => true,
            _ => false,
        }
    }

    /// The message that publishes `payload` on `path`
    ///
    /// A path registered with a short code is sent as that code.
    pub fn publish_message<'a>(&'a self, path: &'a str, payload: &'a [u8]) -> (r: Result<
        Component<'a>,
        Error,
    >)
        ensures
            self.view().state != ClientState::Active ==> r == Err::<Component<'a>, Error>(
                Error::NotActive,
            ),
            self.view().state == ClientState::Active ==> (r matches Ok(Component::PubSub(ps))
                && ps.ty == (PubSubType::Pub { payload })
                && ps.path.view() == publish_path(self.view().pubs, path@)
                && (ps.path matches PubSubPath::Long(ms) ==> ms == Path::<'a>::Borrow(path))),
    {
        match self.state.as_active() {
            Ok(()) => {},
            Err(e) => return Err(e),
        }
        let n: usize = self.pub_short_paths.len();
        let ghost pubs = paths_chars(self.pub_short_paths@);
        let mut i: usize = 0;
        while i < n
            invariant
                self.view().state == ClientState::Active,
                n == self.pub_short_paths@.len(),
                pubs == paths_chars(self.pub_short_paths@),
                pubs.len() == n,
                i <= n,
                forall|j: int| 0 <= j < i ==> pubs[j] != path@,
            decreases n - i,
        {
            if str_equal(path, self.pub_short_paths[i]) {
                proof {
                    lemma_first_index(pubs, path@, i as int);
                }
                let ps = PubSub {
                    path: PubSubPath::Short((#[verifier::truncate] (i as u16)) | PUBLISH_SHORTCODE_OFFSET),
                    ty: PubSubType::Pub { payload },
                };
                return Ok(Component::PubSub(ps));
            }
            i = i + 1;
        }
        proof {
            lemma_first_index(pubs, path@, n as int);
        }
        Ok(
            Component::PubSub(
                PubSub {
                    path: PubSubPath::Long(ManagedString::Borrow(path)),
                    ty: PubSubType::Pub { payload },
                },
            ),
        )
    }

    /// Publish a message
    ///
    /// This interface publishes `payload` on `path`, from the client to the
    /// broker, through the client's `ClientIo` `cio`: the message of
    /// [`Client::publish_message`] is sent once, and the result is what the
    /// transport answered. A client that is not connected sends nothing.
    pub fn publish<'a, 'b: 'a, C: ClientIo>(
        &'b self,
        cio: &mut ClientLink<'_, C>,
        path: &'a str,
        payload: &'a [u8],
    ) -> (r: Result<(), Error>)
        ensures
            final(cio).received() == old(cio).received(),
            self.view().state != ClientState::Active ==> r == Err::<(), Error>(Error::NotActive)
                && final(cio).sent() == old(cio).sent(),
            self.view().state == ClientState::Active ==> {
                &&& final(cio).sent().len() == old(cio).sent().len() + 1
                &&& final(cio).sent().drop_last() == old(cio).sent()
                &&& final(cio).sent().last().0 == (SentView::Publish {
                    path: publish_path(self.view().pubs, path@),
                    payload: payload@,
                })
                &&& r == sent_result(final(cio).sent().last().1)
            },
    {
        let msg = match self.publish_message(path, payload) {
            Ok(m) => m,
            Err(e) => return Err(e),
        };
        let res = cio.send(&msg);
        proof {
            assert(cio.sent().drop_last() =~= old(cio).sent());
        }
        match res {
            Ok(()) => Ok(()),
            Err(e) => Err(Error::ClientIoError(e)),
        }
    }
}

/// The result of a send that the transport answered with `res`
pub open spec fn sent_result(res: Result<(), ClientIoError>) -> Result<(), Error> {
    match res {
        Ok(()) => Ok(()),
        Err(e) => Err(Error::ClientIoError(e)),
    }
}

/// What a connected client gives for a publication delivered under
/// `path`, once its table `T` has decoded it as `decoded`: the message, or
/// `UnexpectedMessage` where the table refused it
pub fn received_message<T: Table>(path: Path<'static>, decoded: Result<T, TableError>) -> (r: Result<
    Option<RecvMsg<T>>,
    Error,
>)
    ensures
        decoded matches Ok(t) ==> r == Ok::<Option<RecvMsg<T>>, Error>(
            Some(RecvMsg { path, payload: t }),
        ),
        decoded is Err ==> r == Err::<Option<RecvMsg<T>>, Error>(Error::UnexpectedMessage),
{
    match decoded {
        Ok(payload) => Ok(Some(RecvMsg { path, payload })),
        Err(_) => Err(Error::UnexpectedMessage),
    }
}

/// Is `r` what a connected client in `m` gives for the received message
/// `inc`? A publication on a path it can resolve (see [`delivered_path`])
/// is handed to the table, which may refuse it; one it cannot resolve is
/// unexpected; any other message, or none, gives nothing.
pub open spec fn receive_outcome<T: Table>(
    m: ClientModel,
    inc: Incoming,
    r: Result<Option<RecvMsg<T>>, Error>,
) -> bool {
    match inc {
        Incoming::Published { path } => match delivered_path(m, path) {
            None => r == Err::<Option<RecvMsg<T>>, Error>(Error::UnexpectedMessage),
            Some(p) => r == Err::<Option<RecvMsg<T>>, Error>(Error::UnexpectedMessage) || (r matches Ok(
                Some(rm),
            ) && rm.path.chars() == p && (rm.path is Owned <==> path is Long)),
        },
        _ => r matches Ok(None),
    }
}

impl Client {
    /// Deliver a received message while connected
    ///
    /// A publication on a subscribed path is handed to the table `T`; any
    /// other message, or none, gives `Ok(None)`. A publication whose path
    /// cannot be resolved, or that the table refuses, is an
    /// `UnexpectedMessage`.
    pub fn receive_published<T: Table>(&self, msg: Option<&Arbitrator>) -> (r: Result<
        Option<RecvMsg<T>>,
        Error,
    >)
        ensures
            receive_outcome(self.view(), incoming(msg), r),
    {
        let sm = match msg {
            Some(Arbitrator::PubSub(Ok(PubSubResponse::SubMsg(sm)))) => sm,
            _ => return Ok(None),
        };
        proof {
            assert(self.sub_paths@.len() == paths_chars(self.sub_paths@).len());
        }
        let path: Path<'static> = match &sm.path {
            PubSubPath::Short(sid) => {
                if (*sid as usize) < self.sub_paths.len() {
                    Path::borrow_from_str(self.sub_paths[*sid as usize])
                } else {
                    return Err(Error::UnexpectedMessage);
                }
            },
            PubSubPath::Long(ms) => match ms.try_to_owned() {
                Ok(p) => p,
                Err(()) => return Err(Error::UnexpectedMessage),
            },
        };
        received_message(path, T::from_pub_sub(sm))
    }

    /// Process a single incoming message
    ///
    /// This function *must* be called regularly to process messages
    /// that have been received by the broker. It is suggested to call
    /// it at regular intervals if you are using the `timeout_ticks` option
    /// when creating the Client.
    ///
    /// If a subscription message has been received, it will be returned
    /// with the path that was published to. If the Client has subscribed
    /// using a wildcard, it may not exactly match the subscription topic
    ///
    /// One call receives at most once from `cio` and sends at most once, as
    /// [`step_taken`] says: a connected client receives and delivers; one
    /// that is connecting receives only where it waits for an answer, then
    /// takes the decision of [`Client::handle_message`] and sends the
    /// message of [`Client::message_for`] that it asks for.
    pub fn process_one<C: ClientIo, T: Table>(&mut self, cio: &mut ClientLink<'_, C>) -> (r: Result<
        Option<RecvMsg<T>>,
        Error,
    >)
        requires
            old(self).wf(),
        ensures
            final(self).wf(),
            old(cio).received().is_prefix_of(final(cio).received()),
            old(cio).sent().is_prefix_of(final(cio).sent()),
            step_taken(
                old(self).view(),
                pushed_since(old(cio).received(), final(cio).received()),
                pushed_since(old(cio).sent(), final(cio).sent()),
                final(self).view(),
                r,
            ),
    {
        let ghost r0 = cio.received();
        let ghost s0 = cio.sent();
        if self.is_connected() {
            let rec = cio.recv();
            let ghost gr = received_view(rec);
            let msg = match rec {
                Ok(m) => m,
                Err(e) => {
                    proof {
                        assert(pushed_since(r0, cio.received()) =~= seq![gr]);
                        assert(pushed_since(s0, cio.sent()) =~= Seq::<
                            (SentView, Result<(), ClientIoError>),
                        >::empty());
                    }
                    return Err(Error::ClientIoError(e));
                },
            };
            let mref: Option<&Arbitrator> = match &msg {
                Some(a) => Some(a),
                None => None,
            };
            let r = self.receive_published::<T>(mref);
            proof {
                assert(gr == Ok::<Incoming, ClientIoError>(incoming(mref)));
                assert(pushed_since(r0, cio.received()) =~= seq![gr]);
                assert(pushed_since(s0, cio.sent()) =~= Seq::<
                    (SentView, Result<(), ClientIoError>),
                >::empty());
            }
            return r;
        }
        let waits = self.awaits();
        let rec = if waits {
            cio.recv()
        } else {
            Ok(None)
        };
        let ghost gr = received_view(rec);
        let msg = match rec {
            Ok(m) => m,
            Err(e) => {
                proof {
                    assert(pushed_since(r0, cio.received()) =~= seq![gr]);
                    assert(pushed_since(s0, cio.sent()) =~= Seq::<
                        (SentView, Result<(), ClientIoError>),
                    >::empty());
                }
                return Err(Error::ClientIoError(e));
            },
        };
        let mref: Option<&Arbitrator> = match &msg {
            Some(a) => Some(a),
            None => None,
        };
        let ghost inc = incoming(mref);
        let d = self.handle_message(mref);
        proof {
            assert(gr == Ok::<Incoming, ClientIoError>(inc));
            if waits {
                assert(pushed_since(r0, cio.received()) =~= seq![gr]);
            } else {
                assert(pushed_since(r0, cio.received()) =~= Seq::<
                    Result<Incoming, ClientIoError>,
                >::empty());
            }
            assert(pushed_since(s0, cio.sent()) =~= Seq::<
                (SentView, Result<(), ClientIoError>),
            >::empty());
        }
        match d {
            Err(e) => Err(e),
            Ok(None) => Ok(None),
            Ok(Some(out)) => {
                let ghost m1 = self.view();
                let sent = {
                    let c = self.message_for(out.kind);
                    cio.send(&c)
                };
                proof {
                    assert(pushed_since(s0, cio.sent()) =~= seq![(message_view(m1, out.kind), sent)]);
                }
                match sent {
                    Ok(()) => {
                        self.message_sent(out);
                        Ok(None)
                    },
                    Err(e) => Err(Error::ClientIoError(e)),
                }
            },
        }
    }
}

/// Did one call of `process_one` from `m`, which received `recvd` and sent
/// `sent` through its link, end in `fin` with `r`?
///
/// A connected client receives once and delivers what it received (see
/// [`receive_outcome`]), and sends nothing. A client that is connecting
/// receives once if it waits for an answer ([`awaits_message`]), and not at
/// all otherwise; it then takes the decision of [`decide_spec`] and sends
/// the message the decision asks for, once. A failed receipt or send ends
/// the call with the transport's error.
pub open spec fn step_taken<T: Table>(
    m: ClientModel,
    recvd: Seq<Result<Incoming, ClientIoError>>,
    sent: Seq<(SentView, Result<(), ClientIoError>)>,
    fin: ClientModel,
    r: Result<Option<RecvMsg<T>>, Error>,
) -> bool {
    if m.state == ClientState::Active {
        &&& recvd.len() == 1
        &&& sent.len() == 0
        &&& fin == m
        &&& match recvd[0] {
            Err(e) => r == Err::<Option<RecvMsg<T>>, Error>(Error::ClientIoError(e)),
            Ok(inc) => receive_outcome(m, inc, r),
        }
    } else {
        &&& recvd.len() == if awaits_message(m.state) {
            1nat
        } else {
            0nat
        }
        &&& match if awaits_message(m.state) {
            recvd[0]
        } else {
            Ok(Incoming::Nothing)
        } {
            Err(e) => fin == m && sent.len() == 0 && r == Err::<Option<RecvMsg<T>>, Error>(
                Error::ClientIoError(e),
            ),
            Ok(inc) => match decide_spec(m, inc) {
                (m1, Err(e)) => fin == m1 && sent.len() == 0 && r == Err::<Option<RecvMsg<T>>, Error>(
                    e,
                ),
                (m1, Ok(None)) => fin == m1 && sent.len() == 0 && r matches Ok(None),
                (m1, Ok(Some(o))) => {
                    &&& sent.len() == 1
                    &&& sent[0].0 == message_view(m1, o.kind)
                    &&& match sent[0].1 {
                        Ok(()) => fin == after_send(m1, o) && r matches Ok(None),
                        Err(e) => fin == m1 && r == Err::<Option<RecvMsg<T>>, Error>(
                            Error::ClientIoError(e),
                        ),
                    }
                },
            },
        }
    }
}

/// The path a table reads a publication under: a long path as it is, a
/// short code below the publish offset as that subscription path, one at or
/// above it as that publish path, or `None` where the code names no path
pub open spec fn table_path_spec(path: PathView, subs: Seq<Seq<char>>, pubs: Seq<Seq<char>>) -> Option<
    Seq<char>,
> {
    match path {
        PathView::Long(p) => Some(p),
        PathView::Short(sid) => if sid < PUBLISH_SHORTCODE_OFFSET {
            if (sid as int) < subs.len() {
                Some(subs[sid as int])
            } else {
                None
            }
        } else {
            let k = sid - PUBLISH_SHORTCODE_OFFSET;
            if k < pubs.len() {
                Some(pubs[k])
            } else {
                None
            }
        },
    }
}

/// The position of the first topic (a subscription path, wildcards
/// allowed) that the path `p` matches
pub open spec fn first_match(p: Seq<char>, topics: Seq<Seq<char>>) -> Option<int>
    decreases topics.len(),
{
    if topics.len() == 0 {
        None
    } else if topic_matches(topics[0], p) {
        Some(0)
    } else {
        match first_match(p, topics.drop_first()) {
            Some(i) => Some(i + 1),
            None => None,
        }
    }
}

/// `first_match` is the first position `p` matches, or `None` where it
/// matches none
pub proof fn lemma_first_match(p: Seq<char>, topics: Seq<Seq<char>>, i: int)
    requires
        0 <= i <= topics.len(),
        forall|j: int| 0 <= j < i ==> !topic_matches(topics[j], p),
        i < topics.len() ==> topic_matches(topics[i], p),
    ensures
        first_match(p, topics) == (if i < topics.len() {
            Some(i)
        } else {
            None::<int>
        }),
    decreases topics.len(),
{
    if topics.len() > 0 && i > 0 {
        let rest = topics.drop_first();
        assert forall|j: int| 0 <= j < i - 1 implies !topic_matches(rest[j], p) by {
            assert(rest[j] == topics[j + 1]);
        }
        lemma_first_match(p, rest, i - 1);
    }
}

/// The path a table reads the publication `msg` under, given the table's
/// subscription and publish paths
pub fn table_path<'a>(msg: &'a SubMsg<'a>, subs: &'a [&'a str], pubs: &'a [&'a str]) -> (r: Result<
    &'a str,
    TableError,
>)
    ensures
        match table_path_spec(msg.path.view(), paths_chars(subs@), paths_chars(pubs@)) {
            Some(p) => r matches Ok(s) && s@ == p,
            None => r matches Err(TableError::NoMatch),
        },
{
    proof {
        assert(subs@.len() == paths_chars(subs@).len());
        assert(pubs@.len() == paths_chars(pubs@).len());
    }
    match &msg.path {
        PubSubPath::Long(path) => Ok(path.as_str()),
        PubSubPath::Short(sid) => {
            if *sid < PUBLISH_SHORTCODE_OFFSET {
                if (*sid as usize) < subs.len() {
                    Ok(subs[*sid as usize])
                } else {
                    Err(TableError::NoMatch)
                }
            } else {
                let new_sid = (*sid as usize) - (PUBLISH_SHORTCODE_OFFSET as usize);
                if new_sid < pubs.len() {
                    Ok(pubs[new_sid])
                } else {
                    Err(TableError::NoMatch)
                }
            }
        },
    }
}

/// Which path of a table a publication belongs to
#[derive(Debug, PartialEq, Eq, Clone, Copy, Structural)]
pub enum TableVariant {
    /// The subscription path at this position
    Sub(usize),
    /// The publish path at this position
    Pub(usize),
}

/// The variant of a table with `nsubs` subscription paths at position `i`
/// of its subscription paths followed by its publish paths
pub open spec fn variant_at(nsubs: int, i: int) -> TableVariant {
    if i < nsubs {
        TableVariant::Sub(i as usize)
    } else {
        TableVariant::Pub((i - nsubs) as usize)
    }
}

/// The first path of a table, among its subscription paths followed by its
/// publish paths, that the publication `msg` matches: the variant of the
/// table that decodes it
pub fn table_variant(msg: &SubMsg, subs: &[&str], pubs: &[&str]) -> (r: Result<
    TableVariant,
    TableError,
>)
    ensures
        match table_path_spec(msg.path.view(), paths_chars(subs@), paths_chars(pubs@)) {
            Some(p) => match first_match(p, paths_chars(subs@) + paths_chars(pubs@)) {
                Some(i) => r == Ok::<TableVariant, TableError>(variant_at(subs@.len() as int, i)),
                None => r matches Err(TableError::NoMatch),
            },
            None => r matches Err(TableError::NoMatch),
        },
{
    let msg_path = match table_path(msg, subs, pubs) {
        Ok(p) => p,
        Err(e) => return Err(e),
    };
    let ghost topics = paths_chars(subs@) + paths_chars(pubs@);
    let ns: usize = subs.len();
    let np: usize = pubs.len();
    proof {
        assert(ns == paths_chars(subs@).len());
        assert(np == paths_chars(pubs@).len());
    }
    let mut i: usize = 0;
    while i < ns
        invariant
            table_path_spec(msg.path.view(), paths_chars(subs@), paths_chars(pubs@)) == Some(
                msg_path@,
            ),
            ns == subs@.len(),
            np == pubs@.len(),
            topics == paths_chars(subs@) + paths_chars(pubs@),
            topics.len() == ns + np,
            i <= ns,
            forall|j: int| 0 <= j < i ==> !topic_matches(topics[j], msg_path@),
        decreases ns - i,
    {
        if crate::icd::matches(subs[i], msg_path) {
            proof {
                lemma_first_match(msg_path@, topics, i as int);
            }
            return Ok(TableVariant::Sub(i));
        }
        i = i + 1;
    }
    let mut k: usize = 0;
    while k < np
        invariant
            table_path_spec(msg.path.view(), paths_chars(subs@), paths_chars(pubs@)) == Some(
                msg_path@,
            ),
            ns == subs@.len(),
            np == pubs@.len(),
            topics == paths_chars(subs@) + paths_chars(pubs@),
            topics.len() == ns + np,
            k <= np,
            forall|j: int| 0 <= j < ns + k ==> !topic_matches(topics[j], msg_path@),
        decreases np - k,
    {
        if crate::icd::matches(pubs[k], msg_path) {
            proof {
                lemma_first_match(msg_path@, topics, ns + k);
            }
            return Ok(TableVariant::Pub(k));
        }
        k = k + 1;
    }
    proof {
        lemma_first_match(msg_path@, topics, ns + np);
    }
    Err(TableError::NoMatch)
}

/// The request whose answer a client in `m` waits for
pub open spec fn pending_request(m: ClientModel) -> OutKind {
    match m.state {
        ClientState::Subscribing => OutKind::Subscribe(m.idx),
        ClientState::ShortCodingSub => OutKind::ShortSub(m.idx),
        ClientState::ShortCodingPub => OutKind::ShortPub(m.idx),
        _ => OutKind::Register,
    }
}

/// While a client waits for an answer and nothing arrives, each step counts
/// one more tick. Without a timeout it waits for ever. With a timeout of
/// `t` ticks, the step that counts the `t`-th tick sends the request again
/// (a short code registration under a new sequence number) and the count
/// starts over once it is sent; a registration instead starts over from
/// `Disconnected`.
pub proof fn lemma_waiting(m: ClientModel)
    requires
        client_wf(m),
        awaits_message(m.state),
    ensures
        m.timeout is None ==> !timed_out(bumped(m)),
        !timed_out(bumped(m)) ==> decide_spec(m, Incoming::Nothing) == (
            bumped(m),
            Ok::<Option<Outgoing>, Error>(None),
        ),
        timed_out(bumped(m)) && m.state == ClientState::PendingRegistration ==> decide_spec(
            m,
            Incoming::Nothing,
        ) == (
            ClientModel { state: ClientState::Disconnected, tick: 0, ..bumped(m) },
            Ok::<Option<Outgoing>, Error>(None),
        ),
        timed_out(bumped(m)) && m.state != ClientState::PendingRegistration ==> ({
            let (m1, r) = decide_spec(m, Incoming::Nothing);
            &&& r == Ok::<Option<Outgoing>, Error>(
                Some(Outgoing { kind: pending_request(m), next_state: m.state, next_idx: m.idx }),
            )
            &&& m1.ctr == (if m.state == ClientState::Subscribing {
                m.ctr
            } else {
                wrap_inc(m.ctr)
            })
            &&& after_send(m1, r->Ok_0->Some_0).tick == 0
            &&& after_send(m1, r->Ok_0->Some_0).state == m.state
        }),
{
}

/// After `reset_connection`, the next step registers the client anew under
/// a new sequence number, whatever was received.
pub proof fn lemma_reset_registers(m: ClientModel, inc: Incoming)
    ensures
        ({
            let reset = ClientModel { state: ClientState::Disconnected, tick: 0, idx: 0, ..m };
            let (m1, r) = decide_spec(reset, inc);
            &&& m1.ctr == wrap_inc(m.ctr)
            &&& r == Ok::<Option<Outgoing>, Error>(
                Some(
                    Outgoing {
                        kind: OutKind::Register,
                        next_state: ClientState::PendingRegistration,
                        next_idx: 0,
                    },
                ),
            )
        }),
{
}

/// A registration answered under its own sequence number with an id makes
/// the client registered under that id; an answer under another sequence
/// number, or without an id, is refused as unexpected and leaves the client
/// waiting.
pub proof fn lemma_registration(m: ClientModel, seq: u16, registered: Option<Seq<u8>>, short: Option<u16>)
    requires
        client_wf(m),
        m.state == ClientState::PendingRegistration,
        m.timeout != Some(0u8),
    ensures
        ({
            let (m1, r) = decide_spec(m, Incoming::Control { seq, registered, short });
            &&& (seq == m.ctr && registered is Some) ==> (m1.state == ClientState::Registered
                && m1.uuid == registered->0 && r == Ok::<Option<Outgoing>, Error>(None))
            &&& (seq != m.ctr || registered is None) ==> (m1 == bumped(m) && r
                == Err::<Option<Outgoing>, Error>(Error::UnexpectedMessage))
        }),
{
}

/// The id of a client changes only when the broker accepts its pending
/// registration, and then to the id the reply carries: the id that
/// `get_id` reports is the one of the accepted registration.
pub proof fn lemma_id_from_registration(m: ClientModel, inc: Incoming)
    ensures
        decide_spec(m, inc).0.uuid != m.uuid ==> {
            &&& m.state == ClientState::PendingRegistration
            &&& inc matches Incoming::Control { seq, registered: Some(u), .. }
            &&& seq == m.ctr
            &&& decide_spec(m, inc).0.uuid == u
        },
{
}

/// The client after `k` steps in which nothing was received
pub open spec fn quiet_steps(m: ClientModel, k: nat) -> ClientModel
    decreases k,
{
    if k == 0 {
        m
    } else {
        decide_spec(quiet_steps(m, (k - 1) as nat), Incoming::Nothing).0
    }
}

/// Fewer than `n` quiet steps after sending its registration, a client with
/// a timeout of `n` ticks still waits, having counted one tick per step
proof fn lemma_quiet_pending(m: ClientModel, n: u8, k: nat)
    requires
        m.state == ClientState::PendingRegistration,
        m.tick == 0,
        m.timeout == Some(n),
        k < n,
    ensures
        quiet_steps(m, k) == (ClientModel { tick: k as u8, ..m }),
    decreases k,
{
    if k > 0 {
        lemma_quiet_pending(m, n, (k - 1) as nat);
    }
}

/// A registration that gets no answer is sent again automatically: with a
/// timeout of `n` ticks, each of the `n` steps after the registration was
/// sent receives nothing, sends nothing and leaves the client waiting,
/// except that the `n`-th gives up and leaves it `Disconnected`; the step
/// after those sends a new registration, under the next sequence number.
pub proof fn lemma_registration_retried(m: ClientModel, n: u8)
    requires
        m.state == ClientState::PendingRegistration,
        m.tick == 0,
        m.timeout == Some(n),
        n >= 1,
    ensures
        forall|k: nat|
            k < n ==> (#[trigger] quiet_steps(m, k)).state == ClientState::PendingRegistration
                && decide_spec(quiet_steps(m, k), Incoming::Nothing).1 == Ok::<
                Option<Outgoing>,
                Error,
            >(None),
        quiet_steps(m, n as nat) == (ClientModel {
            state: ClientState::Disconnected,
            tick: 0,
            ..m
        }),
        decide_spec(quiet_steps(m, n as nat), Incoming::Nothing) == (
            ClientModel { state: ClientState::Disconnected, tick: 0, ctr: wrap_inc(m.ctr), ..m },
            Ok::<Option<Outgoing>, Error>(
                Some(
                    Outgoing {
                        kind: OutKind::Register,
                        next_state: ClientState::PendingRegistration,
                        next_idx: m.idx,
                    },
                ),
            ),
        ),
        message_view(decide_spec(quiet_steps(m, n as nat), Incoming::Nothing).0, OutKind::Register)
            == (SentView::Register { seq: wrap_inc(m.ctr), name: m.name, version: m.version }),
{
    assert forall|k: nat| k < n implies (#[trigger] quiet_steps(m, k)).state
        == ClientState::PendingRegistration && decide_spec(quiet_steps(m, k), Incoming::Nothing).1
        == Ok::<Option<Outgoing>, Error>(None) by {
        lemma_quiet_pending(m, n, k);
    }
    lemma_quiet_pending(m, n, (n - 1) as nat);
    assert(quiet_steps(m, n as nat) == decide_spec(
        quiet_steps(m, (n - 1) as nat),
        Incoming::Nothing,
    ).0);
}

/// Without a timeout a registration that gets no answer is never sent
/// again: however many quiet steps pass, the client waits and sends nothing.
pub proof fn lemma_registration_waits(m: ClientModel, k: nat)
    requires
        m.state == ClientState::PendingRegistration,
        m.timeout is None,
    ensures
        quiet_steps(m, k) == (ClientModel { tick: quiet_steps(m, k).tick, ..m }),
        decide_spec(quiet_steps(m, k), Incoming::Nothing).1 == Ok::<Option<Outgoing>, Error>(None),
    decreases k,
{
    if k > 0 {
        lemma_registration_waits(m, (k - 1) as nat);
    }
}

/// The message a client sends is the request whose answer it then waits
/// for: a registration leaves it waiting for the registration reply, and a
/// subscription or short code registration of path `i` leaves it waiting
/// on path `i`, which is one of its paths.
pub proof fn lemma_sent_is_awaited(m: ClientModel, inc: Incoming)
    requires
        client_wf(m),
    ensures
        decide_spec(m, inc).1 matches Ok(Some(o)) ==> match o.kind {
            OutKind::Register => o.next_state == ClientState::PendingRegistration,
            OutKind::Subscribe(i) => o.next_state == ClientState::Subscribing && o.next_idx == i && i
                < m.subs.len(),
            OutKind::ShortSub(i) => o.next_state == ClientState::ShortCodingSub && o.next_idx == i
                && i < m.subs.len(),
            OutKind::ShortPub(i) => o.next_state == ClientState::ShortCodingPub && o.next_idx == i
                && i < m.pubs.len(),
        },
{
}

/// Once the broker acknowledges the subscription to path `idx`, the client
/// subscribes to the next path, `idx + 1`, and waits for that one.
pub proof fn lemma_subscription_advances(m: ClientModel)
    requires
        client_wf(m),
        m.state == ClientState::Subscribing,
        m.idx + 1 < m.subs.len() <= usize::MAX,
    ensures
        ({
            let (m1, r) = decide_spec(m, Incoming::SubAck { long: Some(m.subs[m.idx as int]) });
            &&& r matches Ok(Some(o))
            &&& o.kind == OutKind::Subscribe((m.idx + 1) as usize)
            &&& message_view(m1, o.kind) == (SentView::Subscribe {
                path: PathView::Long(m.subs[m.idx + 1]),
            })
            &&& after_send(m1, o).state == ClientState::Subscribing
            &&& after_send(m1, o).idx == m.idx + 1
        }),
{
}

/// Is the client past its registration (registered with the broker, and
/// not since reset or timed out)?
pub open spec fn past_registration(st: ClientState) -> bool {
    st != ClientState::Disconnected && st != ClientState::PendingRegistration
}

/// Can one call of `process_one`, or of `reset_connection`, take a client
/// from `m` to `fin`? A step keeps the client as it was (a failed receipt),
/// takes the decision on what it received, or takes it and sends.
#[verifier::opaque]
pub open spec fn client_step(m: ClientModel, fin: ClientModel) -> bool {
    ||| fin == m
    ||| fin == (ClientModel { state: ClientState::Disconnected, tick: 0, idx: 0, ..m })
    ||| exists|inc: Incoming|
        decide_spec(m, inc).0 == fin || ((#[trigger] decide_spec(m, inc)).1 matches Ok(Some(o))
            && after_send(decide_spec(m, inc).0, o) == fin)
}

/// Does `fin` follow from `m` by accepting `inc` as the answer to its
/// registration: a registration reply under the client's sequence number,
/// carrying the id `fin` holds?
#[verifier::opaque]
pub open spec fn accepts_registration(m: ClientModel, inc: Incoming, fin: ClientModel) -> bool {
    &&& m.state == ClientState::PendingRegistration
    &&& inc matches Incoming::Control { seq, registered: Some(u), .. }
    &&& seq == m.ctr
    &&& u == fin.uuid
    &&& fin.state == ClientState::Registered
    &&& decide_spec(m, inc).0 == fin
}

/// Every call of `process_one` is a step of the client
pub proof fn lemma_process_one_steps<T: Table>(
    m: ClientModel,
    recvd: Seq<Result<Incoming, ClientIoError>>,
    sent: Seq<(SentView, Result<(), ClientIoError>)>,
    fin: ClientModel,
    r: Result<Option<RecvMsg<T>>, Error>,
)
    requires
        step_taken(m, recvd, sent, fin, r),
    ensures
        client_step(m, fin),
{
    reveal(client_step);
    if m.state != ClientState::Active {
        let got = if awaits_message(m.state) {
            recvd[0]
        } else {
            Ok(Incoming::Nothing)
        };
        if let Ok(inc) = got {
            let d = decide_spec(m, inc);
            assert(d.0 == fin || (d.1 matches Ok(Some(o)) && after_send(d.0, o) == fin));
        }
    }
}

/// A step in which the id changes, or in which the client gets past its
/// registration, accepts a registration reply
proof fn lemma_step_id(m: ClientModel, fin: ClientModel)
    requires
        client_step(m, fin),
    ensures
        past_registration(m.state) && past_registration(fin.state) ==> fin.uuid == m.uuid,
        !past_registration(m.state) && past_registration(fin.state) ==> exists|inc: Incoming|
            #[trigger] accepts_registration(m, inc, fin),
{
    reveal(client_step);
    reveal(accepts_registration);
    if fin != m && fin != (ClientModel { state: ClientState::Disconnected, tick: 0, idx: 0, ..m }) {
        let inc = choose|inc: Incoming|
            decide_spec(m, inc).0 == fin || ((#[trigger] decide_spec(m, inc)).1 matches Ok(Some(o))
                && after_send(decide_spec(m, inc).0, o) == fin);
        lemma_id_from_registration(m, inc);
        if !past_registration(m.state) && past_registration(fin.state) {
            assert(accepts_registration(m, inc, fin));
        }
    }
}

/// The id a client reports is the one of the registration it accepted in
/// its current connection: over any run of steps from a client that is not
/// past its registration (as after `new` or `reset_connection`), a client
/// that ends past its registration accepted a registration reply at some
/// step, has been past its registration ever since, and holds the id that
/// reply carried.
pub proof fn lemma_id_of_connection(h: Seq<ClientModel>)
    requires
        h.len() >= 1,
        !past_registration(h[0].state),
        forall|i: int| 0 <= i < h.len() - 1 ==> client_step(#[trigger] h[i], h[i + 1]),
    ensures
        past_registration(h.last().state) ==> exists|j: int, inc: Incoming|
            0 <= j < h.len() - 1 && #[trigger] accepts_registration(h[j], inc, h[j + 1]) && h[j
                + 1].uuid == h.last().uuid && forall|i: int|
                j < i < h.len() ==> past_registration(#[trigger] h[i].state),
    decreases h.len(),
{
    if h.len() > 1 && past_registration(h.last().state) {
        let n = h.len() as int;
        let g = h.drop_last();
        assert forall|i: int| 0 <= i < g.len() - 1 implies client_step(#[trigger] g[i], g[i + 1]) by {
            assert(g[i] == h[i] && g[i + 1] == h[i + 1]);
        }
        assert(g[0] == h[0]);
        lemma_id_of_connection(g);
        let m = h[n - 2];
        assert(client_step(h[n - 2], h[n - 1]));
        lemma_step_id(m, h.last());
        assert(g.last() == m);
        if past_registration(m.state) {
            let (j, inc) = choose|j: int, inc: Incoming|
                0 <= j < g.len() - 1 && #[trigger] accepts_registration(g[j], inc, g[j + 1]) && g[j
                    + 1].uuid == g.last().uuid && forall|i: int|
                    j < i < g.len() ==> past_registration(#[trigger] g[i].state);
            assert(g[j] == h[j] && g[j + 1] == h[j + 1]);
            assert(accepts_registration(h[j], inc, h[j + 1]));
            assert forall|i: int| j < i < h.len() implies past_registration(#[trigger] h[i].state) by {
                if i < n - 1 {
                    assert(g[i] == h[i]);
                }
            }
        } else {
            let inc = choose|inc: Incoming| #[trigger] accepts_registration(m, inc, h.last());
            assert(accepts_registration(h[n - 2], inc, h[n - 2 + 1]));
        }
    }
}

/// A connected client ignores the connection logic: its state stays as it
/// is and it has nothing to send.
pub proof fn lemma_active_is_stable(m: ClientModel, inc: Incoming)
    requires
        m.state == ClientState::Active,
    ensures
        decide_spec(m, inc) == (m, Ok::<Option<Outgoing>, Error>(None)),
{
}

/// The answer a broker gives to the request a client in `m` waits on,
/// having registered it under `id`
pub open spec fn broker_answer(m: ClientModel, id: Seq<u8>) -> Incoming {
    match m.state {
        ClientState::PendingRegistration => Incoming::Control {
            seq: m.ctr,
            registered: Some(id),
            short: None,
        },
        ClientState::Subscribing => Incoming::SubAck { long: Some(m.subs[m.idx as int]) },
        ClientState::ShortCodingSub => Incoming::Control {
            seq: m.ctr,
            registered: None,
            short: Some(m.idx as u16),
        },
        ClientState::ShortCodingPub => Incoming::Control {
            seq: m.ctr,
            registered: None,
            short: Some(pub_code(m.idx)),
        },
        _ => Incoming::Nothing,
    }
}

/// One step of a client whose broker answers each request at once and
/// whose every message is sent
pub open spec fn served_step(m: ClientModel, id: Seq<u8>) -> ClientModel {
    let (m1, r) = decide_spec(m, broker_answer(m, id));
    match r {
        Ok(Some(o)) => after_send(m1, o),
        _ => m1,
    }
}

/// `n` such steps
pub open spec fn served_steps(m: ClientModel, id: Seq<u8>, n: nat) -> ClientModel
    decreases n,
{
    if n == 0 {
        m
    } else {
        served_steps(served_step(m, id), id, (n - 1) as nat)
    }
}

proof fn lemma_served_steps_add(m: ClientModel, id: Seq<u8>, a: nat, b: nat)
    ensures
        served_steps(m, id, a + b) == served_steps(served_steps(m, id, a), id, b),
    decreases a,
{
    if a > 0 {
        lemma_served_steps_add(served_step(m, id), id, (a - 1) as nat, b);
        assert((a + b - 1) as nat == ((a - 1) as nat + b) as nat);
    }
}

proof fn lemma_served_subscribing(m: ClientModel, id: Seq<u8>)
    requires
        m.subs.len() <= usize::MAX,
        m.pubs.len() <= usize::MAX,
        m.state == ClientState::Subscribing,
        m.idx < m.subs.len(),
        m.timeout != Some(0u8),
    ensures
        served_steps(m, id, (m.subs.len() - m.idx) as nat) == (ClientModel {
            state: ClientState::Subscribed,
            idx: m.subs.len() as usize,
            tick: 0,
            ..m
        }),
    decreases m.subs.len() - m.idx,
{
    let next = served_step(m, id);
    if m.idx + 1 < m.subs.len() {
        assert(next == (ClientModel { idx: (m.idx + 1) as usize, tick: 0, ..m }));
        lemma_served_subscribing(next, id);
        assert((m.subs.len() - m.idx - 1) as nat == (next.subs.len() - next.idx) as nat);
    } else {
        assert(served_steps(next, id, 0) == next);
    }
}

proof fn lemma_served_shortcoding_pub(m: ClientModel, id: Seq<u8>)
    requires
        m.subs.len() <= usize::MAX,
        m.pubs.len() <= usize::MAX,
        m.state == ClientState::ShortCodingPub,
        m.idx < m.pubs.len(),
        m.timeout != Some(0u8),
    ensures
        ({
            let f = served_steps(m, id, (m.pubs.len() - m.idx) as nat);
            &&& f.state == ClientState::Active
            &&& f.uuid == m.uuid
            &&& f.subs == m.subs
            &&& f.pubs == m.pubs
        }),
    decreases m.pubs.len() - m.idx,
{
    let next = served_step(m, id);
    if m.idx + 1 < m.pubs.len() {
        assert(next.state == ClientState::ShortCodingPub && next.idx == m.idx + 1);
        lemma_served_shortcoding_pub(next, id);
        assert((m.pubs.len() - m.idx - 1) as nat == (next.pubs.len() - next.idx) as nat);
    } else {
        assert(served_steps(next, id, 0) == next);
    }
}

proof fn lemma_served_shortcoding_sub(m: ClientModel, id: Seq<u8>)
    requires
        m.subs.len() <= usize::MAX,
        m.pubs.len() <= usize::MAX,
        m.state == ClientState::ShortCodingSub,
        m.idx < m.subs.len(),
        m.timeout != Some(0u8),
    ensures
        ({
            let f = served_steps(m, id, (m.subs.len() - m.idx + m.pubs.len()) as nat);
            &&& f.state == ClientState::Active
            &&& f.uuid == m.uuid
            &&& f.subs == m.subs
            &&& f.pubs == m.pubs
        }),
    decreases m.subs.len() - m.idx,
{
    let next = served_step(m, id);
    let n = (m.subs.len() - m.idx + m.pubs.len()) as nat;
    if m.idx + 1 < m.subs.len() {
        assert(next.state == ClientState::ShortCodingSub && next.idx == m.idx + 1);
        lemma_served_shortcoding_sub(next, id);
        assert((n - 1) as nat == (next.subs.len() - next.idx + next.pubs.len()) as nat);
    } else if m.pubs.len() == 0 {
        assert(served_steps(next, id, 0) == next);
    } else {
        assert(next.state == ClientState::ShortCodingPub && next.idx == 0);
        lemma_served_shortcoding_pub(next, id);
        assert((n - 1) as nat == (next.pubs.len() - next.idx) as nat);
    }
}

/// A client whose broker answers each of its requests at once, and whose
/// every message is sent, connects from `Disconnected` in exactly
/// `4 + 2 * subs + pubs` steps, under the id the broker gave it. (A client
/// whose timeout is zero ticks never connects: each registration times out
/// as soon as it is answered.)
pub proof fn lemma_served_client_connects(m: ClientModel, id: Seq<u8>)
    requires
        m.subs.len() <= usize::MAX,
        m.pubs.len() <= usize::MAX,
        client_wf(m),
        m.state == ClientState::Disconnected,
        m.timeout != Some(0u8),
    ensures
        ({
            let f = served_steps(m, id, (4 + 2 * m.subs.len() + m.pubs.len()) as nat);
            &&& f.state == ClientState::Active
            &&& f.uuid == id
        }),
{
    let s = m.subs.len();
    let p = m.pubs.len();
    let m1 = served_step(m, id);
    assert(m1.state == ClientState::PendingRegistration && m1.tick == 0);
    let m2 = served_step(m1, id);
    assert(m2.state == ClientState::Registered && m2.uuid == id && m2.subs == m.subs && m2.pubs
        == m.pubs && m2.timeout == m.timeout);
    let m3 = served_step(m2, id);
    assert(served_steps(m, id, 3) == m3) by {
        assert(served_steps(m3, id, 0) == m3);
        assert(served_steps(m2, id, 1) == m3);
        assert(served_steps(m1, id, 2) == m3);
    }
    let total = (4 + 2 * s + p) as nat;
    lemma_served_steps_add(m, id, 3, (total - 3) as nat);
    assert(total == 3 + (total - 3) as nat);
    if s == 0 {
        assert(m3.state == ClientState::Subscribed && m3.uuid == id);
        let m4 = served_step(m3, id);
        if p == 0 {
            assert(m4.state == ClientState::Active);
            assert(served_steps(m4, id, 0) == m4);
        } else {
            assert(m4.state == ClientState::ShortCodingPub && m4.idx == 0 && m4.uuid == id);
            lemma_served_shortcoding_pub(m4, id);
        }
    } else {
        assert(m3.state == ClientState::Subscribing && m3.idx == 0 && m3.uuid == id);
        lemma_served_subscribing(m3, id);
        let m4 = served_steps(m3, id, s as nat);
        assert(m4.state == ClientState::Subscribed && m4.uuid == id && m4.subs == m.subs && m4.pubs
            == m.pubs);
        lemma_served_steps_add(m3, id, s as nat, (1 + s + p) as nat);
        let m5 = served_step(m4, id);
        assert(m5.state == ClientState::ShortCodingSub && m5.idx == 0 && m5.uuid == id);
        lemma_served_shortcoding_sub(m5, id);
        assert(served_steps(m4, id, (1 + s + p) as nat) == served_steps(m5, id, (s + p) as nat));
        assert((total - 3) as nat == (s + (1 + s + p)) as nat);
    }
}

} // verus!
