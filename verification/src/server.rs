//! # The Anachro Protocol Server/Broker Library
//!
//! The broker tracks each registered client's connection state, its
//! subscriptions and its registered short codes, and routes published
//! messages to every other client whose subscriptions match.

use crate::icd::arbitrator::{
    self, Arbitrator, Control as AControl, ControlError, ControlResponse, PubSubResponse, SubMsg,
};
use crate::icd::component::{
    Component, ComponentInfo, Control, ControlType, PubSub, PubSubShort, PubSubType,
};
use crate::icd::{
    str_contains, str_equal, topic_matches, utf8_len, MAX_NAME_LEN, MAX_PATH_LEN, ManagedString, Name, Path,
    PathView, PubSubPath, StrBuf, Uuid, Version,
};
use vstd::prelude::*;
use vstd::string::StringSliceAdditionalSpecFns;

verus! {

/// The maximum number of clients registered with a broker
pub const MAX_CLIENTS: usize = 8;

/// The maximum number of subscriptions held for one client
pub const MAX_SUBSCRIPTIONS: usize = 8;

/// The maximum number of short codes held for one client
pub const MAX_SHORTCUTS: usize = 8;

// =====================================================================
// Abstract state
// =====================================================================

/// A registered short code, abstractly
pub struct ShortcutView {
    pub long: Seq<char>,
    pub short: u16,
}

/// A client's connection state, abstractly
pub enum ClientStateView {
    SessionEstablished,
    Connected {
        name: Seq<char>,
        version: Version,
        subscriptions: Seq<Seq<char>>,
        shortcuts: Seq<ShortcutView>,
    },
}

/// A registered client, abstractly
pub struct ClientView {
    pub id: Seq<u8>,
    pub state: ClientStateView,
}

/// A client just registered under `id`, with no connection yet
pub open spec fn fresh_client(id: Seq<u8>) -> ClientView {
    ClientView { id, state: ClientStateView::SessionEstablished }
}

/// Is a client with this id registered?
pub open spec fn has_client(cs: Seq<ClientView>, id: Seq<u8>) -> bool {
    exists|i: int| 0 <= i < cs.len() && cs[i].id == id
}

/// Is a connected client with this id registered?
pub open spec fn has_connected_client(cs: Seq<ClientView>, id: Seq<u8>) -> bool {
    exists|i: int| 0 <= i < cs.len() && cs[i].id == id && cs[i].state is Connected
}

/// Every client with this id gets the state `st`; the others are unchanged
pub open spec fn with_state(cs: Seq<ClientView>, id: Seq<u8>, st: ClientStateView) -> Seq<
    ClientView,
> {
    Seq::new(
        cs.len(),
        |j: int| if cs[j].id == id { ClientView { id: cs[j].id, state: st } } else { cs[j] },
    )
}

/// No two clients share an id
pub open spec fn unique_ids(cs: Seq<ClientView>) -> bool {
    forall|i: int, j: int| 0 <= i < j < cs.len() ==> cs[i].id != cs[j].id
}

/// The long path registered under the short code `sid`, by the first
/// shortcut that has it
pub open spec fn long_for_short(s: Seq<ShortcutView>, sid: u16) -> Option<Seq<char>>
    decreases s.len(),
{
    if s.len() == 0 {
        None
    } else if s[0].short == sid {
        Some(s[0].long)
    } else {
        long_for_short(s.drop_first(), sid)
    }
}

/// The short code registered for the long path, by the first shortcut
/// that has it
pub open spec fn short_for_long(s: Seq<ShortcutView>, path: Seq<char>) -> Option<u16>
    decreases s.len(),
{
    if s.len() == 0 {
        None
    } else if s[0].long == path {
        Some(s[0].short)
    } else {
        short_for_long(s.drop_first(), path)
    }
}

/// Does one of the subscriptions match the path?
pub open spec fn any_match(subs: Seq<Seq<char>>, path: Seq<char>) -> bool {
    exists|k: int| 0 <= k < subs.len() && topic_matches(subs[k], path)
}

/// How the message published on `path` by `source` reaches client `c`:
/// not at all, by a short code it registered for exactly that path, or by
/// the long path
pub open spec fn delivery(c: ClientView, source: Seq<u8>, path: Seq<char>) -> Option<PathView> {
    match c.state {
        ClientStateView::Connected { subscriptions, shortcuts, .. } => {
            if c.id != source && any_match(subscriptions, path) {
                match short_for_long(shortcuts, path) {
                    Some(s) => Some(PathView::Short(s)),
                    None => Some(PathView::Long(path)),
                }
            } else {
                None
            }
        },
        ClientStateView::SessionEstablished => None,
    }
}

/// The deliveries of one publication, in client order: one per client
/// that receives it
pub open spec fn publish_plan(cs: Seq<ClientView>, source: Seq<u8>, path: Seq<char>) -> Seq<
    (Seq<u8>, PathView),
>
    decreases cs.len(),
{
    if cs.len() == 0 {
        Seq::empty()
    } else {
        let rest = publish_plan(cs.drop_last(), source, path);
        match delivery(cs.last(), source, path) {
            Some(d) => rest.push((cs.last().id, d)),
            None => rest,
        }
    }
}

/// The path on which a publish request was made, as the broker resolves it
/// for its sender
pub open spec fn resolved_publish_path(
    cs: Seq<ClientView>,
    source: Seq<u8>,
    path: PubSubPath,
) -> Option<Seq<char>> {
    match path {
        PubSubPath::Long(ManagedString::Borrow(s)) => Some(s@),
        PubSubPath::Long(ManagedString::Owned(_)) => None,
        PubSubPath::Short(sid) => {
            match cs[client_index(cs, source)].state {
                ClientStateView::Connected { shortcuts, .. } => long_for_short(shortcuts, sid),
                ClientStateView::SessionEstablished => None,
            }
        },
    }
}

/// Where a response goes and on which path
pub open spec fn response_delivery(r: Response) -> (Seq<u8>, PathView) {
    (
        r.dest.view(),
        match r.msg {
            Arbitrator::PubSub(Ok(PubSubResponse::SubMsg(m))) => m.path.view(),
            _ => PathView::Short(0),
        },
    )
}

/// Is the response a published message carrying `payload`?
pub open spec fn carries_payload(r: Response, payload: Seq<u8>) -> bool {
    r.msg matches Arbitrator::PubSub(Ok(PubSubResponse::SubMsg(m))) && m.payload@ == payload
}

// =====================================================================
// Concrete state
// =====================================================================

/// A registered short code
pub struct Shortcut {
    long: Path<'static>,
    short: u16,
}

impl Shortcut {
    /// The shortcut, abstractly
    pub closed spec fn view(&self) -> ShortcutView {
        ShortcutView { long: self.long.chars(), short: self.short }
    }
}

/// The state of a client that has registered as a component
pub struct ConnectedState {
    name: Name<'static>,
    version: Version,
    subscriptions: heapless::Vec<Path<'static>, 8>,
    shortcuts: heapless::Vec<Shortcut, 8>,
}

/// The connection state of a client
pub enum ClientState {
    SessionEstablished,
    Connected(ConnectedState),
}

/// A client known to the broker
pub struct Client {
    id: Uuid,
    state: ClientState,
}

/// The paths held by a `heapless::Vec` of subscriptions
pub uninterp spec fn path_items(v: heapless::Vec<Path<'static>, 8>) -> Seq<Path<'static>>;

/// The shortcuts held by a `heapless::Vec` of shortcuts
pub uninterp spec fn shortcut_items(v: heapless::Vec<Shortcut, 8>) -> Seq<Shortcut>;

/// The clients held by a `heapless::Vec` of clients
pub uninterp spec fn client_items(v: heapless::Vec<Client, 8>) -> Seq<Client>;

/// The characters of each path
pub open spec fn paths_view(s: Seq<Path<'static>>) -> Seq<Seq<char>> {
    s.map_values(|p: Path<'static>| p.chars())
}

/// Each shortcut, abstractly
pub open spec fn shortcuts_view(s: Seq<Shortcut>) -> Seq<ShortcutView> {
    s.map_values(|x: Shortcut| x.view())
}

impl ClientState {
    /// The connection state, abstractly
    pub closed spec fn view(&self) -> ClientStateView {
        match self {
            ClientState::SessionEstablished => ClientStateView::SessionEstablished,
            ClientState::Connected(c) => ClientStateView::Connected {
                name: c.name.chars(),
                version: c.version,
                subscriptions: paths_view(path_items(c.subscriptions)),
                shortcuts: shortcuts_view(shortcut_items(c.shortcuts)),
            },
        }
    }
}

impl Client {
    /// The client, abstractly
    pub closed spec fn view(&self) -> ClientView {
        ClientView { id: self.id.view(), state: self.state.view() }
    }
}

/// Each client, abstractly
pub open spec fn clients_view(s: Seq<Client>) -> Seq<ClientView> {
    s.map_values(|c: Client| c.view())
}

// =====================================================================
// heapless::Vec wrappers
// =====================================================================

/// `heapless::Vec::<Path, 8>::new`: an empty vector
#[verifier::external_body]
fn paths_new() -> (r: heapless::Vec<Path<'static>, 8>)
    ensures
        path_items(r) == Seq::<Path<'static>>::empty(),
{
    heapless::Vec::new()
}

/// `heapless::Vec::<Path, 8>::len` (through `Deref` to a slice): the number
/// of items, never above the capacity
#[verifier::external_body]
fn paths_len(v: &heapless::Vec<Path<'static>, 8>) -> (r: usize)
    ensures
        r == path_items(*v).len(),
        r <= 8,
{
    v.len()
}

/// Indexing a `heapless::Vec::<Path, 8>` (through `Deref` to a slice)
#[verifier::external_body]
fn paths_get<'v>(v: &'v heapless::Vec<Path<'static>, 8>, i: usize) -> (r: &'v Path<'static>)
    requires
        i < path_items(*v).len(),
    ensures
        *r == path_items(*v)[i as int],
{
    &v[i]
}

/// `heapless::Vec::<Path, 8>::push`: appends when the length is below the
/// capacity, else hands the item back and leaves the vector unchanged
#[verifier::external_body]
fn paths_push(v: &mut heapless::Vec<Path<'static>, 8>, p: Path<'static>) -> (r: Result<(), Path<'static>>)
    ensures
        path_items(*old(v)).len() < 8 ==> r is Ok,
        path_items(*old(v)).len() < 8 ==> path_items(*final(v)) == path_items(*old(v)).push(p),
        path_items(*old(v)).len() >= 8 ==> (r matches Err(back) && back == p),
        path_items(*old(v)).len() >= 8 ==> path_items(*final(v)) == path_items(*old(v)),
{
    v.push(p)
}

/// `heapless::Vec::<Shortcut, 8>::new`: an empty vector
#[verifier::external_body]
fn shortcuts_new() -> (r: heapless::Vec<Shortcut, 8>)
    ensures
        shortcut_items(r) == Seq::<Shortcut>::empty(),
{
    heapless::Vec::new()
}

/// `heapless::Vec::<Shortcut, 8>::len` (through `Deref` to a slice)
#[verifier::external_body]
fn shortcuts_len(v: &heapless::Vec<Shortcut, 8>) -> (r: usize)
    ensures
        r == shortcut_items(*v).len(),
        r <= 8,
{
    v.len()
}

/// Indexing a `heapless::Vec::<Shortcut, 8>` (through `Deref` to a slice)
#[verifier::external_body]
fn shortcuts_get(v: &heapless::Vec<Shortcut, 8>, i: usize) -> (r: &Shortcut)
    requires
        i < shortcut_items(*v).len(),
    ensures
        *r == shortcut_items(*v)[i as int],
{
    &v[i]
}

/// `heapless::Vec::<Shortcut, 8>::push`: appends when the length is below
/// the capacity, else hands the item back and leaves the vector unchanged
#[verifier::external_body]
fn shortcuts_push(v: &mut heapless::Vec<Shortcut, 8>, s: Shortcut) -> (r: Result<(), Shortcut>)
    ensures
        shortcut_items(*old(v)).len() < 8 ==> r is Ok,
        shortcut_items(*old(v)).len() < 8 ==> shortcut_items(*final(v)) == shortcut_items(*old(v)).push(s),
        shortcut_items(*old(v)).len() >= 8 ==> (r matches Err(back) && back == s),
        shortcut_items(*old(v)).len() >= 8 ==> shortcut_items(*final(v)) == shortcut_items(*old(v)),
{
    v.push(s)
}

/// `heapless::Vec::<Client, 8>::new`: an empty vector
#[verifier::external_body]
fn clients_new() -> (r: heapless::Vec<Client, 8>)
    ensures
        client_items(r) == Seq::<Client>::empty(),
{
    heapless::Vec::new()
}

/// `heapless::Vec::<Client, 8>::len` (through `Deref` to a slice)
#[verifier::external_body]
fn clients_len(v: &heapless::Vec<Client, 8>) -> (r: usize)
    ensures
        r == client_items(*v).len(),
        r <= 8,
{
    v.len()
}

/// Indexing a `heapless::Vec::<Client, 8>` (through `Deref` to a slice)
#[verifier::external_body]
fn clients_get(v: &heapless::Vec<Client, 8>, i: usize) -> (r: &Client)
    requires
        i < client_items(*v).len(),
    ensures
        *r == client_items(*v)[i as int],
{
    &v[i]
}

/// `heapless::Vec::<Client, 8>::push`: appends when the length is below the
/// capacity, else hands the item back and leaves the vector unchanged
#[verifier::external_body]
fn clients_push(v: &mut heapless::Vec<Client, 8>, c: Client) -> (r: Result<(), Client>)
    ensures
        client_items(*old(v)).len() < 8 ==> r is Ok,
        client_items(*old(v)).len() < 8 ==> client_items(*final(v)) == client_items(*old(v)).push(c),
        client_items(*old(v)).len() >= 8 ==> (r matches Err(back) && back == c),
        client_items(*old(v)).len() >= 8 ==> client_items(*final(v)) == client_items(*old(v)),
{
    v.push(c)
}

/// `heapless::Vec::<Client, 8>::swap_remove`: removes item `i`, moving the
/// last item into its place
#[verifier::external_body]
fn clients_swap_remove(v: &mut heapless::Vec<Client, 8>, i: usize) -> (r: Client)
    requires
        i < client_items(*old(v)).len(),
    ensures
        r == client_items(*old(v))[i as int],
        client_items(*final(v)) == client_items(*old(v)).update(
            i as int,
            client_items(*old(v)).last(),
        ).drop_last(),
{
    v.swap_remove(i)
}

/// Replacing item `i` of a `heapless::Vec::<Client, 8>` (through
/// `DerefMut` to a slice) and taking the old item back
#[verifier::external_body]
fn clients_replace(v: &mut heapless::Vec<Client, 8>, i: usize, c: Client) -> (r: Client)
    requires
        i < client_items(*old(v)).len(),
    ensures
        r == client_items(*old(v))[i as int],
        client_items(*final(v)) == client_items(*old(v)).update(i as int, c),
{
    core::mem::replace(&mut v[i], c)
}

// =====================================================================
// Messages and errors
// =====================================================================

/// A request FROM the Client, TO the Broker
///
/// This message is addressed by a UUID used when registering the client
pub struct Request<'a> {
    pub source: Uuid,
    pub msg: Component<'a>,
}

/// A response TO the Client, FROM the Broker
///
/// This message is addressed by a UUID used when registering the client
pub struct Response<'a> {
    pub dest: Uuid,
    pub msg: Arbitrator<'a>,
}

/// The errors of the broker
#[derive(Debug, PartialEq, Eq, Clone, Copy, Structural)]
pub enum ServerError {
    ClientAlreadyRegistered,
    UnknownClient,
    ClientDisconnected,
    ConnectionError,
    ResourcesExhausted,
    UnknownShortcode,
    InternalError,
}

/// The errors of a broker's transport
#[derive(Debug, PartialEq, Eq, Clone, Copy, Structural)]
pub enum ServerIoError {
    ToDo,
    DeserializeFailure,
}

/// The source of requests for a broker
pub trait ServerIoIn {
    fn recv<'a, 'b: 'a>(&'b mut self) -> Result<Option<Request<'b>>, ServerIoError>;
}

/// A broker's end of a source of requests, with a record of what it
/// delivered
///
/// A request borrows the source for as long as the link lives, so a link
/// delivers once: make a new one for each request.
pub struct RequestLink<'s, 'r, SI: ServerIoIn> {
    pub source: &'s mut SI,
    delivered: Ghost<Option<Result<Option<Request<'r>>, ServerIoError>>>,
}

impl<'s: 'r, 'r, SI: ServerIoIn> RequestLink<'s, 'r, SI> {
    /// What the source delivered through this link, if it was asked
    pub closed spec fn delivered(&self) -> Option<Result<Option<Request<'r>>, ServerIoError>> {
        self.delivered@
    }

    /// A link over `source` that has not yet been asked for a request
    pub fn new(source: &'s mut SI) -> (r: Self)
        ensures
            r.delivered() is None,
    {
        RequestLink { source, delivered: Ghost(None) }
    }

    /// Ask the source for a request
    pub fn recv(&'r mut self) -> (r: Result<Option<Request<'r>>, ServerIoError>)
        ensures
            final(self).delivered() == Some(r),
    {
        let r = self.source.recv();
        proof {
            self.delivered@ = Some(r);
        }
        r
    }
}

/// The sink for a broker's responses
pub trait ServerIoOut<'resp> {
    fn push_response(&mut self, resp: Response<'resp>) -> Result<(), ServerIoError>;
}

/// A broker's end of its responses' sink, with a record of each response
/// handed to the sink and the sink's answer
pub struct ResponseSink<'s, 'resp, SO: ServerIoOut<'resp>> {
    pub sink: &'s mut SO,
    pushed: Ghost<Seq<(Response<'resp>, Result<(), ServerIoError>)>>,
}

impl<'s, 'resp, SO: ServerIoOut<'resp>> ResponseSink<'s, 'resp, SO> {
    /// The responses handed to the sink so far, with its answers
    pub closed spec fn pushes(&self) -> Seq<(Response<'resp>, Result<(), ServerIoError>)> {
        self.pushed@
    }

    /// Record the responses handed to `sink` from now on
    pub fn new(sink: &'s mut SO) -> (r: Self)
        ensures
            r.pushes() == Seq::<(Response<'resp>, Result<(), ServerIoError>)>::empty(),
    {
        ResponseSink { sink, pushed: Ghost(Seq::empty()) }
    }

    /// Hand `resp` to the sink
    pub fn push(&mut self, resp: Response<'resp>) -> (r: Result<(), ServerIoError>)
        ensures
            final(self).pushes() == old(self).pushes().push((resp, r)),
    {
        let ghost handed = resp;
        let r = self.sink.push_response(resp);
        proof {
            self.pushed@ = self.pushed@.push((handed, r));
        }
        r
    }
}

/// The message that tells a client to reconnect
///
/// If processing a client's message fails, send this to that client to
/// force it to reconnect.
pub fn reset_message() -> (r: Arbitrator<'static>)
    ensures
        r == Arbitrator::<'static>::Control(
            AControl { seq: 0, response: Err(ControlError::ResetConnection) },
        ),
{
    Arbitrator::Control(AControl { seq: 0, response: Err(ControlError::ResetConnection) })
}


// =====================================================================
// Searches over a client's subscriptions and shortcuts
// =====================================================================

/// The long path registered under `sid`, by the first shortcut that has it
fn shortcut_long_for<'b>(v: &'b heapless::Vec<Shortcut, 8>, sid: u16) -> (r: Option<&'b str>)
    ensures
        long_for_short(shortcuts_view(shortcut_items(*v)), sid) matches Some(p) ==> (r matches Some(
            st,
        ) && st@ == p),
        long_for_short(shortcuts_view(shortcut_items(*v)), sid) is None ==> r is None,
{
    let ghost sv = shortcuts_view(shortcut_items(*v));
    let n = shortcuts_len(v);
    let mut i: usize = 0;
    proof {
        assert(sv.subrange(0, n as int) =~= sv);
    }
    while i < n
        invariant
            n == sv.len(),
            sv == shortcuts_view(shortcut_items(*v)),
            i <= n,
            long_for_short(sv, sid) == long_for_short(sv.subrange(i as int, n as int), sid),
        decreases n - i,
    {
        let sc = shortcuts_get(v, i);
        proof {
            let rest = sv.subrange(i as int, n as int);
            assert(rest[0] == sc.view());
            assert(rest.drop_first() =~= sv.subrange(i + 1, n as int));
        }
        if sc.short == sid {
            return Some(sc.long.as_str());
        }
        i = i + 1;
    }
    None
}

/// The short code registered for `path`, by the first shortcut that has it
fn shortcut_short_for(v: &heapless::Vec<Shortcut, 8>, path: &str) -> (r: Option<u16>)
    ensures
        r == short_for_long(shortcuts_view(shortcut_items(*v)), path@),
{
    let ghost sv = shortcuts_view(shortcut_items(*v));
    let n = shortcuts_len(v);
    let mut i: usize = 0;
    proof {
        assert(sv.subrange(0, n as int) =~= sv);
    }
    while i < n
        invariant
            n == sv.len(),
            sv == shortcuts_view(shortcut_items(*v)),
            i <= n,
            short_for_long(sv, path@) == short_for_long(sv.subrange(i as int, n as int), path@),
        decreases n - i,
    {
        let sc = shortcuts_get(v, i);
        proof {
            let rest = sv.subrange(i as int, n as int);
            assert(rest[0] == sc.view());
            assert(rest.drop_first() =~= sv.subrange(i + 1, n as int));
        }
        if str_equal(sc.long.as_str(), path) {
            return Some(sc.short);
        }
        i = i + 1;
    }
    None
}

/// Is the (path, short code) pair registered?
fn has_shortcut(v: &heapless::Vec<Shortcut, 8>, long: &str, short: u16) -> (r: bool)
    ensures
        r == shortcuts_view(shortcut_items(*v)).contains(ShortcutView { long: long@, short }),
{
    let ghost sv = shortcuts_view(shortcut_items(*v));
    let n = shortcuts_len(v);
    let mut i: usize = 0;
    while i < n
        invariant
            n == sv.len(),
            sv == shortcuts_view(shortcut_items(*v)),
            i <= n,
            forall|j: int| 0 <= j < i ==> sv[j] != (ShortcutView { long: long@, short }),
        decreases n - i,
    {
        let sc = shortcuts_get(v, i);
        proof {
            assert(sv[i as int] == sc.view());
        }
        if sc.short == short && str_equal(sc.long.as_str(), long) {
            proof {
                assert(sv[i as int] == (ShortcutView { long: long@, short }));
            }
            return true;
        }
        i = i + 1;
    }
    false
}

/// Is the path among the subscriptions?
fn has_subscription(v: &heapless::Vec<Path<'static>, 8>, path: &str) -> (r: bool)
    ensures
        r == paths_view(path_items(*v)).contains(path@),
{
    let ghost pv = paths_view(path_items(*v));
    let n = paths_len(v);
    let mut i: usize = 0;
    while i < n
        invariant
            n == pv.len(),
            pv == paths_view(path_items(*v)),
            i <= n,
            forall|j: int| 0 <= j < i ==> pv[j] != path@,
        decreases n - i,
    {
        let p = paths_get(v, i);
        proof {
            assert(pv[i as int] == p.chars());
        }
        if str_equal(p.as_str(), path) {
            return true;
        }
        i = i + 1;
    }
    false
}

/// Does one of the subscriptions match the path?
fn subscription_matches(v: &heapless::Vec<Path<'static>, 8>, path: &str) -> (r: bool)
    ensures
        r == any_match(paths_view(path_items(*v)), path@),
{
    let ghost pv = paths_view(path_items(*v));
    let n = paths_len(v);
    let mut i: usize = 0;
    while i < n
        invariant
            n == pv.len(),
            pv == paths_view(path_items(*v)),
            i <= n,
            forall|j: int| 0 <= j < i ==> !topic_matches(pv[j], path@),
        decreases n - i,
    {
        let p = paths_get(v, i);
        proof {
            assert(pv[i as int] == p.chars());
        }
        if crate::icd::matches(p.as_str(), path) {
            return true;
        }
        i = i + 1;
    }
    false
}


/// The position of the client with this id
pub open spec fn client_index(cs: Seq<ClientView>, id: Seq<u8>) -> int {
    choose|i: int| 0 <= i < cs.len() && cs[i].id == id
}

/// Does the path hold a wildcard character?
pub open spec fn has_wildcard(s: Seq<char>) -> bool {
    s.contains('#') || s.contains('+')
}

/// What the broker answers to a control request
pub enum ControlReply {
    /// The component was registered; the answer carries the client's id
    Registered,
    /// The short code was registered
    ShortRegistered(u16),
    /// Short codes for paths with wildcards are refused
    NoWildcards,
}

/// Is `r` the answer `reply` to the control request `seq` of client `dest`?
pub open spec fn is_control_reply(r: Response, dest: Seq<u8>, seq: u16, reply: ControlReply) -> bool {
    &&& r.dest.view() == dest
    &&& r.msg matches Arbitrator::Control(c)
    &&& c.seq == seq
    &&& match reply {
        ControlReply::Registered => c.response matches Ok(
            ControlResponse::ComponentRegistration(u),
        ) && u.view() == dest,
        ControlReply::ShortRegistered(sid) => c.response == Ok::<ControlResponse, ControlError>(
            ControlResponse::PubSubShortRegistration(sid),
        ),
        ControlReply::NoWildcards => c.response == Err::<ControlResponse, ControlError>(
            ControlError::NoWildcardsInShorts,
        ),
    }
}

/// The clients after a control request of client `src`, and the answer
pub open spec fn control_outcome(cs: Seq<ClientView>, src: Seq<u8>, ctrl: Control) -> (
    Seq<ClientView>,
    Result<ControlReply, ServerError>,
) {
    if !has_client(cs, src) {
        (cs, Err(ServerError::UnknownClient))
    } else {
        match ctrl.ty {
            ControlType::RegisterComponent(info) => {
                if utf8_len(info.name.chars()) <= MAX_NAME_LEN {
                    (
                        with_state(
                            cs,
                            src,
                            ClientStateView::Connected {
                                name: info.name.chars(),
                                version: info.version,
                                subscriptions: Seq::empty(),
                                shortcuts: Seq::empty(),
                            },
                        ),
                        Ok(ControlReply::Registered),
                    )
                } else {
                    (cs, Err(ServerError::ResourcesExhausted))
                }
            },
            ControlType::RegisterPubSubShortId(ps) => {
                match cs[client_index(cs, src)].state {
                    ClientStateView::SessionEstablished => (
                        cs,
                        Err(ServerError::ClientDisconnected),
                    ),
                    ClientStateView::Connected { name, version, subscriptions, shortcuts } => {
                        let sc = ShortcutView { long: ps.long_name@, short: ps.short_id };
                        if has_wildcard(ps.long_name@) {
                            (cs, Ok(ControlReply::NoWildcards))
                        } else if shortcuts.contains(sc) {
                            (cs, Ok(ControlReply::ShortRegistered(ps.short_id)))
                        } else if utf8_len(ps.long_name@) <= MAX_PATH_LEN && shortcuts.len()
                            < MAX_SHORTCUTS {
                            (
                                with_state(
                                    cs,
                                    src,
                                    ClientStateView::Connected {
                                        name,
                                        version,
                                        subscriptions,
                                        shortcuts: shortcuts.push(sc),
                                    },
                                ),
                                Ok(ControlReply::ShortRegistered(ps.short_id)),
                            )
                        } else {
                            (cs, Err(ServerError::ResourcesExhausted))
                        }
                    },
                }
            },
        }
    }
}

/// With unique ids, the client at position `i` is the one `client_index` names
pub proof fn lemma_client_index(cs: Seq<ClientView>, i: int)
    requires
        unique_ids(cs),
        0 <= i < cs.len(),
    ensures
        client_index(cs, cs[i].id) == i,
        has_client(cs, cs[i].id),
{
    let j = client_index(cs, cs[i].id);
    assert(0 <= j < cs.len() && cs[j].id == cs[i].id);
}


/// The clients after a subscribe request of client `src` on `path`, and
/// whether it is acknowledged
pub open spec fn subscribe_outcome(cs: Seq<ClientView>, src: Seq<u8>, path: PathView) -> (
    Seq<ClientView>,
    Result<(), ServerError>,
) {
    if !has_client(cs, src) {
        (cs, Err(ServerError::UnknownClient))
    } else {
        match cs[client_index(cs, src)].state {
            ClientStateView::SessionEstablished => (cs, Err(ServerError::ClientDisconnected)),
            ClientStateView::Connected { name, version, subscriptions, shortcuts } => {
                let target = match path {
                    PathView::Long(p) => Some(p),
                    PathView::Short(sid) => long_for_short(shortcuts, sid),
                };
                match target {
                    None => (cs, Err(ServerError::UnknownShortcode)),
                    Some(p) => {
                        if subscriptions.contains(p) {
                            (cs, Ok(()))
                        } else if utf8_len(p) <= MAX_PATH_LEN && subscriptions.len()
                            < MAX_SUBSCRIPTIONS {
                            (
                                with_state(
                                    cs,
                                    src,
                                    ClientStateView::Connected {
                                        name,
                                        version,
                                        subscriptions: subscriptions.push(p),
                                        shortcuts,
                                    },
                                ),
                                Ok(()),
                            )
                        } else {
                            (cs, Err(ServerError::ResourcesExhausted))
                        }
                    },
                }
            },
        }
    }
}

/// Is `r` the acknowledgement of a subscription of client `dest` on `path`?
/// It carries the path as it was asked for: the same short code, or the
/// same long path, owned if and only if the request's path was owned.
pub open spec fn is_sub_ack(r: Response, dest: Seq<u8>, path: PubSubPath) -> bool {
    &&& r.dest.view() == dest
    &&& r.msg matches Arbitrator::PubSub(Ok(PubSubResponse::SubAck { path: p }))
    &&& p.view() == path.view()
    &&& (path matches PubSubPath::Long(m) ==> (p matches PubSubPath::Long(n) && (m is Owned
        <==> n is Owned)))
}

/// No subscription is held twice, and no (path, short code) pair is
/// registered twice
pub open spec fn state_wf(st: ClientStateView) -> bool {
    match st {
        ClientStateView::SessionEstablished => true,
        ClientStateView::Connected { subscriptions, shortcuts, .. } => {
            &&& subscriptions.len() <= MAX_SUBSCRIPTIONS
            &&& shortcuts.len() <= MAX_SHORTCUTS
            &&& forall|a: int, b: int|
                0 <= a < b < subscriptions.len() ==> subscriptions[a] != subscriptions[b]
            &&& forall|a: int, b: int|
                0 <= a < b < shortcuts.len() ==> shortcuts[a] != shortcuts[b]
        },
    }
}

/// The invariant of a broker's clients
pub open spec fn clients_wf(cs: Seq<ClientView>) -> bool {
    &&& cs.len() <= MAX_CLIENTS
    &&& unique_ids(cs)
    &&& forall|i: int| 0 <= i < cs.len() ==> state_wf(#[trigger] cs[i].state)
}

/// The Broker Interface
///
/// This is the primary interface for devices acting as a broker.
///
/// Currently the max capacity is fixed with a maximum of 8
/// clients connected. Each Client may subscribe up to 8 topics.
/// Each Client may register up to 8 shortcodes.
pub struct Broker {
    clients: heapless::Vec<Client, 8>,
}

impl Broker {
    /// The registered clients, in order
    pub closed spec fn view(&self) -> Seq<ClientView> {
        clients_view(client_items(self.clients))
    }

    /// The broker's invariant: ids are unique, and each client's state is
    /// within its limits
    pub open spec fn wf(&self) -> bool {
        clients_wf(self@)
    }

    /// Create a new broker with no clients attached
    pub fn new() -> (r: Self)
        ensures
            r@ == Seq::<ClientView>::empty(),
            r.wf(),
    {
        let r = Broker { clients: clients_new() };
        proof {
            assert(r@ =~= Seq::<ClientView>::empty());
        }
        r
    }

    /// The position of the client with this id
    fn find_client(&self, id: &Uuid) -> (r: Option<usize>)
        ensures
            r matches Some(i) ==> i < self@.len() && self@[i as int].id == id.view(),
            r is None ==> !has_client(self@, id.view()),
    {
        let n = clients_len(&self.clients);
        let mut i: usize = 0;
        while i < n
            invariant
                n == self@.len(),
                i <= n,
                forall|j: int| 0 <= j < i ==> self@[j].id != id.view(),
            decreases n - i,
        {
            let c = clients_get(&self.clients, i);
            if c.id.same_as(id) {
                return Some(i);
            }
            i = i + 1;
        }
        None
    }

    /// Register a client to the broker
    ///
    /// This can be done dynamically, e.g. when a client connects for the
    /// first time, e.g. a TCP session is established, or the first packet
    /// is received, or can be done ahead-of-time, e.g. when communicating
    /// with a fixed set of wired devices.
    ///
    /// Clients must be registered before messages from them can be processed.
    ///
    /// If an already-registered client is re-registered, they will be reset to
    /// an initial connection state, dropping all subscriptions or shortcodes.
    pub fn register_client(&mut self, id: &Uuid) -> (r: Result<(), ServerError>)
        requires
            old(self).wf(),
        ensures
            final(self).wf(),
            has_client(old(self)@, id.view()) ==> r is Ok && final(self)@ == with_state(
                old(self)@,
                id.view(),
                ClientStateView::SessionEstablished,
            ),
            !has_client(old(self)@, id.view()) && old(self)@.len() < MAX_CLIENTS ==> r is Ok
                && final(self)@ == old(self)@.push(fresh_client(id.view())),
            !has_client(old(self)@, id.view()) && old(self)@.len() >= MAX_CLIENTS ==> r == Err::<
                (),
                ServerError,
            >(ServerError::ResourcesExhausted) && final(self)@ == old(self)@,
    {
        match self.find_client(id) {
            Some(i) => {
                self.set_state(i, ClientState::SessionEstablished);
                Ok(())
            },
            None => {
                let ghost old_items = client_items(self.clients);
                let fresh = Client { id: *id, state: ClientState::SessionEstablished };
                proof {
                    assert(fresh.view() == fresh_client(id.view()));
                }
                match clients_push(&mut self.clients, fresh) {
                    Ok(()) => {
                        proof {
                            assert(self@ =~= old(self)@.push(fresh_client(id.view())));
                            assert forall|a: int, b: int| 0 <= a < b < self@.len() implies self@[a].id
                                != self@[b].id by {
                                if b == self@.len() - 1 {
                                    assert(old(self)@[a].id != id.view());
                                }
                            }
                        }
                        Ok(())
                    },
                    Err(_) => Err(ServerError::ResourcesExhausted),
                }
            },
        }
    }

    /// Give the client at position `i` a new state, keeping its id
    fn set_state(&mut self, i: usize, st: ClientState)
        requires
            old(self).wf(),
            i < old(self)@.len(),
            state_wf(st.view()),
        ensures
            final(self).wf(),
            final(self)@ == with_state(old(self)@, old(self)@[i as int].id, st.view()),
            final(self)@ == old(self)@.update(
                i as int,
                ClientView { id: old(self)@[i as int].id, state: st.view() },
            ),
    {
        let ghost id = self@[i as int].id;
        let id_bytes = clients_get(&self.clients, i).id;
        let fresh = Client { id: id_bytes, state: st };
        let _ = clients_replace(&mut self.clients, i, fresh);
        proof {
            assert(self@ =~= old(self)@.update(i as int, ClientView { id, state: st.view() }));
            assert(self@ =~= with_state(old(self)@, id, st.view()));
        }
    }

    /// Take the state of the client at position `i`, leaving it in the
    /// initial state
    fn take_state(&mut self, i: usize) -> (st: ClientState)
        requires
            old(self).wf(),
            i < old(self)@.len(),
        ensures
            final(self).wf(),
            st.view() == old(self)@[i as int].state,
            final(self)@ == old(self)@.update(
                i as int,
                ClientView { id: old(self)@[i as int].id, state: ClientStateView::SessionEstablished },
            ),
    {
        let ghost id = self@[i as int].id;
        let id_bytes = clients_get(&self.clients, i).id;
        let fresh = Client { id: id_bytes, state: ClientState::SessionEstablished };
        let taken = clients_replace(&mut self.clients, i, fresh);
        proof {
            assert(self@ =~= old(self)@.update(
                i as int,
                ClientView { id, state: ClientStateView::SessionEstablished },
            ));
        }
        taken.state
    }

    /// Remove a client from the broker
    ///
    /// This could be necessary if the connection to a client breaks or times out
    /// Once removed, no further messages to or from this client will be processed
    pub fn remove_client(&mut self, id: &Uuid) -> (r: Result<(), ServerError>)
        requires
            old(self).wf(),
        ensures
            final(self).wf(),
            has_client(old(self)@, id.view()) ==> r is Ok && exists|i: int|
                0 <= i < old(self)@.len() && old(self)@[i].id == id.view() && final(self)@
                    == old(self)@.update(i, old(self)@.last()).drop_last(),
            !has_client(old(self)@, id.view()) ==> r == Err::<(), ServerError>(
                ServerError::UnknownClient,
            ) && final(self)@ == old(self)@,
    {
        match self.find_client(id) {
            Some(i) => {
                let _ = clients_swap_remove(&mut self.clients, i);
                proof {
                    let o = old(self)@;
                    assert(self@ =~= o.update(i as int, o.last()).drop_last());
                    assert forall|a: int, b: int| 0 <= a < b < self@.len() implies self@[a].id
                        != self@[b].id by {
                        if a == i {
                            assert(o[o.len() - 1].id != o[b].id);
                        } else if b == i {
                            assert(o[a].id != o[o.len() - 1].id);
                        }
                    }
                    assert forall|k: int| 0 <= k < self@.len() implies state_wf(
                        #[trigger] self@[k].state,
                    ) by {
                        if k == i {
                            assert(state_wf(o[o.len() - 1].state));
                        } else {
                            assert(state_wf(o[k].state));
                        }
                    }
                }
                Ok(())
            },
            None => Err(ServerError::UnknownClient),
        }
    }

    /// Reset a client registered with the broker, without removing it
    ///
    /// This could be necessary if the connection to a client breaks or times out.
    pub fn reset_client(&mut self, id: &Uuid) -> (r: Result<(), ServerError>)
        requires
            old(self).wf(),
        ensures
            final(self).wf(),
            has_client(old(self)@, id.view()) ==> r is Ok && final(self)@ == with_state(
                old(self)@,
                id.view(),
                ClientStateView::SessionEstablished,
            ),
            !has_client(old(self)@, id.view()) ==> r == Err::<(), ServerError>(
                ServerError::UnknownClient,
            ) && final(self)@ == old(self)@,
    {
        match self.find_client(id) {
            Some(i) => {
                self.set_state(i, ClientState::SessionEstablished);
                Ok(())
            },
            None => Err(ServerError::UnknownClient),
        }
    }

    /// Handle a control request of the client `source`
    ///
    /// A component registration (re)connects the client with an empty set of
    /// subscriptions and shortcuts; a short code registration adds the
    /// shortcut unless it is already held. A short code path longer than the
    /// broker can hold is refused with `ResourcesExhausted`.
    pub fn handle_control(&mut self, source: &Uuid, ctrl: &Control) -> (r: Result<
        Option<Response<'static>>,
        ServerError,
    >)
        requires
            old(self).wf(),
        ensures
            final(self).wf(),
            final(self)@ == control_outcome(old(self)@, source.view(), *ctrl).0,
            control_outcome(old(self)@, source.view(), *ctrl).1 matches Ok(reply) ==> (r matches Ok(
                Some(resp),
            ) && is_control_reply(resp, source.view(), ctrl.seq, reply)),
            control_outcome(old(self)@, source.view(), *ctrl).1 matches Err(e) ==> r == Err::<
                Option<Response<'static>>,
                ServerError,
            >(e),
    {
        let i = match self.find_client(source) {
            Some(i) => i,
            None => return Err(ServerError::UnknownClient),
        };
        proof {
            lemma_client_index(self@, i as int);
        }
        let seq = ctrl.seq;
        match &ctrl.ty {
            ControlType::RegisterComponent(info) => {
                let name = match info.name.try_to_owned() {
                    Ok(n) => n,
                    Err(()) => return Err(ServerError::ResourcesExhausted),
                };
                let id = clients_get(&self.clients, i).id;
                let st = ClientState::Connected(
                    ConnectedState {
                        name,
                        version: info.version,
                        subscriptions: paths_new(),
                        shortcuts: shortcuts_new(),
                    },
                );
                proof {
                    assert(paths_view(Seq::<Path<'static>>::empty()) =~= Seq::<Seq<char>>::empty());
                    assert(shortcuts_view(Seq::<Shortcut>::empty()) =~= Seq::<ShortcutView>::empty());
                }
                self.set_state(i, st);
                Ok(
                    Some(
                        Response {
                            dest: id,
                            msg: Arbitrator::Control(
                                AControl {
                                    seq,
                                    response: Ok(ControlResponse::ComponentRegistration(id)),
                                },
                            ),
                        },
                    ),
                )
            },
            ControlType::RegisterPubSubShortId(PubSubShort { long_name, short_id }) => {
                let c = clients_get(&self.clients, i);
                let id = c.id;
                let conn = match &c.state {
                    ClientState::Connected(cs) => cs,
                    ClientState::SessionEstablished => return Err(ServerError::ClientDisconnected),
                };
                if str_contains(long_name, '#') || str_contains(long_name, '+') {
                    return Ok(
                        Some(
                            Response {
                                dest: id,
                                msg: Arbitrator::Control(
                                    AControl {
                                        seq,
                                        response: Err(ControlError::NoWildcardsInShorts),
                                    },
                                ),
                            },
                        ),
                    );
                }
                let ack = Response {
                    dest: id,
                    msg: Arbitrator::Control(
                        AControl {
                            seq,
                            response: Ok(ControlResponse::PubSubShortRegistration(*short_id)),
                        },
                    ),
                };
                if has_shortcut(&conn.shortcuts, long_name, *short_id) {
                    return Ok(Some(ack));
                }
                if long_name.len() > MAX_PATH_LEN {
                    return Err(ServerError::ResourcesExhausted);
                }
                if shortcuts_len(&conn.shortcuts) >= MAX_SHORTCUTS {
                    return Err(ServerError::ResourcesExhausted);
                }
                let long = match Path::try_from_str(long_name) {
                    Ok(l) => l,
                    Err(()) => return Err(ServerError::ResourcesExhausted),
                };
                let ghost before = self@;
                let st = self.take_state(i);
                match st {
                    ClientState::Connected(mut cs) => {
                        let ghost old_sc = shortcut_items(cs.shortcuts);
                        let sc = Shortcut { long, short: *short_id };
                        let _ = shortcuts_push(&mut cs.shortcuts, sc);
                        proof {
                            assert(shortcuts_view(shortcut_items(cs.shortcuts)) =~= shortcuts_view(
                                old_sc,
                            ).push(sc.view()));
                            let sv = shortcuts_view(old_sc);
                            assert forall|a: int, b: int|
                                0 <= a < b < sv.len() + 1 implies sv.push(sc.view())[a] != sv.push(
                                sc.view(),
                            )[b] by {
                                if b == sv.len() {
                                    assert(sv[a] == sv.push(sc.view())[a]);
                                }
                            }
                        }
                        let new_st = ClientState::Connected(cs);
                        self.set_state(i, new_st);
                        proof {
                            assert(self@ =~= with_state(before, source.view(), new_st.view()));
                        }
                        Ok(Some(ack))
                    },
                    ClientState::SessionEstablished => {
                        proof {
                            assert(false);
                        }
                        Err(ServerError::InternalError)
                    },
                }
            },
        }
    }

    /// The position of the connected client with this id
    fn find_connected(&self, id: &Uuid) -> (r: Option<usize>)
        requires
            self.wf(),
        ensures
            r matches Some(i) ==> i < self@.len() && self@[i as int].id == id.view()
                && self@[i as int].state is Connected && i == client_index(self@, id.view()),
            r is None ==> !has_connected_client(self@, id.view()),
    {
        match self.find_client(id) {
            Some(i) => {
                proof {
                    lemma_client_index(self@, i as int);
                }
                match &clients_get(&self.clients, i).state {
                    ClientState::Connected(_) => Some(i),
                    ClientState::SessionEstablished => None,
                }
            },
            None => None,
        }
    }

    /// Handle a subscription request of the client `source`
    ///
    /// The path, or the long path of a short code the client registered, is
    /// added to the client's subscriptions unless it is already there. A path
    /// longer than the broker can hold is refused with `ResourcesExhausted`.
    pub fn handle_subscribe<'a>(&mut self, source: &Uuid, path: &PubSubPath<'a>) -> (r: Result<
        Response<'a>,
        ServerError,
    >)
        requires
            old(self).wf(),
        ensures
            final(self).wf(),
            final(self)@ == subscribe_outcome(old(self)@, source.view(), path.view()).0,
            subscribe_outcome(old(self)@, source.view(), path.view()).1 is Ok ==> (r matches Ok(
                resp,
            ) && is_sub_ack(resp, source.view(), *path)),
            subscribe_outcome(old(self)@, source.view(), path.view()).1 matches Err(e) ==> r
                == Err::<Response<'a>, ServerError>(e),
    {
        let i = match self.find_client(source) {
            Some(i) => i,
            None => return Err(ServerError::UnknownClient),
        };
        proof {
            lemma_client_index(self@, i as int);
        }
        let c = clients_get(&self.clients, i);
        let id = c.id;
        let conn = match &c.state {
            ClientState::Connected(cs) => cs,
            ClientState::SessionEstablished => return Err(ServerError::ClientDisconnected),
        };
        let path_str: &str = match path {
            PubSubPath::Long(lp) => lp.as_str(),
            PubSubPath::Short(sid) => match shortcut_long_for(&conn.shortcuts, *sid) {
                Some(l) => l,
                None => return Err(ServerError::UnknownShortcode),
            },
        };
        let ack = Response {
            dest: id,
            msg: Arbitrator::PubSub(Ok(PubSubResponse::SubAck { path: path.duplicate() })),
        };
        if has_subscription(&conn.subscriptions, path_str) {
            return Ok(ack);
        }
        if path_str.len() > MAX_PATH_LEN {
            return Err(ServerError::ResourcesExhausted);
        }
        if paths_len(&conn.subscriptions) >= MAX_SUBSCRIPTIONS {
            return Err(ServerError::ResourcesExhausted);
        }
        let owned = match Path::try_from_str(path_str) {
            Ok(o) => o,
            Err(()) => return Err(ServerError::ResourcesExhausted),
        };
        let ghost before = self@;
        let ghost target = path_str@;
        let st = self.take_state(i);
        match st {
            ClientState::Connected(mut cs) => {
                let ghost old_subs = path_items(cs.subscriptions);
                let _ = paths_push(&mut cs.subscriptions, owned);
                proof {
                    let pv = paths_view(old_subs);
                    assert(paths_view(path_items(cs.subscriptions)) =~= pv.push(target));
                    assert forall|a: int, b: int|
                        0 <= a < b < pv.len() + 1 implies pv.push(target)[a] != pv.push(
                        target,
                    )[b] by {
                        if b == pv.len() {
                            assert(pv[a] == pv.push(target)[a]);
                        }
                    }
                }
                let new_st = ClientState::Connected(cs);
                self.set_state(i, new_st);
                proof {
                    assert(self@ =~= with_state(before, source.view(), new_st.view()));
                }
                Ok(ack)
            },
            ClientState::SessionEstablished => {
                proof {
                    assert(false);
                }
                Err(ServerError::InternalError)
            },
        }
    }

    /// The responses to a message published by `source` on `path`
    ///
    /// Every other connected client with a subscription matching the path
    /// gets exactly one message, in client order: by the short code it
    /// registered for exactly that path if it has one, else by the long
    /// path. The sender never gets its own message.
    pub fn publish_responses<'a>(
        &'a self,
        path: &PubSubPath<'a>,
        payload: &'a [u8],
        source: &Uuid,
    ) -> (r: Result<Vec<Response<'a>>, ServerError>)
        requires
            self.wf(),
        ensures
            !has_connected_client(self@, source.view()) ==> r == Err::<Vec<Response<'a>>, ServerError>(
                ServerError::UnknownClient,
            ),
            has_connected_client(self@, source.view()) && (path matches PubSubPath::Long(
                ManagedString::Owned(_),
            )) ==> r == Err::<Vec<Response<'a>>, ServerError>(ServerError::InternalError),
            has_connected_client(self@, source.view()) && resolved_publish_path(
                self@,
                source.view(),
                *path,
            ) is None && !(path matches PubSubPath::Long(ManagedString::Owned(_))) ==> r == Err::<
                Vec<Response<'a>>,
                ServerError,
            >(ServerError::UnknownShortcode),
            has_connected_client(self@, source.view()) ==> (resolved_publish_path(
                self@,
                source.view(),
                *path,
            ) matches Some(p) ==> (r matches Ok(resps) && resps@.map_values(
                |x: Response<'a>| response_delivery(x),
            ) == publish_plan(self@, source.view(), p) && forall|k: int|
                0 <= k < resps@.len() ==> carries_payload(#[trigger] resps@[k], payload@))),
    {
        let si = match self.find_connected(source) {
            Some(i) => i,
            None => return Err(ServerError::UnknownClient),
        };
        let sc = clients_get(&self.clients, si);
        let sconn = match &sc.state {
            ClientState::Connected(cs) => cs,
            ClientState::SessionEstablished => return Err(ServerError::UnknownClient),
        };
        let path_str: &'a str = match path {
            PubSubPath::Long(ManagedString::Owned(_)) => return Err(ServerError::InternalError),
            PubSubPath::Long(ManagedString::Borrow(lp)) => *lp,
            PubSubPath::Short(sid) => match shortcut_long_for(&sconn.shortcuts, *sid) {
                Some(l) => l,
                None => return Err(ServerError::UnknownShortcode),
            },
        };
        let ghost p = path_str@;
        let ghost cs = self@;
        let n = clients_len(&self.clients);
        let mut resps: Vec<Response<'a>> = Vec::new();
        let mut j: usize = 0;
        proof {
            assert(cs.take(0) =~= Seq::<ClientView>::empty());
            assert(resps@.map_values(|x: Response<'a>| response_delivery(x)) =~= Seq::<
                (Seq<u8>, PathView),
            >::empty());
        }
        while j < n
            invariant
                n == cs.len(),
                cs == self@,
                j <= n,
                p == path_str@,
                resps@.map_values(|x: Response<'a>| response_delivery(x)) == publish_plan(
                    cs.take(j as int),
                    source.view(),
                    p,
                ),
                forall|k: int| 0 <= k < resps@.len() ==> carries_payload(#[trigger] resps@[k], payload@),
            decreases n - j,
        {
            let c = clients_get(&self.clients, j);
            let ghost prev = resps@;
            proof {
                assert(cs.take(j + 1).drop_last() =~= cs.take(j as int));
                assert(cs.take(j + 1).last() == cs[j as int]);
                assert(cs[j as int] == c.view());
            }
            match &c.state {
                ClientState::Connected(conn) => {
                    if !c.id.same_as(source) && subscription_matches(&conn.subscriptions, path_str) {
                        let dpath = match shortcut_short_for(&conn.shortcuts, path_str) {
                            Some(short) => PubSubPath::Short(short),
                            None => PubSubPath::Long(Path::borrow_from_str(path_str)),
                        };
                        let resp = Response {
                            dest: c.id,
                            msg: Arbitrator::PubSub(Ok(PubSubResponse::SubMsg(SubMsg { path: dpath, payload }))),
                        };
                        resps.push(resp);
                        proof {
                            assert(resps@.map_values(|x: Response<'a>| response_delivery(x)) =~= prev.map_values(
                                |x: Response<'a>| response_delivery(x),
                            ).push(response_delivery(resp)));
                        }
                    }
                },
                ClientState::SessionEstablished => {},
            }
            j = j + 1;
        }
        proof {
            assert(cs.take(n as int) =~= cs);
            if path is Short {
                assert(resolved_publish_path(cs, source.view(), *path) == Some(p));
            }
        }
        Ok(resps)
    }

    /// Process one request: handle it, and push the responses it gives to
    /// `sio_out`, in order
    ///
    /// The broker's clients change as [`request_outcome`] says. A refused
    /// request ([`request_error`]) pushes nothing; otherwise the reply, or
    /// each message of a publication, is pushed as [`request_pushes`] says,
    /// and a response that the transport refuses ends the request with
    /// `ResourcesExhausted`. Unsubscribing is not supported: such a request
    /// of a connected client is answered with `InternalError`.
    pub fn process_request<'req, SO: ServerIoOut<'req>>(
        &'req mut self,
        req: Request<'req>,
        sio_out: &mut ResponseSink<'_, 'req, SO>,
    ) -> (r: Result<(), ServerError>)
        requires
            old(self).wf(),
        ensures
            final(self).wf(),
            old(sio_out).pushes().is_prefix_of(final(sio_out).pushes()),
            request_handled(
                old(self)@,
                final(self)@,
                req.source.view(),
                req.msg,
                pushed_since(old(sio_out).pushes(), final(sio_out).pushes()),
                r,
            ),
    {
        let ghost start = sio_out.pushes();
        let ghost cs = self@;
        let source = req.source;
        match req.msg {
            Component::Control(ctrl) => {
                let reply = self.handle_control(&source, &ctrl);
                match reply {
                    Ok(Some(msg)) => {
                        let ghost m = msg;
                        let res = sio_out.push(msg);
                        proof {
                            assert(pushed_since(start, sio_out.pushes()) =~= seq![(m, res)]);
                        }
                        match res {
                            Ok(()) => Ok(()),
                            Err(_) => Err(ServerError::ResourcesExhausted),
                        }
                    },
                    Ok(None) => Ok(()),
                    Err(e) => {
                        proof {
                            assert(pushed_since(start, sio_out.pushes()) =~= Seq::<
                                (Response<'req>, Result<(), ServerIoError>),
                            >::empty());
                        }
                        Err(e)
                    },
                }
            },
            Component::PubSub(PubSub { path, ty }) => {
                match ty {
                    PubSubType::Pub { payload } => {
                        let shared: &'req Broker = self;
                        let mut resps = match shared.publish_responses(&path, payload, &source) {
                            Ok(v) => v,
                            Err(e) => {
                                proof {
                                    assert(pushed_since(start, sio_out.pushes()) =~= Seq::<
                                        (Response<'req>, Result<(), ServerIoError>),
                                    >::empty());
                                }
                                return Err(e);
                            },
                        };
                        let ghost orig = resps@;
                        let ghost mut done: Seq<(Response<'req>, Result<(), ServerIoError>)> =
                            Seq::empty();
                        let mut failed = false;
                        proof {
                            assert(start + done =~= start);
                            assert(orig.subrange(0, orig.len() as int) =~= orig);
                        }
                        while resps.len() > 0 && !failed
                            invariant
                                done.len() + resps@.len() == orig.len(),
                                resps@ == orig.subrange(done.len() as int, orig.len() as int),
                                sio_out.pushes() == start + done,
                                forall|k: int| 0 <= k < done.len() ==> (#[trigger] done[k]).0 == orig[k],
                                forall|k: int| 0 <= k < done.len() - 1 ==> (#[trigger] done[k]).1 is Ok,
                                failed <==> (done.len() > 0 && done.last().1 is Err),
                            decreases resps.len(),
                        {
                            let m = resps.remove(0);
                            let ghost gm = m;
                            proof {
                                assert(gm == orig[done.len() as int]);
                                assert(resps@ =~= orig.subrange(done.len() as int + 1, orig.len() as int));
                            }
                            let res = sio_out.push(m);
                            proof {
                                done = done.push((gm, res));
                                assert(sio_out.pushes() =~= start + done);
                            }
                            match res {
                                Ok(()) => {},
                                Err(_) => {
                                    failed = true;
                                },
                            }
                        }
                        proof {
                            assert(pushed_since(start, sio_out.pushes()) =~= done);
                            let p = resolved_publish_path(cs, source.view(), path)->Some_0;
                            let plan = publish_plan(cs, source.view(), p);
                            assert(orig.len() == plan.len()) by {
                                assert(orig.map_values(|x: Response<'req>| response_delivery(x)).len()
                                    == orig.len());
                            }
                            assert forall|k: int| 0 <= k < done.len() implies response_delivery(
                                #[trigger] done[k].0,
                            ) == plan[k] && carries_payload(done[k].0, payload@) by {
                                assert(orig.map_values(|x: Response<'req>| response_delivery(x))[k]
                                    == response_delivery(orig[k]));
                            }
                        }
                        if failed {
                            Err(ServerError::ResourcesExhausted)
                        } else {
                            Ok(())
                        }
                    },
                    PubSubType::Sub => {
                        let ack = self.handle_subscribe(&source, &path);
                        match ack {
                            Ok(msg) => {
                                let ghost m = msg;
                                let res = sio_out.push(msg);
                                proof {
                                    assert(pushed_since(start, sio_out.pushes()) =~= seq![(m, res)]);
                                }
                                match res {
                                    Ok(()) => Ok(()),
                                    Err(_) => Err(ServerError::ResourcesExhausted),
                                }
                            },
                            Err(e) => {
                                proof {
                                    assert(pushed_since(start, sio_out.pushes()) =~= Seq::<
                                        (Response<'req>, Result<(), ServerIoError>),
                                    >::empty());
                                }
                                Err(e)
                            },
                        }
                    },
                    PubSubType::Unsub => {
                        proof {
                            assert(pushed_since(start, sio_out.pushes()) =~= Seq::<
                                (Response<'req>, Result<(), ServerIoError>),
                            >::empty());
                        }
                        match self.find_client(&source) {
                            None => Err(ServerError::UnknownClient),
                            Some(i) => {
                                proof {
                                    lemma_client_index(self@, i as int);
                                }
                                match &clients_get(&self.clients, i).state {
                                    ClientState::SessionEstablished => Err(
                                        ServerError::ClientDisconnected,
                                    ),
                                    ClientState::Connected(_) => Err(ServerError::InternalError),
                                }
                            },
                        }
                    },
                }
            },
        }
    }

    /// Process a single message from a client
    ///
    /// A message from a client will be processed. If processing this message
    /// generates responses that need to be sent (e.g. a publish occurs and
    /// subscribed clients should be notified, or if the broker is responding
    /// to a request from the client), they are pushed to `sio_out`, in
    /// order, and should be sent to the appropriate clients.
    ///
    /// Requests and Responses are addressed by the Uuid registered for each client
    ///
    /// **NOTE**: If an error occurs, you probably should send a `reset_message()` to
    /// that client to force them to reconnect. You may also want to `remove_client`
    /// or `reset_client`, depending on the situation.
    ///
    /// When `sio_in` delivers nothing, nothing changes and nothing is pushed,
    /// and the result is `Ok`; when it fails, nothing changes either and the
    /// client is taken to be disconnected. The request that it delivers is
    /// handled as [`Broker::process_request`] says: the clients change, the
    /// responses are pushed and the result is given as [`request_handled`]
    /// says, for that very request.
    pub fn process_msg<'req, 's: 'req, 'me: 'req, SI: ServerIoIn, SO: ServerIoOut<'req>>(
        &'me mut self,
        sio_in: &'req mut RequestLink<'s, 'req, SI>,
        sio_out: &mut ResponseSink<'_, 'req, SO>,
    ) -> (r: Result<(), ServerError>)
        requires
            old(self).wf(),
        ensures
            final(self).wf(),
            old(sio_out).pushes().is_prefix_of(final(sio_out).pushes()),
            final(sio_in).delivered() matches Some(got) && match got {
                Ok(Some(req)) => request_handled(
                    old(self)@,
                    final(self)@,
                    req.source.view(),
                    req.msg,
                    pushed_since(old(sio_out).pushes(), final(sio_out).pushes()),
                    r,
                ),
                Ok(None) => final(self)@ == old(self)@ && final(sio_out).pushes() == old(
                    sio_out,
                ).pushes() && r is Ok,
                Err(_) => final(self)@ == old(self)@ && final(sio_out).pushes() == old(
                    sio_out,
                ).pushes() && r == Err::<(), ServerError>(ServerError::ClientDisconnected),
            },
    {
        let req = match sio_in.recv() {
            Ok(Some(req)) => req,
            Ok(None) => return Ok(()),
            Err(_) => return Err(ServerError::ClientDisconnected),
        };
        self.process_request(req, sio_out)
    }
}

/// What was appended to `before` to give `after`
pub open spec fn pushed_since<T>(before: Seq<T>, after: Seq<T>) -> Seq<T> {
    after.subrange(before.len() as int, after.len() as int)
}

/// Did the request `msg` of client `src` take the clients from `cs` to
/// `fin`, pushing `new` and answered with `r`? The clients change as
/// [`request_outcome`] says, and the responses and result are as
/// [`request_pushes`] says.
pub open spec fn request_handled(
    cs: Seq<ClientView>,
    fin: Seq<ClientView>,
    src: Seq<u8>,
    msg: Component,
    new: Seq<(Response, Result<(), ServerIoError>)>,
    r: Result<(), ServerError>,
) -> bool {
    &&& fin == request_outcome(cs, src, msg)
    &&& request_pushes(cs, src, msg, new, r)
}

/// The responses the request `msg` of client `src` hands to the
/// transport, each with the transport's answer, and the request's result
///
/// A refused request pushes nothing and is answered with its
/// [`request_error`]. A control or subscribe request pushes its one reply;
/// a publication pushes its messages in the order of [`publish_plan`] until
/// the transport refuses one. A refused push makes the result
/// `ResourcesExhausted`.
pub open spec fn request_pushes(
    cs: Seq<ClientView>,
    src: Seq<u8>,
    msg: Component,
    new: Seq<(Response, Result<(), ServerIoError>)>,
    r: Result<(), ServerError>,
) -> bool {
    match request_error(cs, src, msg) {
        Some(e) => new.len() == 0 && r == Err::<(), ServerError>(e),
        None => match msg {
            Component::Control(ctrl) => match control_outcome(cs, src, ctrl).1 {
                Ok(reply) => single_reply(new, r) && is_control_reply(new[0].0, src, ctrl.seq, reply),
                Err(_) => false,
            },
            Component::PubSub(ps) => match ps.ty {
                PubSubType::Sub => single_reply(new, r) && is_sub_ack(new[0].0, src, ps.path),
                PubSubType::Pub { payload } => match resolved_publish_path(cs, src, ps.path) {
                    Some(p) => pushes_follow(new, publish_plan(cs, src, p), payload@, r),
                    None => false,
                },
                PubSubType::Unsub => false,
            },
        },
    }
}

/// One response was pushed, and the request succeeds if and only if the
/// transport took it
pub open spec fn single_reply(
    new: Seq<(Response, Result<(), ServerIoError>)>,
    r: Result<(), ServerError>,
) -> bool {
    &&& new.len() == 1
    &&& r == if new[0].1 is Ok {
        Ok::<(), ServerError>(())
    } else {
        Err::<(), ServerError>(ServerError::ResourcesExhausted)
    }
}

/// The messages of a publication were pushed in the order of `plan`, each
/// carrying `payload`, up to and including the first one the transport
/// refused; the publication succeeds if and only if none was refused
pub open spec fn pushes_follow(
    new: Seq<(Response, Result<(), ServerIoError>)>,
    plan: Seq<(Seq<u8>, PathView)>,
    payload: Seq<u8>,
    r: Result<(), ServerError>,
) -> bool {
    &&& new.len() <= plan.len()
    &&& forall|k: int|
        0 <= k < new.len() ==> response_delivery((#[trigger] new[k]).0) == plan[k]
            && carries_payload(new[k].0, payload)
    &&& forall|k: int| 0 <= k < new.len() - 1 ==> (#[trigger] new[k]).1 is Ok
    &&& new.len() < plan.len() ==> new.len() > 0 && new.last().1 is Err
    &&& r == if new.len() > 0 && new.last().1 is Err {
        Err::<(), ServerError>(ServerError::ResourcesExhausted)
    } else {
        Ok::<(), ServerError>(())
    }
}

/// The clients after the request `msg` of client `src`
pub open spec fn request_outcome(cs: Seq<ClientView>, src: Seq<u8>, msg: Component) -> Seq<
    ClientView,
> {
    match msg {
        Component::Control(ctrl) => control_outcome(cs, src, ctrl).0,
        Component::PubSub(ps) => match ps.ty {
            PubSubType::Sub => subscribe_outcome(cs, src, ps.path.view()).0,
            _ => cs,
        },
    }
}

/// The error the request `msg` of client `src` is answered with, if any
pub open spec fn request_error(cs: Seq<ClientView>, src: Seq<u8>, msg: Component) -> Option<
    ServerError,
> {
    match msg {
        Component::Control(ctrl) => match control_outcome(cs, src, ctrl).1 {
            Err(e) => Some(e),
            Ok(_) => None,
        },
        Component::PubSub(ps) => match ps.ty {
            PubSubType::Sub => match subscribe_outcome(cs, src, ps.path.view()).1 {
                Err(e) => Some(e),
                Ok(_) => None,
            },
            PubSubType::Pub { .. } => if !has_connected_client(cs, src) {
                Some(ServerError::UnknownClient)
            } else if ps.path matches PubSubPath::Long(ManagedString::Owned(_)) {
                Some(ServerError::InternalError)
            } else if resolved_publish_path(cs, src, ps.path) is None {
                Some(ServerError::UnknownShortcode)
            } else {
                None
            },
            PubSubType::Unsub => if !has_client(cs, src) {
                Some(ServerError::UnknownClient)
            } else if cs[client_index(cs, src)].state is SessionEstablished {
                Some(ServerError::ClientDisconnected)
            } else {
                Some(ServerError::InternalError)
            },
        },
    }
}

/// A request that is answered with an error leaves the clients as they were
pub proof fn lemma_outcome_error_keeps_clients(cs: Seq<ClientView>, src: Seq<u8>, msg: Component)
    ensures
        request_error(cs, src, msg) is Some ==> request_outcome(cs, src, msg) == cs,
{
}

/// A control request never adds, removes or renames clients
pub proof fn lemma_outcome_keeps_ids_control(cs: Seq<ClientView>, src: Seq<u8>, ctrl: Control)
    ensures
        control_outcome(cs, src, ctrl).0.len() == cs.len(),
        forall|j: int|
            0 <= j < cs.len() ==> #[trigger] control_outcome(cs, src, ctrl).0[j].id == cs[j].id,
{
}

/// A subscribe request never adds, removes or renames clients
pub proof fn lemma_outcome_keeps_ids_subscribe(cs: Seq<ClientView>, src: Seq<u8>, path: PathView)
    ensures
        subscribe_outcome(cs, src, path).0.len() == cs.len(),
        forall|j: int|
            0 <= j < cs.len() ==> #[trigger] subscribe_outcome(cs, src, path).0[j].id == cs[j].id,
{
}

// =====================================================================
// Laws
// =====================================================================

/// Every delivery of a publication goes to a registered client that
/// receives it by the rules of `delivery`: a connected client, other than
/// the sender, with a subscription matching the path.
pub proof fn lemma_publish_sound(cs: Seq<ClientView>, source: Seq<u8>, path: Seq<char>)
    ensures
        forall|k: int|
            0 <= k < publish_plan(cs, source, path).len() ==> exists|i: int|
                0 <= i < cs.len() && cs[i].id == (#[trigger] publish_plan(cs, source, path)[k]).0
                    && delivery(cs[i], source, path) == Some(publish_plan(cs, source, path)[k].1),
    decreases cs.len(),
{
    if cs.len() > 0 {
        let rest = cs.drop_last();
        lemma_publish_sound(rest, source, path);
        let pr = publish_plan(rest, source, path);
        let pl = publish_plan(cs, source, path);
        assert forall|k: int| 0 <= k < pl.len() implies exists|i: int|
            0 <= i < cs.len() && cs[i].id == (#[trigger] pl[k]).0 && delivery(cs[i], source, path)
                == Some(pl[k].1) by {
            if k < pr.len() {
                assert(pl[k] == pr[k]);
                let i = choose|i: int|
                    0 <= i < rest.len() && rest[i].id == pr[k].0 && delivery(rest[i], source, path)
                        == Some(pr[k].1);
                assert(cs[i] == rest[i]);
            } else {
                assert(cs[cs.len() - 1] == cs.last());
            }
        }
    }
}

/// A published message is never sent back to its sender, and reaches only
/// connected clients with a matching subscription.
pub proof fn lemma_publish_not_to_sender(cs: Seq<ClientView>, source: Seq<u8>, path: Seq<char>)
    ensures
        forall|k: int|
            0 <= k < publish_plan(cs, source, path).len() ==> (#[trigger] publish_plan(
                cs,
                source,
                path,
            )[k]).0 != source,
        forall|k: int|
            0 <= k < publish_plan(cs, source, path).len() ==> has_connected_client(
                cs,
                (#[trigger] publish_plan(cs, source, path)[k]).0,
            ),
{
    lemma_publish_sound(cs, source, path);
    let pl = publish_plan(cs, source, path);
    assert forall|k: int| 0 <= k < pl.len() implies (#[trigger] pl[k]).0 != source
        && has_connected_client(cs, pl[k].0) by {
        let i = choose|i: int|
            0 <= i < cs.len() && cs[i].id == pl[k].0 && delivery(cs[i], source, path) == Some(pl[k].1);
        assert(cs[i].state is Connected);
    }
}

/// Every connected client, other than the sender, whose subscriptions match
/// the path receives the publication.
pub proof fn lemma_publish_complete(cs: Seq<ClientView>, source: Seq<u8>, path: Seq<char>)
    ensures
        forall|i: int|
            0 <= i < cs.len() && (#[trigger] delivery(cs[i], source, path)) is Some ==> publish_plan(
                cs,
                source,
                path,
            ).contains((cs[i].id, delivery(cs[i], source, path)->Some_0)),
    decreases cs.len(),
{
    if cs.len() > 0 {
        let rest = cs.drop_last();
        lemma_publish_complete(rest, source, path);
        let pr = publish_plan(rest, source, path);
        let pl = publish_plan(cs, source, path);
        assert forall|i: int|
            0 <= i < cs.len() && (#[trigger] delivery(cs[i], source, path)) is Some implies pl.contains(
            (cs[i].id, delivery(cs[i], source, path)->Some_0),
        ) by {
            if i < rest.len() {
                assert(rest[i] == cs[i]);
                assert(delivery(rest[i], source, path) is Some);
                let x = (cs[i].id, delivery(cs[i], source, path)->Some_0);
                assert(pr.contains(x));
                let k = choose|k: int| 0 <= k < pr.len() && pr[k] == x;
                assert(pl[k] == x);
            } else {
                assert(cs.last() == cs[i]);
                assert(pl[pl.len() - 1] == (cs[i].id, delivery(cs[i], source, path)->Some_0));
            }
        }
    }
}

/// With unique client ids, a publication reaches each client at most once.
pub proof fn lemma_publish_once_per_client(cs: Seq<ClientView>, source: Seq<u8>, path: Seq<char>)
    requires
        unique_ids(cs),
    ensures
        forall|a: int, b: int|
            0 <= a < b < publish_plan(cs, source, path).len() ==> (#[trigger] publish_plan(
                cs,
                source,
                path,
            )[a]).0 != (#[trigger] publish_plan(cs, source, path)[b]).0,
    decreases cs.len(),
{
    if cs.len() > 0 {
        let rest = cs.drop_last();
        assert(unique_ids(rest));
        lemma_publish_once_per_client(rest, source, path);
        lemma_publish_sound(rest, source, path);
        let pr = publish_plan(rest, source, path);
        let pl = publish_plan(cs, source, path);
        assert forall|a: int, b: int| 0 <= a < b < pl.len() implies (#[trigger] pl[a]).0 != (
        #[trigger] pl[b]).0 by {
            if b < pr.len() {
                assert(pl[a] == pr[a] && pl[b] == pr[b]);
            } else {
                assert(pl[a] == pr[a]);
                let i = choose|i: int|
                    0 <= i < rest.len() && rest[i].id == pr[a].0 && delivery(rest[i], source, path)
                        == Some(pr[a].1);
                assert(cs[i] == rest[i]);
                assert(pl[b].0 == cs[cs.len() - 1].id);
            }
        }
    }
}

/// Subscribing twice to the same path leaves the broker as subscribing once.
pub proof fn lemma_subscribe_idempotent(cs: Seq<ClientView>, src: Seq<u8>, path: PathView)
    requires
        clients_wf(cs),
        subscribe_outcome(cs, src, path).1 is Ok,
    ensures
        subscribe_outcome(subscribe_outcome(cs, src, path).0, src, path).1 is Ok,
        subscribe_outcome(subscribe_outcome(cs, src, path).0, src, path).0 == subscribe_outcome(
            cs,
            src,
            path,
        ).0,
{
    let i = client_index(cs, src);
    let once = subscribe_outcome(cs, src, path).0;
    assert(once[i].id == src);
    let j = client_index(once, src);
    assert(once[j].id == src);
    assert(j == i) by {
        assert(cs[j].id == once[j].id);
        assert(cs[i].id == cs[j].id);
    }
    match cs[i].state {
        ClientStateView::Connected { name, version, subscriptions, shortcuts } => {
            let target = match path {
                PathView::Long(p) => Some(p),
                PathView::Short(sid) => long_for_short(shortcuts, sid),
            };
            let p = target->Some_0;
            if !subscriptions.contains(p) {
                assert(once[i].state == ClientStateView::Connected {
                    name,
                    version,
                    subscriptions: subscriptions.push(p),
                    shortcuts,
                });
                assert(subscriptions.push(p)[subscriptions.len() as int] == p);
            }
        },
        ClientStateView::SessionEstablished => {},
    }
}

/// Registering the same short code twice leaves the broker as registering
/// it once, and both are acknowledged alike.
pub proof fn lemma_short_registration_idempotent(cs: Seq<ClientView>, src: Seq<u8>, ctrl: Control)
    requires
        clients_wf(cs),
        ctrl.ty is RegisterPubSubShortId,
        control_outcome(cs, src, ctrl).1 is Ok,
    ensures
        control_outcome(control_outcome(cs, src, ctrl).0, src, ctrl).0 == control_outcome(
            cs,
            src,
            ctrl,
        ).0,
        control_outcome(control_outcome(cs, src, ctrl).0, src, ctrl).1 == control_outcome(
            cs,
            src,
            ctrl,
        ).1,
{
    let i = client_index(cs, src);
    let once = control_outcome(cs, src, ctrl).0;
    assert(once[i].id == src);
    let j = client_index(once, src);
    assert(once[j].id == src);
    assert(j == i) by {
        assert(cs[j].id == once[j].id);
        assert(cs[i].id == cs[j].id);
    }
    match ctrl.ty {
        ControlType::RegisterPubSubShortId(ps) => {
            match cs[i].state {
                ClientStateView::Connected { name, version, subscriptions, shortcuts } => {
                    let sc = ShortcutView { long: ps.long_name@, short: ps.short_id };
                    if !has_wildcard(ps.long_name@) && !shortcuts.contains(sc) {
                        assert(shortcuts.push(sc)[shortcuts.len() as int] == sc);
                    }
                },
                ClientStateView::SessionEstablished => {},
            }
        },
        _ => {},
    }
}

/// Removing a client leaves no client with its id, and keeps every other
/// client.
pub proof fn lemma_remove_keeps_others(cs: Seq<ClientView>, i: int)
    requires
        unique_ids(cs),
        0 <= i < cs.len(),
    ensures
        !has_client(cs.update(i, cs.last()).drop_last(), cs[i].id),
        forall|j: int|
            0 <= j < cs.len() && j != i ==> cs.update(i, cs.last()).drop_last().contains(
                #[trigger] cs[j],
            ),
{
    let after = cs.update(i, cs.last()).drop_last();
    assert forall|j: int| 0 <= j < cs.len() && j != i implies after.contains(#[trigger] cs[j]) by {
        if j == cs.len() - 1 {
            assert(after[i] == cs[j]);
        } else {
            assert(after[j] == cs[j]);
        }
    }
    if has_client(after, cs[i].id) {
        let k = choose|k: int| 0 <= k < after.len() && after[k].id == cs[i].id;
        if k == i {
            assert(cs[cs.len() - 1].id == cs[i].id);
        } else {
            assert(cs[k].id == cs[i].id);
        }
    }
}

/// Registering a component drops every subscription and shortcut the client
/// held before.
pub proof fn lemma_registration_resets(cs: Seq<ClientView>, src: Seq<u8>, ctrl: Control)
    requires
        clients_wf(cs),
        ctrl.ty is RegisterComponent,
        control_outcome(cs, src, ctrl).1 is Ok,
    ensures
        control_outcome(cs, src, ctrl).0[client_index(cs, src)].state matches ClientStateView::Connected {
            subscriptions,
            shortcuts,
            ..
        } && subscriptions.len() == 0 && shortcuts.len() == 0,
{
    let i = client_index(cs, src);
    assert(cs[i].id == src);
}


/// A request hands responses only to its own sender or to other connected
/// clients: a removed client, or a reset one that has not registered its
/// component again, gets nothing from another client's request.
pub proof fn lemma_pushes_reach_connected(
    cs: Seq<ClientView>,
    src: Seq<u8>,
    msg: Component,
    new: Seq<(Response, Result<(), ServerIoError>)>,
    r: Result<(), ServerError>,
)
    requires
        request_pushes(cs, src, msg, new, r),
    ensures
        forall|k: int|
            0 <= k < new.len() ==> ((#[trigger] new[k]).0.dest.view() == src && has_client(cs, src))
                || (new[k].0.dest.view() != src && has_connected_client(cs, new[k].0.dest.view())),
{
    if let Component::PubSub(ps) = msg {
        if let PubSubType::Pub { payload } = ps.ty {
            if request_error(cs, src, msg) is None {
                let p = resolved_publish_path(cs, src, ps.path)->Some_0;
                lemma_publish_not_to_sender(cs, src, p);
                let plan = publish_plan(cs, src, p);
                assert forall|k: int| 0 <= k < new.len() implies (new[k].0.dest.view() != src
                    && has_connected_client(cs, (#[trigger] new[k]).0.dest.view())) by {
                    assert(response_delivery(new[k].0) == plan[k]);
                    assert(plan[k].0 == new[k].0.dest.view());
                }
            }
        }
    }
}

/// The short code `short_for_long` finds for a path is one that a shortcut
/// holds for exactly that path, the first one; where it finds none, no
/// shortcut is for that path.
pub proof fn lemma_short_for_long(s: Seq<ShortcutView>, path: Seq<char>)
    ensures
        short_for_long(s, path) matches Some(x) ==> exists|k: int|
            0 <= k < s.len() && #[trigger] s[k] == (ShortcutView { long: path, short: x })
                && forall|j: int| 0 <= j < k ==> (#[trigger] s[j]).long != path,
        short_for_long(s, path) is None ==> forall|k: int| 0 <= k < s.len() ==> (#[trigger] s[k]).long
            != path,
    decreases s.len(),
{
    if s.len() > 0 {
        let t = s.drop_first();
        lemma_short_for_long(t, path);
        if s[0].long != path {
            if let Some(x) = short_for_long(s, path) {
                let k = choose|k: int|
                    0 <= k < t.len() && #[trigger] t[k] == (ShortcutView { long: path, short: x })
                        && forall|j: int| 0 <= j < k ==> (#[trigger] t[j]).long != path;
                assert(s[k + 1] == t[k]);
                assert forall|j: int| 0 <= j < k + 1 implies (#[trigger] s[j]).long != path by {
                    if j > 0 {
                        assert(s[j] == t[j - 1]);
                    }
                }
            } else {
                assert forall|k: int| 0 <= k < s.len() implies (#[trigger] s[k]).long != path by {
                    if k > 0 {
                        assert(s[k] == t[k - 1]);
                    }
                }
            }
        } else {
            assert(s[0] == (ShortcutView { long: path, short: s[0].short }));
        }
    }
}

/// The long path `long_for_short` finds for a short code is the one of the
/// first shortcut with that code; where it finds none, no shortcut has it.
pub proof fn lemma_long_for_short(s: Seq<ShortcutView>, sid: u16)
    ensures
        long_for_short(s, sid) matches Some(l) ==> exists|k: int|
            0 <= k < s.len() && #[trigger] s[k] == (ShortcutView { long: l, short: sid })
                && forall|j: int| 0 <= j < k ==> (#[trigger] s[j]).short != sid,
        long_for_short(s, sid) is None ==> forall|k: int| 0 <= k < s.len() ==> (#[trigger] s[k]).short
            != sid,
    decreases s.len(),
{
    if s.len() > 0 {
        let t = s.drop_first();
        lemma_long_for_short(t, sid);
        if s[0].short != sid {
            if let Some(l) = long_for_short(s, sid) {
                let k = choose|k: int|
                    0 <= k < t.len() && #[trigger] t[k] == (ShortcutView { long: l, short: sid })
                        && forall|j: int| 0 <= j < k ==> (#[trigger] t[j]).short != sid;
                assert(s[k + 1] == t[k]);
                assert forall|j: int| 0 <= j < k + 1 implies (#[trigger] s[j]).short != sid by {
                    if j > 0 {
                        assert(s[j] == t[j - 1]);
                    }
                }
            } else {
                assert forall|k: int| 0 <= k < s.len() implies (#[trigger] s[k]).short != sid by {
                    if k > 0 {
                        assert(s[k] == t[k - 1]);
                    }
                }
            }
        } else {
            assert(s[0] == (ShortcutView { long: s[0].long, short: sid }));
        }
    }
}

/// Who receives a publication on `path` by `source`, and how: a client
/// receives it exactly when it is connected, is not the sender, and any
/// one of its subscriptions matches the path; it receives it by a short
/// code it registered for exactly that path, else by the path itself.
pub proof fn lemma_delivery_rule(c: ClientView, source: Seq<u8>, path: Seq<char>)
    ensures
        delivery(c, source, path) is Some <==> (c.id != source && (c.state matches ClientStateView::Connected {
            subscriptions,
            ..
        } && exists|k: int| 0 <= k < subscriptions.len() && topic_matches(#[trigger] subscriptions[k], path))),
        delivery(c, source, path) matches Some(PathView::Short(x)) ==> (c.state matches ClientStateView::Connected {
            shortcuts,
            ..
        } && exists|k: int|
            0 <= k < shortcuts.len() && #[trigger] shortcuts[k] == (ShortcutView { long: path, short: x })),
        delivery(c, source, path) matches Some(PathView::Long(q)) ==> (q == path && (c.state matches ClientStateView::Connected {
            shortcuts,
            ..
        } && forall|k: int| 0 <= k < shortcuts.len() ==> (#[trigger] shortcuts[k]).long != path)),
{
    if let ClientStateView::Connected { subscriptions, shortcuts, .. } = c.state {
        lemma_short_for_long(shortcuts, path);
    }
}

/// Every connected client other than the sender with a subscription that
/// matches the path is among those a publication is delivered to.
pub proof fn lemma_publication_reaches_subscriber(
    cs: Seq<ClientView>,
    source: Seq<u8>,
    path: Seq<char>,
    i: int,
    k: int,
)
    requires
        0 <= i < cs.len(),
        cs[i].id != source,
        cs[i].state matches ClientStateView::Connected { subscriptions, .. } && 0 <= k
            < subscriptions.len() && topic_matches(subscriptions[k], path),
    ensures
        exists|j: int|
            0 <= j < publish_plan(cs, source, path).len() && (#[trigger] publish_plan(
                cs,
                source,
                path,
            )[j]).0 == cs[i].id,
{
    lemma_delivery_rule(cs[i], source, path);
    lemma_publish_complete(cs, source, path);
    let x = (cs[i].id, delivery(cs[i], source, path)->Some_0);
    assert(publish_plan(cs, source, path).contains(x));
}

/// Does the client hold the shortcut `sc`?
pub open spec fn holds_shortcut(c: ClientView, sc: ShortcutView) -> bool {
    c.state matches ClientStateView::Connected { shortcuts, .. } && shortcuts.contains(sc)
}

/// A short code registration whose long path holds a wildcard ('+' or
/// '#') of a connected client is answered `NoWildcardsInShorts` and
/// changes nothing.
pub proof fn lemma_wildcard_short_code_refused(cs: Seq<ClientView>, src: Seq<u8>, ctrl: Control)
    requires
        clients_wf(cs),
        has_connected_client(cs, src),
        ctrl.ty matches ControlType::RegisterPubSubShortId(ps) && (ps.long_name@.contains('+')
            || ps.long_name@.contains('#')),
    ensures
        control_outcome(cs, src, ctrl) == (cs, Ok::<ControlReply, ServerError>(ControlReply::NoWildcards)),
{
    let i = choose|i: int| 0 <= i < cs.len() && cs[i].id == src && cs[i].state is Connected;
    lemma_client_index(cs, i);
}

/// No request makes a client hold a shortcut whose long path holds a
/// wildcard ('+' or '#') that it did not hold before: since a new broker
/// holds no shortcuts, no stored shortcut ever names a wildcard path.
pub proof fn lemma_no_wildcard_shortcut_added(cs: Seq<ClientView>, src: Seq<u8>, msg: Component)
    requires
        unique_ids(cs),
    ensures
        request_outcome(cs, src, msg).len() == cs.len(),
        forall|i: int, sc: ShortcutView|
            0 <= i < cs.len() && #[trigger] holds_shortcut(request_outcome(cs, src, msg)[i], sc)
                && (sc.long.contains('+') || sc.long.contains('#')) ==> holds_shortcut(cs[i], sc),
{
    let out = request_outcome(cs, src, msg);
    assert forall|i: int, sc: ShortcutView|
        0 <= i < cs.len() && #[trigger] holds_shortcut(out[i], sc) && (sc.long.contains('+')
            || sc.long.contains('#')) implies holds_shortcut(cs[i], sc) by {
        if out[i] != cs[i] {
            lemma_client_index(cs, i);
            assert(cs[i].id == src);
            assert(client_index(cs, src) == i);
            match msg {
                Component::Control(ctrl) => match ctrl.ty {
                    ControlType::RegisterComponent(info) => {
                        assert(out[i].state matches ClientStateView::Connected { shortcuts, .. }
                            && shortcuts.len() == 0);
                    },
                    ControlType::RegisterPubSubShortId(ps) => {
                        let new_sc = ShortcutView { long: ps.long_name@, short: ps.short_id };
                        if let ClientStateView::Connected { shortcuts, .. } = cs[i].state {
                            assert(!has_wildcard(ps.long_name@));
                            if let ClientStateView::Connected { shortcuts: ns, .. } = out[i].state {
                                assert(ns == shortcuts.push(new_sc));
                                let k = choose|k: int| 0 <= k < ns.len() && ns[k] == sc;
                                if k < shortcuts.len() {
                                    assert(shortcuts[k] == sc);
                                } else {
                                    assert(sc == new_sc);
                                }
                            }
                        }
                    },
                },
                Component::PubSub(ps) => {
                    if let ClientStateView::Connected { shortcuts, .. } = cs[i].state {
                        assert(out[i].state matches ClientStateView::Connected { shortcuts: ns, .. }
                            && ns == shortcuts);
                    }
                },
            }
        }
    }
}

} // verus!
