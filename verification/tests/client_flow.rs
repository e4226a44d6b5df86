use anachro::client::{
    received_message, table_path, table_variant, Client, ClientIo, ClientLink, ClientIoError, Error, OutKind, Table,
    TableError, TableVariant, PUBLISH_SHORTCODE_OFFSET,
};
use anachro::icd::arbitrator::{
    Arbitrator, Control as AControl, ControlError, ControlResponse, PubSubResponse, SubMsg,
};
use anachro::icd::component::{
    Component, ComponentInfo, Control as CControl, ControlType, PubSub, PubSubShort, PubSubType,
};
use anachro::icd::{ManagedString, PubSubPath, Uuid, Version};
use anachro::server::{Broker, Request, RequestLink, Response, ResponseSink, ServerIoError, ServerIoIn, ServerIoOut};
use std::collections::VecDeque;

fn leak_str(s: &str) -> &'static str {
    Box::leak(s.to_string().into_boxed_str())
}

fn leak_bytes(b: &[u8]) -> &'static [u8] {
    Box::leak(b.to_vec().into_boxed_slice())
}

fn static_path(p: &PubSubPath) -> PubSubPath<'static> {
    match p {
        PubSubPath::Short(s) => PubSubPath::Short(*s),
        PubSubPath::Long(m) => PubSubPath::Long(ManagedString::Borrow(leak_str(m.as_str()))),
    }
}

fn static_component(c: &Component) -> Component<'static> {
    match c {
        Component::Control(ctl) => Component::Control(CControl {
            seq: ctl.seq,
            ty: match &ctl.ty {
                ControlType::RegisterComponent(info) => {
                    ControlType::RegisterComponent(ComponentInfo {
                        name: ManagedString::Borrow(leak_str(info.name.as_str())),
                        version: info.version,
                    })
                }
                ControlType::RegisterPubSubShortId(ps) => {
                    ControlType::RegisterPubSubShortId(PubSubShort {
                        long_name: leak_str(ps.long_name),
                        short_id: ps.short_id,
                    })
                }
            },
        }),
        Component::PubSub(ps) => Component::PubSub(PubSub {
            path: static_path(&ps.path),
            ty: match &ps.ty {
                PubSubType::Pub { payload } => PubSubType::Pub { payload: leak_bytes(payload) },
                PubSubType::Sub => PubSubType::Sub,
                PubSubType::Unsub => PubSubType::Unsub,
            },
        }),
    }
}

fn static_arbitrator(a: &Arbitrator) -> Arbitrator<'static> {
    match a {
        Arbitrator::Control(c) => Arbitrator::Control(AControl {
            seq: c.seq,
            response: match &c.response {
                Ok(ControlResponse::ComponentRegistration(u)) => {
                    Ok(ControlResponse::ComponentRegistration(*u))
                }
                Ok(ControlResponse::PubSubShortRegistration(s)) => {
                    Ok(ControlResponse::PubSubShortRegistration(*s))
                }
                Err(ControlError::NoWildcardsInShorts) => Err(ControlError::NoWildcardsInShorts),
                Err(ControlError::ResetConnection) => Err(ControlError::ResetConnection),
            },
        }),
        Arbitrator::PubSub(Ok(PubSubResponse::SubAck { path })) => {
            Arbitrator::PubSub(Ok(PubSubResponse::SubAck { path: static_path(path) }))
        }
        Arbitrator::PubSub(Ok(PubSubResponse::SubMsg(sm))) => {
            Arbitrator::PubSub(Ok(PubSubResponse::SubMsg(SubMsg {
                path: static_path(&sm.path),
                payload: leak_bytes(sm.payload),
            })))
        }
        Arbitrator::PubSub(Err(_)) => panic!("no pub/sub error exists"),
        Arbitrator::ObjStore => Arbitrator::ObjStore,
        Arbitrator::Mailbox => Arbitrator::Mailbox,
    }
}

/// A ClientIo over two in-memory queues
struct MockIo {
    incoming: VecDeque<Arbitrator<'static>>,
    sent: Vec<Component<'static>>,
    fail_send: bool,
}

impl MockIo {
    fn new() -> Self {
        MockIo { incoming: VecDeque::new(), sent: Vec::new(), fail_send: false }
    }
}

impl ClientIo for MockIo {
    fn recv(&mut self) -> Result<Option<Arbitrator>, ClientIoError> {
        Ok(self.incoming.pop_front())
    }

    fn send(&mut self, msg: &Component) -> Result<(), ClientIoError> {
        if self.fail_send {
            return Err(ClientIoError::OutputFull);
        }
        self.sent.push(static_component(msg));
        Ok(())
    }
}

/// A table that decodes a publication as its first payload byte
#[derive(Debug, PartialEq)]
struct Demo(u8);

const SUBS: &[&str] = &["sensor/temp"];
const PUBS: &[&str] = &["sensor/cmd"];

impl Table for Demo {
    fn sub_paths() -> &'static [&'static str] {
        SUBS
    }

    fn pub_paths() -> &'static [&'static str] {
        PUBS
    }

    fn from_pub_sub<'a>(msg: &'a SubMsg<'a>) -> Result<Self, TableError> {
        match msg.payload.first() {
            Some(b) => Ok(Demo(*b)),
            None => Err(TableError::NoMatch),
        }
    }
}

struct InQ(Option<Request<'static>>);

impl ServerIoIn for InQ {
    fn recv<'a, 'b: 'a>(&'b mut self) -> Result<Option<Request<'b>>, ServerIoError> {
        Ok(self.0.take())
    }
}

struct OutQ(Vec<(Uuid, Arbitrator<'static>)>);

impl<'resp> ServerIoOut<'resp> for OutQ {
    fn push_response(&mut self, resp: Response<'resp>) -> Result<(), ServerIoError> {
        self.0.push((resp.dest, static_arbitrator(&resp.msg)));
        Ok(())
    }
}

fn version() -> Version {
    Version { major: 0, minor: 1, trivial: 0, misc: 123 }
}

/// Run one client step, hand what it sent to the broker, and hand the
/// broker's answers to the clients they are addressed to
fn pump(
    broker: &mut Broker,
    clients: &mut [(Uuid, &mut Client, &mut MockIo)],
    who: usize,
) -> Result<Option<Demo>, Error> {
    let r = {
        let (_, client, io) = &mut clients[who];
        client.process_one::<MockIo, Demo>(&mut ClientLink::new(&mut **io))
    };
    let source = clients[who].0;
    let sent: Vec<Component<'static>> = clients[who].2.sent.drain(..).collect();
    for msg in sent {
        let mut inq = InQ(Some(Request { source, msg }));
        let mut outq = OutQ(Vec::new());
        broker.process_msg(&mut RequestLink::new(&mut inq), &mut ResponseSink::new(&mut outq)).unwrap();
        for (dest, resp) in outq.0 {
            for (id, _, io) in clients.iter_mut() {
                if *id == dest {
                    io.incoming.push_back(static_arbitrator(&resp));
                }
            }
        }
    }
    r.map(|o| o.map(|m| m.payload))
}

#[test]
fn new_client_is_not_connected() {
    let client = Client::new("cool-board", version(), 0, SUBS, PUBS, Some(10));
    assert!(!client.is_connected());
    assert!(client.get_id().is_none());
    let mut io = MockIo::new();
    assert_eq!(client.publish(&mut ClientLink::new(&mut io), "sensor/cmd", &[1]), Err(Error::NotActive));
    assert!(io.sent.is_empty());
}

#[test]
fn handshake_with_broker_then_publish() {
    let mut broker = Broker::new();
    let id_a = Uuid::from_bytes([1u8; 16]);
    let id_b = Uuid::from_bytes([2u8; 16]);
    broker.register_client(&id_a).unwrap();
    broker.register_client(&id_b).unwrap();

    let mut a = Client::new("listener", version(), 0, SUBS, &[], Some(10));
    let mut b = Client::new("talker", version(), 100, &[], &["sensor/temp"], Some(10));
    let mut io_a = MockIo::new();
    let mut io_b = MockIo::new();

    {
        let mut clients = [(id_a, &mut a, &mut io_a), (id_b, &mut b, &mut io_b)];
        for _ in 0..20 {
            pump(&mut broker, &mut clients, 0).unwrap();
            pump(&mut broker, &mut clients, 1).unwrap();
        }
    }
    assert!(a.is_connected());
    assert!(b.is_connected());
    assert_eq!(a.get_id(), Some(&id_a));
    assert_eq!(b.get_id(), Some(&id_b));

    // The talker publishes by its short code
    let msg = b.publish_message("sensor/temp", &[42]).unwrap();
    match msg {
        Component::PubSub(PubSub { path: PubSubPath::Short(sid), .. }) => {
            assert_eq!(sid, PUBLISH_SHORTCODE_OFFSET)
        }
        _ => panic!("expected a short code"),
    }
    b.publish(&mut ClientLink::new(&mut io_b), "sensor/temp", &[42]).unwrap();

    let mut clients = [(id_a, &mut a, &mut io_a), (id_b, &mut b, &mut io_b)];
    // Deliver the publication to the broker, then let the listener read it
    let _ = pump(&mut broker, &mut clients, 1);
    let got = pump(&mut broker, &mut clients, 0).unwrap();
    assert_eq!(got, Some(Demo(42)));
}

#[test]
fn registration_sequence_and_timeouts() {
    let mut client = Client::new("dev", version(), 7, SUBS, PUBS, Some(2));
    let mut io = MockIo::new();

    // Disconnected: registers under seq 8
    assert!(client.process_one::<MockIo, Demo>(&mut ClientLink::new(&mut io)).unwrap().is_none());
    assert_eq!(io.sent.len(), 1);
    match &io.sent[0] {
        Component::Control(c) => {
            assert_eq!(c.seq, 8);
            assert!(matches!(&c.ty, ControlType::RegisterComponent(info) if info.name.as_str() == "dev"));
        }
        _ => panic!("expected a registration"),
    }

    // Nothing arrives: one tick, then a timeout sends us back to Disconnected
    client.process_one::<MockIo, Demo>(&mut ClientLink::new(&mut io)).unwrap();
    client.process_one::<MockIo, Demo>(&mut ClientLink::new(&mut io)).unwrap();
    assert_eq!(io.sent.len(), 1);
    // Disconnected again: registers under seq 9
    client.process_one::<MockIo, Demo>(&mut ClientLink::new(&mut io)).unwrap();
    assert_eq!(io.sent.len(), 2);
    assert!(matches!(&io.sent[1], Component::Control(c) if c.seq == 9));

    // An answer under another sequence number is refused
    io.incoming.push_back(Arbitrator::Control(AControl {
        seq: 8,
        response: Ok(ControlResponse::ComponentRegistration(Uuid::from_bytes([3; 16]))),
    }));
    assert_eq!(client.process_one::<MockIo, Demo>(&mut ClientLink::new(&mut io)).unwrap_err(), Error::UnexpectedMessage);

    // The right answer registers the client, which then subscribes
    io.incoming.push_back(Arbitrator::Control(AControl {
        seq: 9,
        response: Ok(ControlResponse::ComponentRegistration(Uuid::from_bytes([3; 16]))),
    }));
    client.process_one::<MockIo, Demo>(&mut ClientLink::new(&mut io)).unwrap();
    assert!(!client.is_connected());
    client.process_one::<MockIo, Demo>(&mut ClientLink::new(&mut io)).unwrap();
    assert_eq!(io.sent.len(), 3);
    match &io.sent[2] {
        Component::PubSub(ps) => {
            assert_eq!(ps.ty, PubSubType::Sub);
            assert!(matches!(&ps.path, PubSubPath::Long(p) if p.as_str() == "sensor/temp"));
        }
        _ => panic!("expected a subscription"),
    }

    // No answer to the subscription: after two ticks it is sent again
    client.process_one::<MockIo, Demo>(&mut ClientLink::new(&mut io)).unwrap();
    client.process_one::<MockIo, Demo>(&mut ClientLink::new(&mut io)).unwrap();
    assert_eq!(io.sent.len(), 4);
    assert!(matches!(&io.sent[3], Component::PubSub(ps) if ps.ty == PubSubType::Sub));
}

#[test]
fn failed_send_is_reported_and_retried() {
    let mut client = Client::new("dev", version(), 0, &[], &[], None);
    let mut io = MockIo::new();
    io.fail_send = true;
    assert_eq!(
        client.process_one::<MockIo, Demo>(&mut ClientLink::new(&mut io)).unwrap_err(),
        Error::ClientIoError(ClientIoError::OutputFull)
    );
    io.fail_send = false;
    client.process_one::<MockIo, Demo>(&mut ClientLink::new(&mut io)).unwrap();
    // The counter moved on with the failed attempt
    assert!(matches!(&io.sent[0], Component::Control(c) if c.seq == 2));
}

#[test]
fn connect_without_paths_and_reset() {
    let mut client = Client::new("dev", version(), 0, &[], &[], None);
    let mut io = MockIo::new();
    client.process_one::<MockIo, Demo>(&mut ClientLink::new(&mut io)).unwrap();
    io.incoming.push_back(Arbitrator::Control(AControl {
        seq: 1,
        response: Ok(ControlResponse::ComponentRegistration(Uuid::from_bytes([9; 16]))),
    }));
    client.process_one::<MockIo, Demo>(&mut ClientLink::new(&mut io)).unwrap(); // Registered
    client.process_one::<MockIo, Demo>(&mut ClientLink::new(&mut io)).unwrap(); // Subscribed
    client.process_one::<MockIo, Demo>(&mut ClientLink::new(&mut io)).unwrap(); // Active
    assert!(client.is_connected());
    assert_eq!(client.get_id(), Some(&Uuid::from_bytes([9; 16])));

    // Long path publication when no short code was registered
    let msg = client.publish_message("any/where", &[1, 2]).unwrap();
    match msg {
        Component::PubSub(PubSub { path: PubSubPath::Long(p), ty }) => {
            assert_eq!(p.as_str(), "any/where");
            assert_eq!(ty, PubSubType::Pub { payload: &[1, 2] });
        }
        _ => panic!("expected a long path"),
    }

    client.reset_connection();
    assert!(!client.is_connected());
    client.process_one::<MockIo, Demo>(&mut ClientLink::new(&mut io)).unwrap();
    assert!(matches!(&io.sent[1], Component::Control(c) if c.seq == 2));
}

#[test]
fn decisions_and_messages() {
    let mut client = Client::new("dev", version(), 0, SUBS, PUBS, None);
    let out = client.handle_message(None).unwrap().unwrap();
    assert_eq!(out.kind, OutKind::Register);
    let msg = client.message_for(OutKind::ShortPub(0));
    match msg {
        Component::Control(c) => match c.ty {
            ControlType::RegisterPubSubShortId(ps) => {
                assert_eq!(ps.long_name, "sensor/cmd");
                assert_eq!(ps.short_id, 0x8000);
            }
            _ => panic!("expected a short code"),
        },
        _ => panic!("expected a control message"),
    }
    client.message_sent(out);
    assert!(!client.is_connected());
}

#[test]
fn receiving_publications() {
    let mut client = Client::new("dev", version(), 0, SUBS, PUBS, None);
    let mut io = MockIo::new();
    client.process_one::<MockIo, Demo>(&mut ClientLink::new(&mut io)).unwrap();
    io.incoming.push_back(Arbitrator::Control(AControl {
        seq: 1,
        response: Ok(ControlResponse::ComponentRegistration(Uuid::from_bytes([5; 16]))),
    }));
    client.process_one::<MockIo, Demo>(&mut ClientLink::new(&mut io)).unwrap();
    client.process_one::<MockIo, Demo>(&mut ClientLink::new(&mut io)).unwrap(); // sends Sub
    io.incoming.push_back(Arbitrator::PubSub(Ok(PubSubResponse::SubAck {
        path: PubSubPath::Long(ManagedString::Borrow("sensor/temp")),
    })));
    client.process_one::<MockIo, Demo>(&mut ClientLink::new(&mut io)).unwrap(); // Subscribed
    client.process_one::<MockIo, Demo>(&mut ClientLink::new(&mut io)).unwrap(); // sends ShortSub(0), seq 2
    io.incoming.push_back(Arbitrator::Control(AControl {
        seq: 2,
        response: Ok(ControlResponse::PubSubShortRegistration(0)),
    }));
    client.process_one::<MockIo, Demo>(&mut ClientLink::new(&mut io)).unwrap(); // sends ShortPub(0), seq 3
    io.incoming.push_back(Arbitrator::Control(AControl {
        seq: 3,
        response: Ok(ControlResponse::PubSubShortRegistration(0x8000)),
    }));
    client.process_one::<MockIo, Demo>(&mut ClientLink::new(&mut io)).unwrap();
    assert!(client.is_connected());

    let by_short = Arbitrator::PubSub(Ok(PubSubResponse::SubMsg(SubMsg {
        path: PubSubPath::Short(0),
        payload: &[7],
    })));
    let got = client.receive_published::<Demo>(Some(&by_short)).unwrap().unwrap();
    assert_eq!(got.payload, Demo(7));
    assert_eq!(got.path.as_str(), "sensor/temp");
    assert!(matches!(got.path, ManagedString::Borrow(_)));

    let by_long = Arbitrator::PubSub(Ok(PubSubResponse::SubMsg(SubMsg {
        path: PubSubPath::Long(ManagedString::Borrow("sensor/other")),
        payload: &[8],
    })));
    let got = client.receive_published::<Demo>(Some(&by_long)).unwrap().unwrap();
    assert_eq!(got.path.as_str(), "sensor/other");
    assert!(matches!(got.path, ManagedString::Owned(_)));

    let unknown_short = Arbitrator::PubSub(Ok(PubSubResponse::SubMsg(SubMsg {
        path: PubSubPath::Short(5),
        payload: &[8],
    })));
    assert_eq!(
        client.receive_published::<Demo>(Some(&unknown_short)).err(),
        Some(Error::UnexpectedMessage)
    );
    let empty = Arbitrator::PubSub(Ok(PubSubResponse::SubMsg(SubMsg {
        path: PubSubPath::Short(0),
        payload: &[],
    })));
    assert_eq!(client.receive_published::<Demo>(Some(&empty)).err(), Some(Error::UnexpectedMessage));
    assert!(client.receive_published::<Demo>(Some(&Arbitrator::Mailbox)).unwrap().is_none());
    assert!(client.receive_published::<Demo>(None).unwrap().is_none());

    io.incoming.push_back(by_short);
    let got = client.process_one::<MockIo, Demo>(&mut ClientLink::new(&mut io)).unwrap().unwrap();
    assert_eq!(got.payload, Demo(7));
}

#[test]
fn table_lookups() {
    let subs: &[&str] = &["foo/+/baz", "bib/bim"];
    let pubs: &[&str] = &["short/send"];
    let long = SubMsg { path: PubSubPath::Long(ManagedString::Borrow("foo/bar/baz")), payload: &[] };
    assert_eq!(table_path(&long, subs, pubs).ok(), Some("foo/bar/baz"));
    let short_sub = SubMsg { path: PubSubPath::Short(1), payload: &[] };
    assert_eq!(table_path(&short_sub, subs, pubs).ok(), Some("bib/bim"));
    let short_pub = SubMsg { path: PubSubPath::Short(0x8000), payload: &[] };
    assert_eq!(table_path(&short_pub, subs, pubs).ok(), Some("short/send"));
    let bad = SubMsg { path: PubSubPath::Short(0x8001), payload: &[] };
    assert!(matches!(table_path(&bad, subs, pubs), Err(TableError::NoMatch)));

    assert_eq!(table_variant(&long, subs, pubs).ok(), Some(TableVariant::Sub(0)));
    assert_eq!(table_variant(&short_pub, subs, pubs).ok(), Some(TableVariant::Pub(0)));
    let none = SubMsg { path: PubSubPath::Long(ManagedString::Borrow("nothing/here")), payload: &[] };
    assert!(matches!(table_variant(&none, subs, pubs), Err(TableError::NoMatch)));
}

#[test]
fn first_step_registers_without_receiving() {
    let mut client = Client::new("dev", version(), 41, SUBS, PUBS, Some(5));
    let mut io = MockIo::new();
    // A message is waiting, but a disconnected client does not receive
    io.incoming.push_back(Arbitrator::Control(AControl {
        seq: 42,
        response: Ok(ControlResponse::ComponentRegistration(Uuid::from_bytes([3; 16]))),
    }));
    client.process_one::<MockIo, Demo>(&mut ClientLink::new(&mut io)).unwrap();
    assert_eq!(io.incoming.len(), 1);
    assert_eq!(io.sent.len(), 1);
    assert!(matches!(&io.sent[0], Component::Control(c) if c.seq == 42));
    // After a reset the next step registers again, under the next number
    client.reset_connection();
    client.process_one::<MockIo, Demo>(&mut ClientLink::new(&mut io)).unwrap();
    assert_eq!(io.incoming.len(), 1);
    assert_eq!(io.sent.len(), 2);
    assert!(matches!(&io.sent[1], Component::Control(c) if c.seq == 43));
}

#[test]
fn publish_hands_over_the_transport_error() {
    let mut client = Client::new("dev", version(), 0, &[], &[], None);
    let mut io = MockIo::new();
    client.process_one::<MockIo, Demo>(&mut ClientLink::new(&mut io)).unwrap();
    io.incoming.push_back(Arbitrator::Control(AControl {
        seq: 1,
        response: Ok(ControlResponse::ComponentRegistration(Uuid::from_bytes([3; 16]))),
    }));
    for _ in 0..6 {
        client.process_one::<MockIo, Demo>(&mut ClientLink::new(&mut io)).unwrap();
    }
    assert!(client.is_connected());
    assert_eq!(client.get_id(), Some(&Uuid::from_bytes([3; 16])));
    io.fail_send = true;
    assert_eq!(
        client.publish(&mut ClientLink::new(&mut io), "x/y", &[1]),
        Err(Error::ClientIoError(ClientIoError::OutputFull))
    );
    io.fail_send = false;
    let before = io.sent.len();
    client.publish(&mut ClientLink::new(&mut io), "x/y", &[1]).unwrap();
    assert_eq!(io.sent.len(), before + 1);
    assert!(matches!(&io.sent[before], Component::PubSub(ps) if ps.ty == PubSubType::Pub { payload: &[1] }));
}

#[test]
fn decoded_publication_is_delivered() {
    let path = ManagedString::Borrow("sensor/temp");
    assert_eq!(
        received_message(path.clone(), Ok(Demo(7))).unwrap().unwrap().payload,
        Demo(7)
    );
    assert_eq!(
        received_message::<Demo>(path, Err(TableError::NoMatch)).unwrap_err(),
        Error::UnexpectedMessage
    );
}

#[test]
fn without_timeout_registration_is_never_resent() {
    let mut client = Client::new("dev", version(), 0, SUBS, PUBS, None);
    let mut io = MockIo::new();
    client.process_one::<MockIo, Demo>(&mut ClientLink::new(&mut io)).unwrap();
    assert_eq!(io.sent.len(), 1);
    for _ in 0..300 {
        assert!(client.process_one::<MockIo, Demo>(&mut ClientLink::new(&mut io)).unwrap().is_none());
    }
    assert_eq!(io.sent.len(), 1);
    assert!(!client.is_connected());
    assert!(client.get_id().is_none());
}
