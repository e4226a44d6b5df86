use anachro::icd::arbitrator::{Arbitrator, Control as AControl, ControlError, ControlResponse, PubSubResponse};
use anachro::icd::component::{
    Component, ComponentInfo, Control, ControlType, PubSub, PubSubShort, PubSubType,
};
use anachro::icd::{ManagedString, PubSubPath, Uuid, Version};
use anachro::server::{
    reset_message, Broker, Request, RequestLink, Response, ResponseSink, ServerError, ServerIoError, ServerIoIn, ServerIoOut,
};

fn id(n: u8) -> Uuid {
    Uuid::from_bytes([n; 16])
}

fn register_msg(seq: u16, name: &'static str) -> Control<'static> {
    Control {
        seq,
        ty: ControlType::RegisterComponent(ComponentInfo {
            name: ManagedString::Borrow(name),
            version: Version { major: 1, minor: 2, trivial: 3, misc: 4 },
        }),
    }
}

fn short_msg(seq: u16, long: &'static str, short: u16) -> Control<'static> {
    Control { seq, ty: ControlType::RegisterPubSubShortId(PubSubShort { long_name: long, short_id: short }) }
}

fn connect(broker: &mut Broker, who: &Uuid) {
    broker.register_client(who).unwrap();
    broker.handle_control(who, &register_msg(1, "dev")).unwrap();
}

struct InQ(Option<Request<'static>>, bool);

impl ServerIoIn for InQ {
    fn recv<'a, 'b: 'a>(&'b mut self) -> Result<Option<Request<'b>>, ServerIoError> {
        if self.1 {
            return Err(ServerIoError::ToDo);
        }
        Ok(self.0.take())
    }
}

struct OutQ(Vec<Uuid>);

impl<'resp> ServerIoOut<'resp> for OutQ {
    fn push_response(&mut self, resp: Response<'resp>) -> Result<(), ServerIoError> {
        self.0.push(resp.dest);
        Ok(())
    }
}

#[test]
fn registration_limits() {
    let mut broker = Broker::new();
    for n in 0..8 {
        assert_eq!(broker.register_client(&id(n)), Ok(()));
    }
    assert_eq!(broker.register_client(&id(8)), Err(ServerError::ResourcesExhausted));
    // Registering again resets, and is no error
    assert_eq!(broker.register_client(&id(3)), Ok(()));
    assert_eq!(broker.remove_client(&id(3)), Ok(()));
    assert_eq!(broker.remove_client(&id(3)), Err(ServerError::UnknownClient));
    assert_eq!(broker.reset_client(&id(3)), Err(ServerError::UnknownClient));
    assert_eq!(broker.reset_client(&id(4)), Ok(()));
    assert_eq!(broker.register_client(&id(8)), Ok(()));
}

#[test]
fn control_requests() {
    let mut broker = Broker::new();
    let a = id(1);
    assert_eq!(broker.handle_control(&a, &register_msg(1, "dev")).err(), Some(ServerError::UnknownClient));
    broker.register_client(&a).unwrap();
    // A short code before the component registered
    assert_eq!(
        broker.handle_control(&a, &short_msg(2, "a/b", 0)).err(),
        Some(ServerError::ClientDisconnected)
    );
    let reply = broker.handle_control(&a, &register_msg(5, "dev")).unwrap().unwrap();
    assert_eq!(reply.dest, a);
    assert_eq!(
        reply.msg,
        Arbitrator::Control(AControl { seq: 5, response: Ok(ControlResponse::ComponentRegistration(a)) })
    );
    let reply = broker.handle_control(&a, &short_msg(6, "a/b", 3)).unwrap().unwrap();
    assert_eq!(
        reply.msg,
        Arbitrator::Control(AControl { seq: 6, response: Ok(ControlResponse::PubSubShortRegistration(3)) })
    );
    let reply = broker.handle_control(&a, &short_msg(7, "a/#", 4)).unwrap().unwrap();
    assert_eq!(
        reply.msg,
        Arbitrator::Control(AControl { seq: 7, response: Err(ControlError::NoWildcardsInShorts) })
    );
}

#[test]
fn subscribe_and_publish() {
    let mut broker = Broker::new();
    let (a, b, c) = (id(1), id(2), id(3));
    connect(&mut broker, &a);
    connect(&mut broker, &b);
    connect(&mut broker, &c);

    let ack = broker.handle_subscribe(&a, &PubSubPath::Long(ManagedString::Borrow("sensor/+"))).unwrap();
    assert_eq!(ack.dest, a);
    assert_eq!(
        ack.msg,
        Arbitrator::PubSub(Ok(PubSubResponse::SubAck {
            path: PubSubPath::Long(ManagedString::Borrow("sensor/+"))
        }))
    );
    broker.handle_subscribe(&b, &PubSubPath::Long(ManagedString::Borrow("sensor/temp"))).unwrap();
    broker.handle_control(&b, &short_msg(2, "sensor/temp", 9)).unwrap();
    broker.handle_subscribe(&c, &PubSubPath::Long(ManagedString::Borrow("other"))).unwrap();

    // b publishes: a gets it by the long path, b never gets its own message
    let path = PubSubPath::Long(ManagedString::Borrow("sensor/temp"));
    let resps = broker.publish_responses(&path, &[1, 2, 3], &b).unwrap();
    assert_eq!(resps.len(), 1);
    assert_eq!(resps[0].dest, a);

    // a publishes: b gets it by its short code
    let resps = broker.publish_responses(&path, &[4], &a).unwrap();
    assert_eq!(resps.len(), 1);
    assert_eq!(resps[0].dest, b);
    match &resps[0].msg {
        Arbitrator::PubSub(Ok(PubSubResponse::SubMsg(sm))) => {
            assert_eq!(sm.path, PubSubPath::Short(9));
            assert_eq!(sm.payload, &[4]);
        }
        _ => panic!("expected a publication"),
    }

    // An unknown short code of the sender
    assert_eq!(
        broker.publish_responses(&PubSubPath::Short(77), &[1], &a).err(),
        Some(ServerError::UnknownShortcode)
    );
    // An unknown sender
    assert_eq!(broker.publish_responses(&path, &[1], &id(9)).err(), Some(ServerError::UnknownClient));
    // Subscribing twice keeps one subscription
    broker.handle_subscribe(&a, &PubSubPath::Long(ManagedString::Borrow("sensor/+"))).unwrap();
    assert_eq!(broker.publish_responses(&path, &[1], &b).unwrap().len(), 1);
}

#[test]
fn processing_messages() {
    let mut broker = Broker::new();
    let a = id(1);
    let b = id(2);
    broker.register_client(&a).unwrap();
    broker.register_client(&b).unwrap();

    let mut out = OutQ(Vec::new());
    let mut nothing = InQ(None, false);
    assert_eq!(broker.process_msg(&mut RequestLink::new(&mut nothing), &mut ResponseSink::new(&mut out)), Ok(()));
    let mut broken = InQ(None, true);
    assert_eq!(broker.process_msg(&mut RequestLink::new(&mut broken), &mut ResponseSink::new(&mut out)), Err(ServerError::ClientDisconnected));

    for who in [a, b] {
        let mut inq = InQ(Some(Request { source: who, msg: Component::Control(register_msg(1, "dev")) }), false);
        assert_eq!(broker.process_msg(&mut RequestLink::new(&mut inq), &mut ResponseSink::new(&mut out)), Ok(()));
    }
    assert_eq!(out.0, vec![a, b]);

    let sub = Component::PubSub(PubSub { path: PubSubPath::Long(ManagedString::Borrow("x/y")), ty: PubSubType::Sub });
    let mut inq = InQ(Some(Request { source: b, msg: sub }), false);
    assert_eq!(broker.process_msg(&mut RequestLink::new(&mut inq), &mut ResponseSink::new(&mut out)), Ok(()));

    let publ = Component::PubSub(PubSub {
        path: PubSubPath::Long(ManagedString::Borrow("x/y")),
        ty: PubSubType::Pub { payload: &[1] },
    });
    let mut inq = InQ(Some(Request { source: a, msg: publ }), false);
    assert_eq!(broker.process_msg(&mut RequestLink::new(&mut inq), &mut ResponseSink::new(&mut out)), Ok(()));
    assert_eq!(out.0, vec![a, b, b, b]);

    let unsub = Component::PubSub(PubSub { path: PubSubPath::Long(ManagedString::Borrow("x/y")), ty: PubSubType::Unsub });
    let mut inq = InQ(Some(Request { source: b, msg: unsub }), false);
    assert_eq!(broker.process_msg(&mut RequestLink::new(&mut inq), &mut ResponseSink::new(&mut out)), Err(ServerError::InternalError));

    let mut inq = InQ(Some(Request { source: id(7), msg: Component::Control(register_msg(1, "dev")) }), false);
    assert_eq!(broker.process_msg(&mut RequestLink::new(&mut inq), &mut ResponseSink::new(&mut out)), Err(ServerError::UnknownClient));
}

#[test]
fn reset_message_asks_to_reconnect() {
    assert_eq!(
        reset_message(),
        Arbitrator::Control(AControl { seq: 0, response: Err(ControlError::ResetConnection) })
    );
}

struct Refusing;

impl<'resp> ServerIoOut<'resp> for Refusing {
    fn push_response(&mut self, _resp: Response<'resp>) -> Result<(), ServerIoError> {
        Err(ServerIoError::ToDo)
    }
}

#[test]
fn process_request_outcomes() {
    let mut broker = Broker::new();
    let a = id(1);
    broker.register_client(&a).unwrap();
    let mut out = OutQ(Vec::new());
    // A registration answered
    let req = Request { source: a, msg: Component::Control(register_msg(3, "dev")) };
    assert_eq!(broker.process_request(req, &mut ResponseSink::new(&mut out)), Ok(()));
    assert_eq!(out.0, vec![a]);
    // A publication from a client nobody listens to gives no response
    let publ = Component::PubSub(PubSub {
        path: PubSubPath::Long(ManagedString::Borrow("x")),
        ty: PubSubType::Pub { payload: &[9] },
    });
    assert_eq!(broker.process_request(Request { source: a, msg: publ }, &mut ResponseSink::new(&mut out)), Ok(()));
    assert_eq!(out.0.len(), 1);
    // A refused response
    let sub = Component::PubSub(PubSub { path: PubSubPath::Long(ManagedString::Borrow("x")), ty: PubSubType::Sub });
    assert_eq!(
        broker.process_request(Request { source: a, msg: sub }, &mut ResponseSink::new(&mut Refusing)),
        Err(ServerError::ResourcesExhausted)
    );
    // An unknown short code in a subscription
    let sub = Component::PubSub(PubSub { path: PubSubPath::Short(5), ty: PubSubType::Sub });
    assert_eq!(
        broker.process_request(Request { source: a, msg: sub }, &mut ResponseSink::new(&mut out)),
        Err(ServerError::UnknownShortcode)
    );
}

#[test]
fn reregistration_drops_subscriptions() {
    let mut broker = Broker::new();
    let (a, b) = (id(1), id(2));
    connect(&mut broker, &a);
    connect(&mut broker, &b);
    broker.handle_subscribe(&a, &PubSubPath::Long(ManagedString::Borrow("t"))).unwrap();
    let path = PubSubPath::Long(ManagedString::Borrow("t"));
    assert_eq!(broker.publish_responses(&path, &[1], &b).unwrap().len(), 1);
    // a registers its component again: its subscriptions are gone
    broker.handle_control(&a, &register_msg(9, "dev")).unwrap();
    assert_eq!(broker.publish_responses(&path, &[1], &b).unwrap().len(), 0);
}

#[test]
fn short_code_registration_is_idempotent() {
    let mut broker = Broker::new();
    let a = id(1);
    connect(&mut broker, &a);
    for seq in 2..12 {
        let reply = broker.handle_control(&a, &short_msg(seq, "a/b", 3)).unwrap().unwrap();
        assert_eq!(
            reply.msg,
            Arbitrator::Control(AControl { seq, response: Ok(ControlResponse::PubSubShortRegistration(3)) })
        );
    }
    // Eight distinct short codes fit, a ninth does not
    for n in 4..11u16 {
        broker.handle_control(&a, &short_msg(20, "c/d", n)).unwrap();
    }
    assert_eq!(
        broker.handle_control(&a, &short_msg(21, "c/d", 11)).err(),
        Some(ServerError::ResourcesExhausted)
    );
}

#[test]
fn removing_a_client_keeps_the_others() {
    let mut broker = Broker::new();
    let (a, b, c) = (id(1), id(2), id(3));
    connect(&mut broker, &a);
    connect(&mut broker, &b);
    connect(&mut broker, &c);
    broker.handle_subscribe(&c, &PubSubPath::Long(ManagedString::Borrow("t"))).unwrap();
    broker.remove_client(&a).unwrap();
    let path = PubSubPath::Long(ManagedString::Borrow("t"));
    let resps = broker.publish_responses(&path, &[1], &b).unwrap();
    assert_eq!(resps.len(), 1);
    assert_eq!(resps[0].dest, c);
    assert_eq!(broker.publish_responses(&path, &[1], &a).err(), Some(ServerError::UnknownClient));
}

/// Takes a number of responses, then refuses every other one
struct Limited(Vec<Uuid>, usize);

impl<'resp> ServerIoOut<'resp> for Limited {
    fn push_response(&mut self, resp: Response<'resp>) -> Result<(), ServerIoError> {
        if self.0.len() >= self.1 {
            return Err(ServerIoError::ToDo);
        }
        self.0.push(resp.dest);
        Ok(())
    }
}

fn publication(path: &'static str, payload: &'static [u8]) -> Component<'static> {
    Component::PubSub(PubSub {
        path: PubSubPath::Long(ManagedString::Borrow(path)),
        ty: PubSubType::Pub { payload },
    })
}

#[test]
fn publication_pushes_in_client_order_until_refused() {
    let mut broker = Broker::new();
    let (a, b, c, d) = (id(1), id(2), id(3), id(4));
    for who in [a, b, c, d] {
        connect(&mut broker, &who);
    }
    for who in [b, c, d] {
        broker.handle_subscribe(&who, &PubSubPath::Long(ManagedString::Borrow("t/#"))).unwrap();
    }
    let mut all = OutQ(Vec::new());
    let req = Request { source: a, msg: publication("t/x", &[5]) };
    assert_eq!(broker.process_request(req, &mut ResponseSink::new(&mut all)), Ok(()));
    assert_eq!(all.0, vec![b, c, d]);

    // The transport takes one response: the second is refused and the third is never pushed
    let mut one = Limited(Vec::new(), 1);
    let req = Request { source: a, msg: publication("t/x", &[5]) };
    assert_eq!(
        broker.process_request(req, &mut ResponseSink::new(&mut one)),
        Err(ServerError::ResourcesExhausted)
    );
    assert_eq!(one.0, vec![b]);
}

#[test]
fn unknown_and_reset_sources_push_nothing() {
    let mut broker = Broker::new();
    let (a, b) = (id(1), id(2));
    connect(&mut broker, &a);
    connect(&mut broker, &b);
    broker.handle_subscribe(&a, &PubSubPath::Long(ManagedString::Borrow("t"))).unwrap();
    let mut out = OutQ(Vec::new());
    // An unknown source: refused, nothing pushed
    let req = Request { source: id(9), msg: Component::Control(register_msg(1, "dev")) };
    assert_eq!(broker.process_request(req, &mut ResponseSink::new(&mut out)), Err(ServerError::UnknownClient));
    assert!(out.0.is_empty());
    // a is reset: a publication of b no longer reaches it
    broker.reset_client(&a).unwrap();
    let req = Request { source: b, msg: publication("t", &[1]) };
    assert_eq!(broker.process_request(req, &mut ResponseSink::new(&mut out)), Ok(()));
    assert!(out.0.is_empty());
    // a removed client gets nothing either
    broker.handle_control(&a, &register_msg(2, "dev")).unwrap();
    broker.handle_subscribe(&a, &PubSubPath::Long(ManagedString::Borrow("t"))).unwrap();
    broker.remove_client(&a).unwrap();
    let req = Request { source: b, msg: publication("t", &[1]) };
    assert_eq!(broker.process_request(req, &mut ResponseSink::new(&mut out)), Ok(()));
    assert!(out.0.is_empty());
}

#[test]
fn registration_reply_is_pushed_once() {
    let mut broker = Broker::new();
    let a = id(1);
    broker.register_client(&a).unwrap();
    let mut out = OutQ(Vec::new());
    let mut inq = InQ(Some(Request { source: a, msg: Component::Control(register_msg(4, "dev")) }), false);
    assert_eq!(broker.process_msg(&mut RequestLink::new(&mut inq), &mut ResponseSink::new(&mut out)), Ok(()));
    assert_eq!(out.0, vec![a]);
}
