use chamomile::buffer::Buffer;
use chamomile::config::{Config, DELIVERY_LENGTH};
use chamomile::global::{Global, TransportPlan};
use chamomile::kad::{KadValue, SessionHandle, StreamHandle};
use chamomile::keys::{RemotePublic, SessionKey};
use chamomile::message::{
    Action, DeliveryType, EndpointMessage, ReceiveMessage, SendMessage, SessionMessage,
    StateRequest, StateResponse, StreamType,
};
use chamomile::peer::{IpAddress, Peer, SocketAddress};
use chamomile::router::{Completion, Screening};
use chamomile::server::start;
use chamomile::session::Relayed;
use chamomile::types::{Broadcast, PeerId, TransportType};

fn id(first: u8) -> PeerId {
    let mut raw = [7u8; 32];
    raw[0] = first;
    PeerId(raw)
}

fn addr(port: u16) -> SocketAddress {
    SocketAddress { ip: IpAddress::V4(0x7f00_0001), port }
}

fn node(first: u8, port: u16) -> Global {
    let config = Config::default(Peer::socket(addr(port)));
    let (global, actions) = start(config, id(first), vec![first; 4], addr(port), vec![]);
    assert!(actions.is_empty());
    global
}

fn descriptor(first: u8, port: u16) -> Peer {
    Peer { id: id(first), assist: None, socket: addr(port), transport: TransportType::QUIC }
}

fn value(first: u8, port: u16, n: u64) -> KadValue {
    KadValue { session: SessionHandle(n), stream: StreamHandle(n), peer: descriptor(first, port) }
}

fn failed(kind: DeliveryType, tid: u64, head: Vec<u8>) -> Action {
    Action::Out(ReceiveMessage::Delivery(kind, tid, false, head))
}

/// Runs the handshake of `a` dialling `b`, as the two inbound routers see
/// it, and gives back the session handles each side has for the other.
fn shake(a: &mut Global, b: &mut Global, n: u64) -> (SessionHandle, SessionHandle) {
    let mut key_a = SessionKey::half_open(n, vec![1, 1]);
    let (_, first) = a.generate_remote(key_a.clone());
    let seen_a = match b.screen(&a.peer.socket, &a.peer.id, first.1) {
        Screening::Proceed(peer) => peer,
        Screening::Close => panic!("refused"),
    };
    let (key_b, answer) = b.complete_remote(Some(SessionKey::completed(n, vec![2, 2]))).unwrap();
    let at_b = SessionHandle(100 + n);
    let actions = b.incoming(
        seen_a,
        Completion::Accepted(key_b.clone(), answer.clone()),
        at_b,
        StreamHandle(100 + n),
    );
    assert_eq!(actions.len(), 3);
    assert_eq!(
        actions[0],
        Action::Endpoint(StreamHandle(100 + n), EndpointMessage::Handshake(answer.clone()))
    );
    assert_eq!(actions[2], Action::Spawn(at_b, StreamHandle(100 + n), seen_a, key_b));
    let seen_b = match a.screen(&b.peer.socket, &b.peer.id, answer.1) {
        Screening::Proceed(peer) => peer,
        Screening::Close => panic!("refused"),
    };
    assert!(key_a.complete(true));
    let at_a = SessionHandle(200 + n);
    let completion = Completion::Initiated(key_a.clone());
    let actions = a.incoming(seen_b, completion, at_a, StreamHandle(200 + n));
    assert_eq!(actions.len(), 2);
    assert_eq!(actions[1], Action::Spawn(at_a, StreamHandle(200 + n), seen_b, key_a));
    (at_a, at_b)
}

#[test]
fn start_sets_the_node_up() {
    let mut config = Config::default(Peer::socket(addr(7001)));
    assert_eq!(config.delivery_length, DELIVERY_LENGTH);
    assert_eq!(config.db_dir, "./");
    assert!(!config.permission && !config.only_stable_data);
    config.peer.transport = TransportType::TCP;
    config.allowlist = vec![Peer::socket(addr(7002))];
    config.allow_peer_list = vec![id(3)];
    config.block_peer_list = vec![id(4)];
    config.blocklist = vec![IpAddress::V4(5)];
    config.permission = true;
    config.only_stable_data = true;
    config.delivery_length = 2;
    let remembered = vec![Peer::socket(addr(7009))];
    let (global, actions) = start(config, id(1), vec![9, 9], addr(40000), remembered);
    assert_eq!(*global.peer_id(), id(1));
    assert_eq!(global.peer.socket, addr(40000));
    assert_eq!(global.peer.transport, TransportType::TCP);
    assert_eq!(global.key, vec![9, 9]);
    assert_eq!(global.transports, vec![TransportType::TCP]);
    assert!(!global.is_relay_data);
    assert!(!global.recv_data);
    assert_eq!(global.delivery_length, 2);
    let seeds = vec![Peer::socket(addr(7002)), Peer::peer(id(3)), Peer::socket(addr(7009))];
    assert_eq!(global.peer_list.bootstrap(), &seeds);
    assert!(global.peer_list.is_block_peer(&id(4)));
    assert!(global.peer_list.is_block_addr(&SocketAddress { ip: IpAddress::V4(5), port: 1 }));
    assert!(global.peer_list.is_empty());
    assert_eq!(
        actions,
        vec![Action::Connect(seeds[0]), Action::Connect(seeds[1]), Action::Connect(seeds[2])]
    );
}

#[test]
fn first_frame_carries_key_descriptor_and_agreement() {
    let a = node(1, 7001);
    let key = SessionKey::half_open(5, vec![4, 5, 6]);
    let (back, remote) = a.generate_remote(key.clone());
    assert_eq!(back, key);
    assert_eq!(remote, RemotePublic(vec![1; 4], a.peer, vec![4, 5, 6]));
    assert_eq!(a.complete_remote(None), None);
    let done = SessionKey::completed(6, vec![8]);
    let (back, remote) = a.complete_remote(Some(done.clone())).unwrap();
    assert_eq!(back, done);
    assert_eq!(remote, RemotePublic(vec![1; 4], a.peer, vec![8]));
}

#[test]
fn a_transport_is_started_once() {
    let mut a = node(1, 7001);
    assert_eq!(a.trans_send(&TransportType::QUIC), TransportPlan::Send);
    let mut wanted = a.peer;
    wanted.transport = TransportType::TCP;
    wanted.socket.port = 0;
    assert_eq!(a.trans_send(&TransportType::TCP), TransportPlan::Start(wanted));
    a.transport_started(TransportType::TCP);
    a.transport_started(TransportType::TCP);
    assert_eq!(a.transports, vec![TransportType::QUIC, TransportType::TCP]);
    assert_eq!(a.trans_send(&TransportType::TCP), TransportPlan::Send);
}

#[test]
fn two_peer_handshake() {
    let mut a = node(1, 7001);
    let mut b = node(2, 7002);
    let dial = SendMessage::Connect(Peer::socket(addr(7002)));
    assert_eq!(a.dispatch(dial, 0), vec![Action::Connect(Peer::socket(addr(7002)))]);
    let (at_a, at_b) = shake(&mut a, &mut b, 1);
    assert_eq!(a.peer_list.dht_keys(), vec![id(2)]);
    assert_eq!(b.peer_list.dht_keys(), vec![id(1)]);
    assert_eq!(a.peer_list.all(), vec![(id(2), at_a)]);
    assert_eq!(b.peer_list.all(), vec![(id(1), at_b)]);
    assert!(a.check_network().is_empty());
    assert!(b.check_network().is_empty());
}

#[test]
fn a_lonely_node_reports_the_network_lost() {
    let a = node(1, 7001);
    assert_eq!(a.check_network(), vec![Action::Out(ReceiveMessage::NetworkLost)]);
}

#[test]
fn a_second_handshake_with_a_known_peer_is_closed() {
    let mut a = node(1, 7001);
    let mut b = node(2, 7002);
    shake(&mut a, &mut b, 1);
    let again = b.incoming(
        a.peer,
        Completion::Initiated(SessionKey::completed(9, vec![])),
        SessionHandle(9),
        StreamHandle(9),
    );
    assert_eq!(again, vec![Action::Endpoint(StreamHandle(9), EndpointMessage::Close)]);
    assert_eq!(b.peer_list.all().len(), 1);
}

#[test]
fn a_failed_key_agreement_closes_the_endpoint() {
    let mut a = node(1, 7001);
    let actions =
        a.incoming(descriptor(2, 7002), Completion::Failed, SessionHandle(1), StreamHandle(5));
    assert_eq!(actions, vec![Action::Endpoint(StreamHandle(5), EndpointMessage::Close)]);
    assert!(a.peer_list.is_empty());
}

#[test]
fn screening_refuses_blocked_addresses_blocked_peers_and_oneself() {
    let mut config = Config::default(Peer::socket(addr(7001)));
    config.block_peer_list = vec![id(4)];
    config.blocklist = vec![IpAddress::V4(5)];
    let (a, _) = start(config, id(1), vec![], addr(7001), vec![]);
    let from_blocked = SocketAddress { ip: IpAddress::V4(5), port: 1000 };
    assert_eq!(a.screen(&from_blocked, &id(2), descriptor(2, 1000)), Screening::Close);
    assert_eq!(a.screen(&addr(7004), &id(4), descriptor(4, 7004)), Screening::Close);
    assert_eq!(a.screen(&addr(7001), &id(1), descriptor(1, 7001)), Screening::Close);
    assert_eq!(
        a.screen(&addr(7002), &id(2), descriptor(2, 7002)),
        Screening::Proceed(descriptor(2, 7002))
    );
}

#[test]
fn the_observed_id_is_the_one_derived_from_the_key() {
    let a = node(1, 7001);
    // the descriptor claims id 9 and another socket
    let claimed = descriptor(9, 1234);
    let screening = a.screen(&addr(7002), &id(2), claimed);
    assert_eq!(screening, Screening::Proceed(descriptor(2, 7002)));
}

#[test]
fn a_new_peer_is_told_its_nearest_neighbours() {
    let mut a = node(1, 7001);
    assert!(a.peer_list.add_dht(value(0x80, 7008, 8)));
    assert!(a.peer_list.add_dht(value(0x41, 7004, 4)));
    let actions = a.incoming(
        descriptor(0x40, 7002),
        Completion::Initiated(SessionKey::completed(1, vec![])),
        SessionHandle(2),
        StreamHandle(2),
    );
    assert_eq!(
        actions[0],
        Action::Endpoint(
            StreamHandle(2),
            EndpointMessage::DHT(vec![descriptor(0x41, 7004), descriptor(0x80, 7008)])
        )
    );
}

#[test]
fn stable_handshake() {
    let mut a = node(1, 7001);
    let mut b = node(2, 7002);
    let (at_a, at_b) = shake(&mut a, &mut b, 1);
    let ask = SendMessage::StableConnect(1, descriptor(2, 7002), vec![1, 2, 3]);
    assert_eq!(
        a.dispatch(ask, 0),
        vec![Action::Session(at_a, SessionMessage::StableConnect(1, vec![1, 2, 3]))]
    );
    let answer = SendMessage::StableResult(2, descriptor(1, 7001), true, false, vec![9]);
    assert_eq!(
        b.dispatch(answer, 1),
        vec![Action::Session(at_b, SessionMessage::StableResult(2, true, false, vec![9]))]
    );
    // the two sessions upgrade their peers
    let waiting = b.upgrade(&id(1)).unwrap();
    assert!(waiting.0.is_empty() && waiting.1.is_empty());
    assert!(a.upgrade(&id(2)).is_ok());
    assert_eq!(a.peer_list.stable_all(), vec![(id(2), (at_a, true))]);
    assert_eq!(b.peer_list.stable_all(), vec![(id(1), (at_b, true))]);
    assert!(a.peer_list.dht_keys().is_empty());
    let e = a.upgrade(&id(2)).unwrap_err();
    assert_eq!(format!("{}", e), "peer is not in the DHT.");
}

#[test]
fn self_addressed_data() {
    let mut a = node(1, 7001);
    let actions = a.dispatch(SendMessage::Data(5, id(1), vec![7, 7]), 0);
    assert_eq!(
        actions,
        vec![
            Action::Out(ReceiveMessage::Delivery(DeliveryType::Data, 5, true, vec![7, 7])),
            Action::Out(ReceiveMessage::Data(id(1), vec![7, 7])),
        ]
    );
    let silent = a.dispatch(SendMessage::Data(0, id(1), vec![7, 7]), 0);
    assert_eq!(silent, vec![Action::Out(ReceiveMessage::Data(id(1), vec![7, 7]))]);
}

#[test]
fn unreachable_peer() {
    let mut a = node(1, 7001);
    let ask = SendMessage::StableConnect(9, Peer::peer(id(0x55)), vec![0]);
    assert_eq!(a.dispatch(ask, 0), vec![failed(DeliveryType::StableConnect, 9, vec![0])]);
    let answer = SendMessage::StableResult(9, Peer::peer(id(0x55)), true, false, vec![0]);
    assert_eq!(a.dispatch(answer, 0), vec![failed(DeliveryType::StableResult, 9, vec![0])]);
    let data = SendMessage::Data(9, id(0x55), vec![0]);
    assert_eq!(a.dispatch(data, 0), vec![failed(DeliveryType::Data, 9, vec![0])]);
    assert!(!a.buffer.has_connect(&id(0x55)));
    // without a transaction id nothing is reported
    let ask = SendMessage::StableConnect(0, Peer::peer(id(0x55)), vec![0]);
    assert!(a.dispatch(ask, 0).is_empty());
}

#[test]
fn stable_requests_to_oneself_fail() {
    let mut a = node(1, 7001);
    let ask = SendMessage::StableConnect(3, a.peer, vec![1]);
    assert_eq!(a.dispatch(ask, 0), vec![failed(DeliveryType::StableConnect, 3, vec![1])]);
    let answer = SendMessage::StableResult(4, a.peer, true, true, vec![2]);
    assert_eq!(a.dispatch(answer, 0), vec![failed(DeliveryType::StableResult, 4, vec![2])]);
}

#[test]
fn gossip_broadcast() {
    let mut a = node(1, 7001);
    let mut b = node(2, 7002);
    let mut c = node(3, 7003);
    let (at_a, _) = shake(&mut a, &mut b, 1);
    shake(&mut b, &mut c, 2);
    let gossip = SendMessage::Broadcast(Broadcast::Gossip, vec![42]);
    assert_eq!(
        a.dispatch(gossip, 0),
        vec![Action::Session(at_a, SessionMessage::Data(0, vec![42]))]
    );
    // B is no stable peer of A
    let stable = SendMessage::Broadcast(Broadcast::StableAll, vec![42]);
    assert!(a.dispatch(stable, 0).is_empty());
}

#[test]
fn stable_broadcast_reaches_stable_peers_only() {
    let mut a = node(1, 7001);
    assert!(a.peer_list.add_dht(value(0x80, 7008, 8)));
    assert!(a.peer_list.add_stable(id(0x40), value(0x40, 7004, 4), true));
    assert!(a.peer_list.add_dht(value(0x20, 7002, 2)));
    assert!(a.peer_list.add_stable(id(0x10), value(0x10, 7010, 10), true));
    let stable = a.dispatch(SendMessage::Broadcast(Broadcast::StableAll, vec![1, 2]), 0);
    assert_eq!(
        stable,
        vec![
            Action::Session(SessionHandle(4), SessionMessage::Data(0, vec![1, 2])),
            Action::Session(SessionHandle(10), SessionMessage::Data(0, vec![1, 2])),
        ]
    );
    let gossip = a.dispatch(SendMessage::Broadcast(Broadcast::Gossip, vec![3]), 0);
    let sessions: Vec<SessionHandle> = gossip
        .iter()
        .map(|action| match action {
            Action::Session(s, SessionMessage::Data(0, data)) if data == &vec![3u8] => *s,
            other => panic!("unexpected {:?}", other),
        })
        .collect();
    assert_eq!(
        sessions,
        vec![SessionHandle(8), SessionHandle(4), SessionHandle(2), SessionHandle(10)]
    );
}

#[test]
fn data_goes_to_stable_peers_or_is_passed_on() {
    let mut a = node(1, 7001);
    assert!(a.peer_list.add_dht(value(0x80, 7008, 8)));
    assert!(a.peer_list.add_stable(id(0x40), value(0x40, 7004, 4), true));
    assert_eq!(
        a.dispatch(SendMessage::Data(6, id(0x40), vec![1]), 0),
        vec![Action::Session(SessionHandle(4), SessionMessage::Data(6, vec![1]))]
    );
    // a peer that is not registered: the nearest hint passes the data on
    assert_eq!(
        a.dispatch(SendMessage::Data(7, id(0x81), vec![2]), 0),
        vec![Action::Session(SessionHandle(8), SessionMessage::RelayData(id(1), id(0x81), vec![2]))]
    );
    // with permission nothing is passed on
    a.is_relay_data = false;
    assert_eq!(
        a.dispatch(SendMessage::Data(8, id(0x81), vec![3]), 0),
        vec![failed(DeliveryType::Data, 8, vec![3])]
    );
    // a routing hint is no stable peer
    assert_eq!(
        a.dispatch(SendMessage::Data(9, id(0x80), vec![4]), 0),
        vec![failed(DeliveryType::Data, 9, vec![4])]
    );
}

#[test]
fn receipts_carry_the_head_of_the_payload() {
    let mut a = node(1, 7001);
    let payload: Vec<u8> = (0..20).collect();
    let actions = a.dispatch(SendMessage::Data(5, id(0x55), payload.clone()), 0);
    assert_eq!(actions, vec![failed(DeliveryType::Data, 5, (0..8).collect())]);
    a.delivery_length = 0;
    let actions = a.dispatch(SendMessage::Data(5, id(0x55), payload.clone()), 0);
    assert_eq!(actions, vec![failed(DeliveryType::Data, 5, vec![])]);
    let actions = a.dispatch(SendMessage::StableConnect(6, a.peer, payload.clone()), 0);
    assert_eq!(actions, vec![failed(DeliveryType::StableConnect, 6, vec![])]);
    let actions = a.dispatch(SendMessage::Data(7, id(1), payload.clone()), 0);
    assert_eq!(
        actions[0],
        Action::Out(ReceiveMessage::Delivery(DeliveryType::Data, 7, true, vec![]))
    );
}

#[test]
fn a_stable_request_to_a_stranger_opens_a_connection() {
    let mut a = node(1, 7001);
    assert!(a.peer_list.add_dht(value(0x80, 7008, 8)));
    // with a socket: dialled directly
    let to = descriptor(0x41, 7041);
    let actions = a.dispatch(SendMessage::StableConnect(11, to, (0..10).collect()), 0);
    assert_eq!(actions, vec![Action::DirectStable(11, (0..8).collect(), to)]);
    assert!(a.buffer.has_connect(&id(0x41)));
    // a second request waits for the same connection
    let actions = a.dispatch(SendMessage::StableConnect(12, to, vec![5]), 1);
    assert!(actions.is_empty());
    // by id only: through the nearest neighbour
    let far = Peer::peer(id(0x42));
    let actions = a.dispatch(SendMessage::StableResult(13, far, false, false, vec![6]), 1);
    assert_eq!(actions, vec![Action::RelayStable(13, vec![6], far, SessionHandle(8))]);
    assert!(a.buffer.has_result(&id(0x42)));
    assert!(!a.buffer.has_connect(&id(0x42)));
    // once the connection stands the requests are handed back
    let stables = a.add_tmp(id(0x41), value(0x41, 7041, 41), true, 2);
    assert_eq!(stables, vec![(11, (0..10).collect()), (12, vec![5])]);
    // and later requests go to the parked peer's session
    let actions = a.dispatch(SendMessage::StableConnect(14, to, vec![7]), 3);
    assert_eq!(
        actions,
        vec![Action::Session(SessionHandle(41), SessionMessage::StableConnect(14, vec![7]))]
    );
    let actions = a.dispatch(SendMessage::StableResult(15, to, true, false, vec![8]), 3);
    assert_eq!(
        actions,
        vec![Action::Session(
            SessionHandle(41),
            SessionMessage::StableResult(15, true, false, vec![8])
        )]
    );
}

#[test]
fn relay_upgrade() {
    let mut a = node(1, 7001);
    let mut b = node(2, 7002);
    let mut c = node(3, 7003);
    let (a_to_b, _) = shake(&mut a, &mut b, 1);
    shake(&mut c, &mut b, 2);
    let categories = |g: &Global, id: &PeerId| {
        g.peer_list.dht_keys().contains(id) as u8
            + g.peer_list.stable_all().iter().any(|row| row.0 == *id) as u8
            + g.peer_list.is_block_peer(id) as u8
    };
    // A asks C, which it knows by id only: the request goes through B
    let to_c = Peer::peer(id(3));
    let actions = a.dispatch(SendMessage::StableConnect(11, to_c, vec![1]), 0);
    assert_eq!(actions, vec![Action::RelayStable(11, vec![1], to_c, a_to_b)]);
    assert!(categories(&a, &id(3)) == 0 && categories(&a, &id(2)) == 1);
    // the relayed session stands: C is parked at A, reached through B
    let mut through_b = value(3, 0, 30);
    through_b.peer.socket = SocketAddress::unspecified();
    through_b.peer.assist = Some(id(2));
    let (connects, results) = a.add_all_tmp(id(3), through_b, false, 1);
    assert_eq!(connects, vec![(11, vec![1])]);
    assert!(results.is_empty());
    assert!(categories(&a, &id(3)) == 0);
    // C grants the request: A upgrades it
    assert!(a.upgrade(&id(3)).is_ok());
    assert_eq!(a.peer_list.is_relay(&id(3)), Some(SessionHandle(30)));
    assert!(categories(&a, &id(3)) == 1 && categories(&a, &id(2)) == 1);
    // C dials A directly: the router hands the stream to the session
    let seen = match a.screen(&addr(7003), &id(3), c.peer) {
        Screening::Proceed(peer) => peer,
        Screening::Close => panic!("refused"),
    };
    let key = SessionKey::completed(7, vec![3]);
    let (key, answer) = a.complete_remote(Some(key)).unwrap();
    let actions = a.incoming(
        seen,
        Completion::Accepted(key, answer.clone()),
        SessionHandle(31),
        StreamHandle(31),
    );
    assert_eq!(
        actions,
        vec![
            Action::Endpoint(StreamHandle(31), EndpointMessage::Handshake(answer)),
            Action::Session(
                SessionHandle(30),
                SessionMessage::DirectIncoming(seen, StreamHandle(31))
            ),
        ]
    );
    assert_eq!(a.peer_list.is_relay(&id(3)), Some(SessionHandle(30)));
    assert!(categories(&a, &id(3)) == 1);
    // the session takes the stream over and files itself as direct
    let direct = KadValue { session: SessionHandle(30), stream: StreamHandle(31), peer: seen };
    assert!(a.peer_list.add_stable(id(3), direct, true));
    assert_eq!(a.peer_list.is_relay(&id(3)), None);
    assert_eq!(
        a.peer_list.stable_all(),
        vec![(id(3), (SessionHandle(30), true))]
    );
    assert!(categories(&a, &id(3)) == 1 && categories(&a, &id(2)) == 1);
}

#[test]
fn stable_disconnect_closes_stable_sessions_only() {
    let mut a = node(1, 7001);
    assert!(a.peer_list.add_dht(value(0x80, 7008, 8)));
    assert!(a.peer_list.add_stable(id(0x40), value(0x40, 7004, 4), true));
    assert_eq!(
        a.dispatch(SendMessage::StableDisconnect(id(0x40)), 0),
        vec![Action::Session(SessionHandle(4), SessionMessage::Close)]
    );
    assert!(a.dispatch(SendMessage::StableDisconnect(id(0x80)), 0).is_empty());
    assert!(a.dispatch(SendMessage::StableDisconnect(id(0x99)), 0).is_empty());
    assert_eq!(a.peer_list.all().len(), 2);
}

#[test]
fn disconnect_evicts_by_socket_and_closes() {
    let mut a = node(1, 7001);
    assert!(a.peer_list.add_dht(value(0x80, 7008, 8)));
    assert!(a.peer_list.add_stable(id(0x40), value(0x40, 7004, 4), true));
    let actions = a.dispatch(SendMessage::DisConnect(Peer::socket(addr(7004))), 0);
    assert_eq!(
        actions,
        vec![
            Action::Out(ReceiveMessage::StableLeave(id(0x40))),
            Action::Session(SessionHandle(4), SessionMessage::Close),
        ]
    );
    let actions = a.dispatch(SendMessage::DisConnect(Peer::socket(addr(7008))), 0);
    assert_eq!(actions, vec![Action::Session(SessionHandle(8), SessionMessage::Close)]);
    assert!(a.peer_list.add_dht(value(0x80, 7008, 8)));
    assert_eq!(a.peer_list.all(), vec![(id(0x80), SessionHandle(8))]);
    assert!(a.dispatch(SendMessage::DisConnect(Peer::socket(addr(7004))), 0).is_empty());
}

#[test]
fn a_session_that_ends_leaves_the_registry() {
    let mut a = node(1, 7001);
    assert!(a.peer_list.add_dht(value(0x80, 7008, 8)));
    assert!(a.peer_list.add_stable(id(0x40), value(0x40, 7004, 4), true));
    let mut far = value(0x20, 0, 2);
    far.peer.assist = Some(id(0x40));
    assert!(a.peer_list.add_stable(id(0x20), far, false));
    assert!(a.leave(&id(0x80)).is_empty());
    let actions = a.leave(&id(0x40));
    assert_eq!(
        actions,
        vec![
            Action::Out(ReceiveMessage::StableLeave(id(0x40))),
            Action::Out(ReceiveMessage::StableLeave(id(0x20))),
            Action::Session(SessionHandle(2), SessionMessage::Close),
        ]
    );
    assert!(a.peer_list.is_empty());
    assert!(a.leave(&id(0x40)).is_empty());
}

#[test]
fn network_state_snapshots() {
    let mut config = Config::default(Peer::socket(addr(7001)));
    config.allowlist = vec![Peer::socket(addr(7002))];
    let (mut a, _) = start(config, id(1), vec![], addr(7001), vec![]);
    assert!(a.peer_list.add_dht(value(0x80, 7008, 8)));
    assert!(a.peer_list.add_stable(id(0x40), value(0x40, 7004, 4), true));
    assert_eq!(
        a.dispatch(SendMessage::NetworkState(StateRequest::Stable), 0),
        vec![Action::State(StateResponse::Stable(vec![(id(0x40), true)]))]
    );
    assert_eq!(
        a.dispatch(SendMessage::NetworkState(StateRequest::DHT), 0),
        vec![Action::State(StateResponse::DHT(vec![id(0x80)]))]
    );
    assert_eq!(
        a.dispatch(SendMessage::NetworkState(StateRequest::Seed), 0),
        vec![Action::State(StateResponse::Seed(vec![Peer::socket(addr(7002))]))]
    );
    assert_eq!(
        a.dispatch(SendMessage::NetworkReboot, 0),
        vec![Action::Connect(Peer::socket(addr(7002)))]
    );
}

#[test]
fn stream_requests_do_nothing() {
    let mut a = node(1, 7001);
    assert!(a.dispatch(SendMessage::Stream(1, StreamType::Data, vec![1]), 0).is_empty());
}

#[test]
fn buffer_sweep_with_a_one_second_window_fails_a_pending_connect() {
    let mut a = node(1, 7001);
    a.buffer = Buffer::with_window(1);
    assert!(a.peer_list.add_dht(value(0x80, 7008, 8)));
    let to = descriptor(0x41, 7041);
    a.dispatch(SendMessage::StableConnect(11, to, vec![1, 2]), 100);
    a.dispatch(SendMessage::StableConnect(0, to, vec![3]), 100);
    a.dispatch(SendMessage::StableConnect(12, to, vec![4]), 100);
    a.dispatch(SendMessage::StableResult(13, Peer::peer(id(0x42)), true, false, vec![5]), 100);
    assert!(a.sweep(100).is_empty());
    let actions = a.sweep(101);
    assert_eq!(
        actions,
        vec![
            failed(DeliveryType::StableConnect, 11, vec![1, 2]),
            failed(DeliveryType::StableConnect, 12, vec![4]),
            failed(DeliveryType::StableResult, 13, vec![5]),
        ]
    );
    assert!(!a.buffer.has_connect(&id(0x41)));
    assert!(a.sweep(200).is_empty());
}

#[test]
fn a_refused_peer_stays_as_a_hint_if_it_is_direct() {
    let mut a = node(1, 7001);
    a.add_tmp(id(0x41), value(0x41, 7041, 41), true, 0);
    a.add_tmp(id(0x42), value(0x42, 7042, 42), false, 0);
    assert!(a.tmp_to_dht(&id(0x41)).is_ok());
    let e = a.tmp_to_dht(&id(0x42)).unwrap_err();
    assert_eq!(format!("{}", e), "missing buffer");
    assert!(a.tmp_to_dht(&id(0x43)).is_err());
    assert!(a.tmp_to_dht(&id(0x41)).is_err());
    assert_eq!(a.peer_list.dht_keys(), vec![id(0x41)]);
    assert_eq!(a.buffer.get_tmp_session(&id(0x42)), None);
}

#[test]
fn upgrade_takes_a_parked_peer_first() {
    let mut a = node(1, 7001);
    let e = a.upgrade(&id(0x41)).unwrap_err();
    assert_eq!(format!("{}", e), "peer is not in the DHT.");
    a.add_tmp(id(0x41), value(0x41, 7041, 41), true, 0);
    assert!(a.upgrade(&id(0x41)).is_ok());
    assert_eq!(a.peer_list.stable_all(), vec![(id(0x41), (SessionHandle(41), true))]);
    assert_eq!(a.buffer.get_tmp_session(&id(0x41)), None);
    // a relayed peer whose relay is gone is not taken in
    let mut far = value(0x42, 0, 42);
    far.peer.assist = Some(id(0x77));
    a.add_tmp(id(0x42), far, false, 0);
    let e = a.upgrade(&id(0x42)).unwrap_err();
    assert_eq!(format!("{}", e), "peer is not admitted.");
}

#[test]
fn upgrade_hands_back_what_waited() {
    let mut a = node(1, 7001);
    assert!(a.peer_list.add_dht(value(0x80, 7008, 8)));
    let to = descriptor(0x41, 7041);
    a.dispatch(SendMessage::StableConnect(11, to, vec![1]), 0);
    a.dispatch(SendMessage::StableResult(12, to, true, false, vec![2]), 0);
    // the peer dials in meanwhile and becomes a routing hint
    assert!(a.peer_list.add_dht(value(0x41, 7041, 41)));
    let (connects, results) = a.upgrade(&id(0x41)).unwrap();
    assert_eq!(connects, vec![(11, vec![1])]);
    assert_eq!(results, vec![(12, vec![2])]);
    assert!(!a.buffer.has_connect(&id(0x41)) && !a.buffer.has_result(&id(0x41)));
}

#[test]
fn stable_to_dht_unparks_and_demotes() {
    let mut a = node(1, 7001);
    assert!(a.peer_list.add_stable(id(0x40), value(0x40, 7004, 4), true));
    a.add_tmp(id(0x40), value(0x40, 7004, 5), true, 0);
    assert_eq!(a.stable_to_dht(&id(0x40)).unwrap(), vec![]);
    assert_eq!(a.buffer.get_tmp_session(&id(0x40)), None);
    assert_eq!(a.peer_list.dht_keys(), vec![id(0x40)]);
    let e = a.stable_to_dht(&id(0x40)).unwrap_err();
    assert_eq!(format!("{}", e), "peer is not stable.");
}

#[test]
fn a_session_that_ends_fails_what_was_left_in_its_inbox() {
    let mut a = node(1, 7001);
    assert!(a.peer_list.add_stable(id(0x40), value(0x40, 7004, 4), true));
    let inbox = vec![
        SessionMessage::Data(5, (0..10).collect()),
        SessionMessage::Data(0, vec![1]),
        SessionMessage::StableConnect(6, vec![2]),
        SessionMessage::Close,
        SessionMessage::RelayData(id(2), id(3), vec![3]),
        SessionMessage::StableResult(7, true, false, vec![4]),
    ];
    let actions = a.closure(&id(0x40), inbox);
    assert_eq!(
        actions,
        vec![
            Action::Out(ReceiveMessage::StableLeave(id(0x40))),
            failed(DeliveryType::Data, 5, (0..8).collect()),
            failed(DeliveryType::StableConnect, 6, vec![2]),
            failed(DeliveryType::StableResult, 7, vec![4]),
        ]
    );
    assert!(a.peer_list.is_empty());
    assert!(a.closure(&id(0x40), vec![]).is_empty());
}

#[test]
fn data_from_peers_that_are_not_stable_can_be_dropped() {
    let mut a = node(1, 7001);
    assert!(a.peer_list.add_dht(value(0x80, 7008, 8)));
    assert!(a.peer_list.add_stable(id(0x40), value(0x40, 7004, 4), true));
    let told = |from: u8| vec![Action::Out(ReceiveMessage::Data(id(from), vec![42]))];
    assert_eq!(a.inbound_data(&id(0x80), vec![42]), told(0x80));
    assert_eq!(a.inbound_data(&id(0x40), vec![42]), told(0x40));
    assert_eq!(a.inbound_data(&id(0x99), vec![42]), told(0x99));
    a.recv_data = false;
    assert!(a.inbound_data(&id(0x80), vec![42]).is_empty());
    assert_eq!(a.inbound_data(&id(0x40), vec![42]), told(0x40));
    assert!(a.inbound_data(&id(0x99), vec![42]).is_empty());
}

#[test]
fn full_id_display() {
    assert_eq!(id(0xab).show(), format!("0xab{}", "07".repeat(31)));
}

#[test]
fn data_for_others_is_passed_on_with_one_hop_less() {
    let mut a = node(1, 7001);
    assert_eq!(a.relay_data(id(5), id(0x81), 3, vec![1]), Relayed::Dropped);
    assert_eq!(a.relay_data(id(5), id(1), 3, vec![1]), Relayed::Arrived(id(5), vec![1]));
    assert_eq!(a.relay_data(id(5), id(1), 0, vec![1]), Relayed::Arrived(id(5), vec![1]));
    assert!(a.peer_list.add_dht(value(0x80, 7008, 8)));
    assert!(a.peer_list.add_stable(id(0x40), value(0x40, 7004, 4), true));
    assert_eq!(
        a.relay_data(id(5), id(0x81), 3, vec![1]),
        Relayed::Forward(SessionHandle(8), 2, id(5), id(0x81), vec![1])
    );
    assert_eq!(
        a.relay_data(id(5), id(0x40), 1, vec![2]),
        Relayed::Forward(SessionHandle(4), 0, id(5), id(0x40), vec![2])
    );
    assert_eq!(a.relay_data(id(5), id(0x81), 0, vec![1]), Relayed::Dropped);
    a.is_relay_data = false;
    assert_eq!(a.relay_data(id(5), id(0x81), 3, vec![1]), Relayed::Dropped);
    assert_eq!(a.relay_data(id(5), id(1), 3, vec![1]), Relayed::Dropped);
}

#[test]
fn a_relay_that_loses_its_standing_takes_its_relayed_peers_along() {
    let mut a = node(1, 7001);
    for n in 0..8u8 {
        let mut raw = [0u8; 32];
        raw[0] = 0x80;
        raw[31] = n;
        let mut v = value(0x80, 7100 + n as u16, 100 + n as u64);
        v.peer.id = PeerId(raw);
        assert!(a.peer_list.add_dht(v));
    }
    // bucket 0 is full: a stable peer of that bucket finds no way back
    assert!(a.peer_list.add_stable(id(0x90), value(0x90, 7090, 90), true));
    let mut far = value(0x20, 0, 20);
    far.peer.assist = Some(id(0x90));
    assert!(a.peer_list.add_stable(id(0x20), far, false));
    let actions = a.stable_to_dht(&id(0x90)).unwrap();
    assert_eq!(
        actions,
        vec![
            Action::Out(ReceiveMessage::StableLeave(id(0x20))),
            Action::Session(SessionHandle(20), SessionMessage::Close),
        ]
    );
    assert!(a.peer_list.stable_all().is_empty());
    assert_eq!(a.peer_list.all().len(), 8);
}

#[test]
fn a_lost_session_takes_its_peer_out() {
    let mut a = node(1, 7001);
    assert!(a.peer_list.add_dht(value(0x80, 7008, 8)));
    assert!(a.peer_list.add_stable(id(0x40), value(0x40, 7004, 4), true));
    assert!(a.session_lost(SessionHandle(99)).is_empty());
    assert!(a.session_lost(SessionHandle(8)).is_empty());
    assert_eq!(
        a.session_lost(SessionHandle(4)),
        vec![Action::Out(ReceiveMessage::StableLeave(id(0x40)))]
    );
    assert!(a.peer_list.is_empty());
}
