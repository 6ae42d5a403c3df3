use chamomile::kad::{Category, Entry, KadValue, SessionHandle, StreamHandle, K_BUCKET};
use chamomile::peer::{IpAddress, Peer, SocketAddress};
use chamomile::peer_list::PeerList;
use chamomile::types::{PeerId, TransportType};

fn id(first: u8, last: u8) -> PeerId {
    let mut raw = [0u8; 32];
    raw[0] = first;
    raw[31] = last;
    PeerId(raw)
}

fn addr(port: u16) -> SocketAddress {
    SocketAddress { ip: IpAddress::V4(0x7f00_0001), port }
}

fn value(peer_id: PeerId, n: u64) -> KadValue {
    KadValue {
        session: SessionHandle(n),
        stream: StreamHandle(100 + n),
        peer: Peer {
            id: peer_id,
            assist: None,
            socket: addr(7000 + n as u16),
            transport: TransportType::QUIC,
        },
    }
}

fn relayed(peer_id: PeerId, n: u64, relay: PeerId) -> KadValue {
    let mut v = value(peer_id, n);
    v.peer.assist = Some(relay);
    v.peer.socket = SocketAddress::unspecified();
    v
}

fn empty_list() -> PeerList {
    PeerList::load(id(0, 0), vec![], vec![], (vec![], vec![]))
}

#[test]
fn load_gives_an_empty_registry_and_the_bootstrap_list() {
    let seed = Peer::socket(addr(7001));
    let remembered = Peer::socket(addr(7002));
    let list = PeerList::load(
        id(0, 0),
        vec![remembered],
        vec![seed],
        (vec![id(6, 6)], vec![IpAddress::V4(1)]),
    );
    assert!(list.is_empty());
    assert_eq!(list.bootstrap(), &vec![seed, remembered]);
    assert!(list.is_block_peer(&id(6, 6)));
    assert!(!list.is_block_peer(&id(6, 7)));
    assert!(list.is_block_addr(&SocketAddress { ip: IpAddress::V4(1), port: 9 }));
    assert!(!list.is_block_addr(&addr(9)));
    assert_eq!(list.get(&id(1, 1)), None);
    assert!(list.all().is_empty());
}

#[test]
fn add_dht_admits_a_peer_once() {
    let mut list = empty_list();
    assert!(list.add_dht(value(id(0x80, 1), 1)));
    assert!(!list.add_dht(value(id(0x80, 1), 2)));
    assert_eq!(list.dht_keys(), vec![id(0x80, 1)]);
    assert_eq!(list.all(), vec![(id(0x80, 1), SessionHandle(1))]);
    assert!(!list.is_empty());
}

#[test]
fn add_dht_refuses_oneself_and_blocked_peers() {
    let mut list = PeerList::load(id(0, 0), vec![], vec![], (vec![id(0x80, 9)], vec![]));
    assert!(!list.add_dht(value(id(0, 0), 1)));
    assert!(!list.add_dht(value(id(0x80, 9), 2)));
    assert!(list.is_empty());
    assert!(!list.add_stable(id(0x80, 9), value(id(0x80, 9), 2), true));
    assert!(!list.add_stable(id(0, 0), value(id(0, 0), 2), true));
    assert!(list.is_empty());
}

#[test]
fn a_bucket_holds_eight_hints() {
    let mut list = empty_list();
    for n in 0..K_BUCKET as u8 {
        assert!(list.add_dht(value(id(0x80, n), n as u64)));
    }
    // a ninth peer of bucket 0 finds it full
    assert!(!list.add_dht(value(id(0xff, 0), 50)));
    // another bucket has room
    assert!(list.add_dht(value(id(0x40, 0), 51)));
    assert_eq!(list.dht_keys().len(), 9);
    // stable peers do not count towards a bucket
    assert!(list.add_stable(id(0x81, 0), value(id(0x81, 0), 52), true));
    assert!(!list.add_dht(value(id(0x82, 0), 53)));
    // a hint that turns stable frees its place
    assert!(list.dht_to_stable(&id(0x80, 0)).is_ok());
    assert!(list.add_dht(value(id(0x82, 0), 53)));
    assert!(!list.add_dht(value(id(0x83, 0), 54)));
    // and finds no way back while the bucket is full
    assert!(list.stable_to_dht(&id(0x80, 0)).is_ok());
    assert_eq!(list.get(&id(0x80, 0)), Some((SessionHandle(1), StreamHandle(101), false)));
}

#[test]
fn get_finds_the_peer_or_the_nearest_hint() {
    let mut list = empty_list();
    assert!(list.add_dht(value(id(0x80, 1), 1)));
    assert!(list.add_dht(value(id(0x40, 1), 2)));
    assert!(list.add_stable(id(0x20, 1), value(id(0x20, 1), 3), true));
    assert_eq!(list.get(&id(0x80, 1)), Some((SessionHandle(1), StreamHandle(101), true)));
    assert_eq!(list.get(&id(0x20, 1)), Some((SessionHandle(3), StreamHandle(103), true)));
    // 0x81.. is nearest to 0x80..
    assert_eq!(list.get(&id(0x81, 0)), Some((SessionHandle(1), StreamHandle(101), false)));
    // 0x41.. is nearest to 0x40..
    assert_eq!(list.get(&id(0x41, 0)), Some((SessionHandle(2), StreamHandle(102), false)));
    // 0x21.. would be nearest to the stable peer, which is no hint
    assert_eq!(list.get(&id(0x21, 0)), Some((SessionHandle(2), StreamHandle(102), false)));
}

#[test]
fn get_without_hints_finds_nothing() {
    let mut list = empty_list();
    assert!(list.add_stable(id(0x20, 1), value(id(0x20, 1), 3), true));
    assert_eq!(list.get(&id(0x21, 0)), None);
    assert_eq!(list.get(&id(0x20, 1)), Some((SessionHandle(3), StreamHandle(103), true)));
}

#[test]
fn help_dht_names_the_nearest_hints_nearest_first() {
    let mut list = empty_list();
    for n in 1..=12u8 {
        assert!(list.add_dht(value(id(16 * n, 0), n as u64)));
    }
    // the target is the first byte 0x10: distances are 0x10 ^ 16n
    let peers = list.help_dht(&id(0x10, 0));
    let firsts: Vec<u8> = peers.iter().map(|p| p.id.0[0]).collect();
    // without the target itself, with the distance in brackets: 0x30 (0x20),
    // 0x20 (0x30), 0x50 (0x40), 0x40 (0x50), 0x70 (0x60), 0x60 (0x70),
    // 0x90 (0x80), 0x80 (0x90)
    assert_eq!(firsts, vec![0x30, 0x20, 0x50, 0x40, 0x70, 0x60, 0x90, 0x80]);
    assert_eq!(peers.len(), K_BUCKET);
}

#[test]
fn help_dht_names_all_where_there_are_few() {
    let mut list = empty_list();
    assert!(list.help_dht(&id(1, 1)).is_empty());
    assert!(list.add_dht(value(id(0x80, 1), 1)));
    assert!(list.add_dht(value(id(0x40, 1), 2)));
    assert!(list.add_stable(id(0x20, 1), value(id(0x20, 1), 3), true));
    let peers = list.help_dht(&id(0x80, 1));
    assert_eq!(peers, vec![value(id(0x40, 1), 2).peer]);
    let peers = list.help_dht(&id(0x41, 1));
    assert_eq!(peers, vec![value(id(0x40, 1), 2).peer, value(id(0x80, 1), 1).peer]);
}

#[test]
fn a_hint_is_promoted_with_its_handles() {
    let mut list = empty_list();
    assert!(list.add_dht(value(id(0x80, 1), 1)));
    // the value offered is set aside: the hint's own handles stay
    assert!(list.add_stable(id(0x80, 1), value(id(0x80, 1), 77), true));
    assert_eq!(list.stable_all(), vec![(id(0x80, 1), (SessionHandle(1), true))]);
    assert!(list.dht_keys().is_empty());
    assert_eq!(list.records(), vec![(value(id(0x80, 1), 1).peer, true, true)]);
}

#[test]
fn dht_to_stable_and_back() {
    let mut list = empty_list();
    assert!(list.add_dht(value(id(0x80, 1), 1)));
    let e = list.dht_to_stable(&id(0x80, 2)).unwrap_err();
    assert_eq!(format!("{}", e), "peer is not in the DHT.");
    assert!(list.dht_to_stable(&id(0x80, 1)).is_ok());
    assert!(list.dht_to_stable(&id(0x80, 1)).is_err());
    assert_eq!(list.stable_all(), vec![(id(0x80, 1), (SessionHandle(1), true))]);
    assert!(list.stable_to_dht(&id(0x80, 1)).unwrap().is_empty());
    let e = list.stable_to_dht(&id(0x80, 1)).unwrap_err();
    assert_eq!(format!("{}", e), "peer is not stable.");
    assert_eq!(list.dht_keys(), vec![id(0x80, 1)]);
    assert!(list.stable_all().is_empty());
    assert_eq!(list.get(&id(0x80, 1)), Some((SessionHandle(1), StreamHandle(101), true)));
}

#[test]
fn a_relayed_peer_needs_its_relay() {
    let mut list = empty_list();
    let relay = id(0x80, 1);
    let far = id(0x40, 1);
    // no relay registered
    assert!(!list.add_stable(far, relayed(far, 2, relay), false));
    // no relay named
    assert!(!list.add_stable(far, value(far, 2), false));
    assert!(list.is_empty());
    assert!(list.add_dht(value(relay, 1)));
    assert!(list.add_stable(far, relayed(far, 2, relay), false));
    assert_eq!(list.is_relay(&far), Some(SessionHandle(2)));
    assert_eq!(list.is_relay(&relay), None);
    assert_eq!(list.is_relay(&id(9, 9)), None);
    assert_eq!(list.stable_all(), vec![(far, (SessionHandle(2), false))]);
    assert_eq!(list.records()[1], (relayed(far, 2, relay).peer, false, true));
    // a relayed peer is no relay for another
    let farther = id(0x20, 1);
    assert!(!list.add_stable(farther, relayed(farther, 3, far), false));
}

#[test]
fn a_relayed_peer_becomes_direct() {
    let mut list = empty_list();
    let relay = id(0x80, 1);
    let far = id(0x40, 1);
    assert!(list.add_dht(value(relay, 1)));
    assert!(list.add_stable(far, relayed(far, 2, relay), false));
    // a second relayed offer changes nothing
    assert!(list.add_stable(far, relayed(far, 5, relay), false));
    assert_eq!(list.is_relay(&far), Some(SessionHandle(2)));
    assert!(list.add_stable(far, value(far, 9), true));
    assert_eq!(list.is_relay(&far), None);
    assert_eq!(list.stable_all(), vec![(far, (SessionHandle(9), true))]);
    assert_eq!(list.all().len(), 2);
}

#[test]
fn a_stored_value_is_filed_under_the_given_id() {
    let mut list = empty_list();
    assert!(list.add_stable(id(0x40, 1), value(id(0x40, 2), 2), true));
    assert_eq!(list.stable_all(), vec![(id(0x40, 1), (SessionHandle(2), true))]);
    assert_eq!(list.get(&id(0x40, 2)), None);
}

#[test]
fn removing_a_relay_takes_its_relayed_peers_along() {
    let mut list = empty_list();
    let relay = id(0x80, 1);
    let other = id(0x81, 1);
    let far = id(0x40, 1);
    let farther = id(0x20, 1);
    assert!(list.add_dht(value(relay, 1)));
    assert!(list.add_dht(value(other, 2)));
    assert!(list.add_stable(far, relayed(far, 3, relay), false));
    assert!(list.add_stable(farther, relayed(farther, 4, other), false));
    let left = list.remove(&relay);
    assert_eq!(
        left,
        vec![
            Entry { value: value(relay, 1), category: Category::Dht },
            Entry { value: relayed(far, 3, relay), category: Category::StableRelay(relay) },
        ]
    );
    assert_eq!(list.all(), vec![(other, SessionHandle(2)), (farther, SessionHandle(4))]);
    assert!(list.remove(&relay).is_empty());
    let left = list.remove(&farther);
    assert_eq!(left.len(), 1);
    assert_eq!(list.all(), vec![(other, SessionHandle(2))]);
}

#[test]
fn a_relayed_peer_that_leaves_stable_leaves_the_registry() {
    let mut list = empty_list();
    let relay = id(0x80, 1);
    let far = id(0x40, 1);
    assert!(list.add_dht(value(relay, 1)));
    assert!(list.add_stable(far, relayed(far, 3, relay), false));
    let left = list.stable_to_dht(&far).unwrap();
    assert_eq!(
        left,
        vec![Entry { value: relayed(far, 3, relay), category: Category::StableRelay(relay) }]
    );
    assert_eq!(list.all(), vec![(relay, SessionHandle(1))]);
}

#[test]
fn peer_disconnect_goes_by_socket() {
    let mut list = empty_list();
    let relay = id(0x80, 1);
    let far = id(0x40, 1);
    assert!(list.add_dht(value(relay, 1)));
    assert!(list.add_dht(value(id(0x81, 1), 2)));
    assert!(list.add_stable(far, relayed(far, 3, relay), false));
    assert!(list.peer_disconnect(&addr(9999)).is_empty());
    assert_eq!(list.all().len(), 3);
    let left = list.peer_disconnect(&addr(7001));
    assert_eq!(left.len(), 2);
    assert_eq!(left[0].value, value(relay, 1));
    assert_eq!(left[1].value, relayed(far, 3, relay));
    assert_eq!(list.all(), vec![(id(0x81, 1), SessionHandle(2))]);
}

#[test]
fn a_peer_is_in_one_category_at_most() {
    let mut list = PeerList::load(id(0, 0), vec![], vec![], (vec![id(0x10, 0)], vec![]));
    let ids = [id(0x80, 1), id(0x40, 1), id(0x10, 0), id(0x20, 5)];
    let count = |list: &PeerList, id: &PeerId| {
        let in_dht = list.dht_keys().contains(id) as u8;
        let in_stable = list.stable_all().iter().any(|row| row.0 == *id) as u8;
        let blocked = list.is_block_peer(id) as u8;
        in_dht + in_stable + blocked
    };
    let check = |list: &PeerList| {
        for one in ids.iter() {
            assert!(count(list, one) <= 1);
        }
    };
    check(&list);
    for one in ids.iter() {
        list.add_dht(value(*one, 1));
        check(&list);
    }
    for one in ids.iter() {
        list.add_stable(*one, value(*one, 2), true);
        check(&list);
        let _ = list.dht_to_stable(one);
        check(&list);
    }
    for one in ids.iter() {
        let _ = list.stable_to_dht(one);
        check(&list);
        list.add_dht(value(*one, 3));
        check(&list);
    }
    assert_eq!(count(&list, &id(0x10, 0)), 1);
    assert_eq!(count(&list, &id(0x80, 1)), 1);
    assert_eq!(count(&list, &id(0x77, 7)), 0);
}

#[test]
fn stable_session_is_for_stable_peers_only() {
    let mut list = empty_list();
    assert!(list.add_dht(value(id(0x80, 1), 1)));
    assert!(list.add_stable(id(0x40, 1), value(id(0x40, 1), 2), true));
    assert_eq!(list.stable_session(&id(0x80, 1)), None);
    assert_eq!(list.stable_session(&id(0x40, 1)), Some(SessionHandle(2)));
    assert_eq!(list.stable_session(&id(0x41, 1)), None);
}
