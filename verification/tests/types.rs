use chamomile::distance::{bucket, closer};
use chamomile::keys::SessionKey;
use chamomile::message::delivery_split;
use chamomile::peer::{rewrite_socket, IpAddress, Peer, SocketAddress};
use chamomile::types::{new_io_error, Broadcast, PeerId, TransportStream, TransportType};

fn counting_id() -> PeerId {
    let mut raw = [0u8; 32];
    for i in 0..32 {
        raw[i] = i as u8;
    }
    PeerId(raw)
}

fn id(first: u8, last: u8) -> PeerId {
    let mut raw = [0u8; 32];
    raw[0] = first;
    raw[31] = last;
    PeerId(raw)
}

#[test]
fn io_error_carries_kind_and_message() {
    let e = new_io_error("peer hex failure.");
    assert_eq!(e.kind(), std::io::ErrorKind::Other);
    assert_eq!(format!("{}", e), "peer hex failure.");
}

#[test]
fn to_hex_writes_two_lower_case_digits_per_byte() {
    assert_eq!(
        counting_id().to_hex(),
        "000102030405060708090a0b0c0d0e0f101112131415161718191a1b1c1d1e1f"
    );
    assert_eq!(PeerId([0xab; 32]).to_hex(), "ab".repeat(32));
    assert_eq!(PeerId::default().to_hex(), "0".repeat(64));
}

#[test]
fn short_show_keeps_four_digits_and_five() {
    assert_eq!(counting_id().short_show(), "0x0001...d1e1f");
    assert_eq!(PeerId([0xff; 32]).short_show(), "0xffff...fffff");
}

#[test]
fn hex_round_trip() {
    let ids = [counting_id(), PeerId::default(), PeerId([0xff; 32]), id(0x80, 0x01)];
    for one in ids.iter() {
        let text = one.to_hex();
        assert_eq!(text.len(), 64);
        assert_eq!(PeerId::from_hex(&text).unwrap(), *one);
    }
}

#[test]
fn bytes_round_trip() {
    let one = counting_id();
    assert_eq!(PeerId::from_bytes(one.as_bytes()).unwrap(), one);
    assert_eq!(PeerId::from_bytes(&one.to_bytes()).unwrap(), one);
    assert_eq!(one.as_bytes().len(), 32);
    assert_eq!(one.to_bytes(), (0u8..32).collect::<Vec<u8>>());
}

#[test]
fn from_bytes_wants_32_bytes() {
    let short = PeerId::from_bytes(&[1u8; 31]).unwrap_err();
    assert_eq!(format!("{}", short), "peer id bytes failure.");
    assert!(PeerId::from_bytes(&[1u8; 33]).is_err());
    assert!(PeerId::from_bytes(&[]).is_err());
    assert_eq!(PeerId::from_bytes(&[7u8; 32]).unwrap(), PeerId([7u8; 32]));
}

#[test]
fn from_hex_reads_both_cases() {
    let upper = "AB".repeat(32);
    assert_eq!(PeerId::from_hex(&upper).unwrap(), PeerId([0xab; 32]));
    let mixed = "aB".repeat(32);
    assert_eq!(PeerId::from_hex(&mixed).unwrap(), PeerId([0xab; 32]));
    let text = "000102030405060708090a0b0c0d0e0f101112131415161718191a1b1c1d1e1f";
    assert_eq!(PeerId::from_hex(text).unwrap(), counting_id());
}

#[test]
fn from_hex_refuses_other_lengths() {
    for text in ["", "ab", &"a".repeat(63), &"a".repeat(65), &"a".repeat(128)] {
        let e = PeerId::from_hex(text).unwrap_err();
        assert_eq!(format!("{}", e), "peer bytes failure.");
    }
}

#[test]
fn from_hex_refuses_what_is_no_digit() {
    let mut text = "a".repeat(63);
    text.push('g');
    let e = PeerId::from_hex(&text).unwrap_err();
    assert_eq!(format!("{}", e), "peer hex failure.");
    let signed = format!("+a{}", "0".repeat(62));
    assert!(PeerId::from_hex(&signed).is_err());
    let spaced = format!(" {}", "0".repeat(63));
    assert!(PeerId::from_hex(&spaced).is_err());
    let accented = format!("{}\u{e9}", "0".repeat(63));
    assert_eq!(accented.chars().count(), 64);
    assert!(PeerId::from_hex(&accented).is_err());
    let two_bytes = format!("{}\u{e9}", "0".repeat(62));
    assert_eq!(two_bytes.len(), 64);
    assert!(PeerId::from_hex(&two_bytes).is_err());
}

#[test]
fn default_id_is_all_zero() {
    assert_eq!(PeerId::default(), PeerId([0u8; 32]));
    assert_eq!(PeerId::zero(), PeerId([0u8; 32]));
}

#[test]
fn ids_compare_by_their_bytes() {
    assert!(id(1, 2) == id(1, 2));
    assert!(id(1, 2) != id(1, 3));
    assert!(id(1, 2) != id(2, 2));
}

#[test]
fn transport_byte_round_trip() {
    let kinds = [TransportType::QUIC, TransportType::TCP, TransportType::RTP, TransportType::UDT];
    for (n, kind) in kinds.iter().enumerate() {
        assert_eq!(kind.to_byte(), n as u8);
        assert_eq!(TransportType::from_byte(n as u8).unwrap(), *kind);
        assert_eq!(TransportType::from_byte(kind.to_byte()).unwrap(), *kind);
    }
}

#[test]
fn transport_byte_four_is_an_error() {
    let e = TransportType::from_byte(4).unwrap_err();
    assert_eq!(format!("{}", e), "transport bytes failure.");
    assert_eq!(e.kind(), std::io::ErrorKind::Other);
    assert!(TransportType::from_byte(5).is_err());
    assert!(TransportType::from_byte(255).is_err());
}

#[test]
fn transport_names() {
    assert_eq!(TransportType::QUIC.to_str(), "quic");
    assert_eq!(TransportType::TCP.to_str(), "tcp");
    assert_eq!(TransportType::RTP.to_str(), "rtp");
    assert_eq!(TransportType::UDT.to_str(), "udt");
    assert_eq!(TransportType::from_str("quic"), TransportType::QUIC);
    assert_eq!(TransportType::from_str("tcp"), TransportType::TCP);
    assert_eq!(TransportType::from_str("rtp"), TransportType::RTP);
    assert_eq!(TransportType::from_str("udt"), TransportType::UDT);
}

#[test]
fn unknown_transport_name_is_quic() {
    assert_eq!(TransportType::from_str(""), TransportType::QUIC);
    assert_eq!(TransportType::from_str("TCP"), TransportType::QUIC);
    assert_eq!(TransportType::from_str("tcp "), TransportType::QUIC);
    assert_eq!(TransportType::from_str("tc"), TransportType::QUIC);
    assert_eq!(TransportType::from_str("sctp"), TransportType::QUIC);
}

#[test]
fn broadcast_kinds_differ() {
    assert_ne!(Broadcast::Gossip, Broadcast::StableAll);
    assert_eq!(Broadcast::Gossip, Broadcast::Gossip);
}

#[test]
fn transport_stream_hands_its_ends_back() {
    let (sender, receiver) = tokio::sync::mpsc::channel::<Vec<u8>>(4);
    let stream = TransportStream::new(TransportType::TCP, sender, receiver);
    assert_eq!(stream.transport(), TransportType::TCP);
    let (sender, mut receiver) = stream.channel();
    sender.try_send(vec![1, 2, 3]).unwrap();
    assert_eq!(receiver.try_recv().unwrap(), vec![1, 2, 3]);
}

#[test]
fn transport_streams_compare_by_kind() {
    let (s1, r1) = tokio::sync::mpsc::channel::<Vec<u8>>(1);
    let (s2, r2) = tokio::sync::mpsc::channel::<Vec<u8>>(1);
    let (s3, r3) = tokio::sync::mpsc::channel::<Vec<u8>>(1);
    let a = TransportStream::new(TransportType::TCP, s1, r1);
    let b = TransportStream::new(TransportType::TCP, s2, r2);
    let c = TransportStream::new(TransportType::QUIC, s3, r3);
    assert!(a == b);
    assert!(a != c);
}

#[test]
fn closer_compares_xor_distances() {
    let target = id(0, 0);
    assert!(closer(&id(0, 1), &id(0, 2), &target));
    assert!(!closer(&id(0, 2), &id(0, 1), &target));
    assert!(!closer(&id(0, 1), &id(0, 1), &target));
    assert!(closer(&id(0, 255), &id(1, 0), &target));
    // seen from 0x03, 0x02 is at distance 1 and 0x01 at distance 2
    let near = id(0, 3);
    assert!(closer(&id(0, 2), &id(0, 1), &near));
    assert!(closer(&near, &id(0, 2), &near));
}

#[test]
fn bucket_counts_shared_leading_bits() {
    let own = id(0, 0);
    assert_eq!(bucket(&own, &id(0x80, 0)), 0);
    assert_eq!(bucket(&own, &id(0xff, 0)), 0);
    assert_eq!(bucket(&own, &id(0x40, 0)), 1);
    assert_eq!(bucket(&own, &id(0x01, 0)), 7);
    assert_eq!(bucket(&own, &id(0, 0x80)), 248);
    assert_eq!(bucket(&own, &id(0, 1)), 255);
    assert_eq!(bucket(&own, &own), 256);
    assert_eq!(bucket(&id(0xf0, 0), &id(0xf8, 0)), 4);
}

#[test]
fn descriptors() {
    let addr = SocketAddress { ip: IpAddress::V4(0x7f00_0001), port: 7001 };
    let by_socket = Peer::socket(addr);
    assert_eq!(by_socket.id, PeerId::default());
    assert_eq!(by_socket.socket, addr);
    assert_eq!(by_socket.transport, TransportType::QUIC);
    assert!(by_socket.effective_socket());
    assert!(!by_socket.effective_id());
    let by_id = Peer::peer(id(9, 9));
    assert_eq!(by_id.id, id(9, 9));
    assert_eq!(by_id.socket, SocketAddress::unspecified());
    assert_eq!(by_id.assist, None);
    assert!(!by_id.effective_socket());
    assert!(by_id.effective_id());
    let mut bound = by_socket;
    bound.zero_port();
    assert_eq!(bound.socket, SocketAddress { ip: IpAddress::V4(0x7f00_0001), port: 0 });
    assert!(!bound.effective_socket());
}

#[test]
fn reported_socket_gives_way_to_the_observed_one() {
    let told = SocketAddress { ip: IpAddress::V4(0x0a00_0001), port: 7001 };
    let seen = SocketAddress { ip: IpAddress::V4(0xc0a8_0001), port: 40000 };
    let mut peer = Peer::socket(told);
    peer.id = id(3, 3);
    peer.transport = TransportType::TCP;
    let rewritten = rewrite_socket(seen, peer);
    assert_eq!(rewritten.socket, seen);
    assert_eq!(rewritten.id, id(3, 3));
    assert_eq!(rewritten.transport, TransportType::TCP);
    assert_eq!(rewrite_socket(told, peer), peer);
}

#[test]
fn delivery_head_is_a_bounded_prefix() {
    let data = vec![1u8, 2, 3, 4, 5];
    assert_eq!(delivery_split(&data, 8), vec![1, 2, 3, 4, 5]);
    assert_eq!(delivery_split(&data, 5), vec![1, 2, 3, 4, 5]);
    assert_eq!(delivery_split(&data, 3), vec![1, 2, 3]);
    assert_eq!(delivery_split(&data, 0), Vec::<u8>::new());
    assert_eq!(delivery_split(&Vec::new(), 4), Vec::<u8>::new());
}

#[test]
fn half_open_key_neither_sends_nor_accepts() {
    let mut key = SessionKey::half_open(1, vec![9, 9]);
    assert!(!key.is_complete());
    assert_eq!(key.out_bytes(), vec![9, 9]);
    assert_eq!(key.name(), 1);
    assert_eq!(key.next_sequence(), None);
    assert!(!key.accept(1));
    assert!(!key.complete(false));
    assert!(!key.accept(1));
    assert!(key.complete(true));
    assert!(key.is_complete());
    assert!(key.accept(1));
}

#[test]
fn accepted_frames_have_rising_numbers() {
    let mut key = SessionKey::completed(2, vec![]);
    let arrivals = [3u64, 1, 3, 4, 4, 2, 10, 0, 11];
    let mut accepted = Vec::new();
    for seq in arrivals {
        if key.accept(seq) {
            accepted.push(seq);
        }
    }
    assert_eq!(accepted, vec![3, 4, 10, 11]);
    let mut zero = SessionKey::completed(3, vec![]);
    assert!(zero.accept(0));
    assert!(!zero.accept(0));
}

#[test]
fn sent_frames_are_numbered_from_one() {
    let mut key = SessionKey::completed(4, vec![1]);
    assert_eq!(key.next_sequence(), Some(1));
    assert_eq!(key.next_sequence(), Some(2));
    assert_eq!(key.next_sequence(), Some(3));
}
