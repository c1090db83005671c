use tezedge_firewall::classifier::{classify, parse_tcp_headers, Action};
use tezedge_firewall::endpoint::{Endpoint, EndpointPair};
use tezedge_firewall::event::{BlockingReason, DecodeError, Event, EventInner};
use tezedge_firewall::policy::{apply_command, command_op, event_reason, handle_event, Command, CommandError, IpAddress, MapOp, SocketAddress};
use tezedge_firewall::status::Status;
use tezedge_firewall::store::StateStore;

fn frame(src: [u8; 4], sport: u16, dst: [u8; 4], dport: u16, payload: &[u8]) -> Vec<u8> {
    let mut f = vec![0u8; 12];
    f.extend_from_slice(&[0x08, 0x00]);
    let total = (20 + 20 + payload.len()) as u16;
    f.extend_from_slice(&[0x45, 0, (total >> 8) as u8, total as u8, 0, 0, 0x40, 0, 64, 6, 0, 0]);
    f.extend_from_slice(&src);
    f.extend_from_slice(&dst);
    f.extend_from_slice(&sport.to_be_bytes());
    f.extend_from_slice(&dport.to_be_bytes());
    f.extend_from_slice(&[0, 0, 0, 1, 0, 0, 0, 0, 0x50, 0x18, 0xff, 0xff, 0, 0, 0, 0]);
    f.extend_from_slice(payload);
    f
}

fn pow_payload() -> Vec<u8> {
    (0..60u8).collect()
}

const LOCAL: [u8; 4] = [10, 0, 0, 1];

#[test]
fn endpoint_round_trip() {
    let e = Endpoint::new([10, 0, 0, 5], 4001);
    let b = e.encode();
    assert_eq!(b, vec![10, 0, 0, 5, 0x0f, 0xa1]);
    assert_eq!(Endpoint::decode(&b), Some(e));
    assert_eq!(e.port_number(), 4001);
    assert_eq!(e.ip_number(), 0x0a00_0005);
    assert_eq!(e.key(), 0x0a00_0005_0fa1);
    assert_eq!(Endpoint::decode(&b[..5]), None);
}

#[test]
fn pair_round_trip_keeps_field_order() {
    let p = EndpointPair { remote: Endpoint::new([10, 0, 0, 5], 4001), local: Endpoint::new(LOCAL, 9732) };
    let b = p.encode();
    assert_eq!(b, vec![10, 0, 0, 1, 0x26, 0x04, 10, 0, 0, 5, 0x0f, 0xa1]);
    assert_eq!(EndpointPair::decode(&b), Some(p));
    assert_eq!(EndpointPair::decode(&[0u8; 11]), None);
    assert_eq!(p.key(), 0x0a00_0001_2604_0a00_0005_0fa1u128);
}

#[test]
fn event_round_trip_all_kinds() {
    let pair = EndpointPair { remote: Endpoint::new([1, 2, 3, 4], 5), local: Endpoint::new(LOCAL, 9732) };
    let mut pow = [0u8; 56];
    for (i, b) in pow.iter_mut().enumerate() {
        *b = i as u8 + 7;
    }
    let kinds = [
        EventInner::ReceivedPow(pow),
        EventInner::NotEnoughBytesForPow,
        EventInner::BlockedAlreadyConnected {
            already_connected: Endpoint::new([1, 2, 3, 4], 6),
            try_connect: Endpoint::new([1, 2, 3, 4], 5),
        },
    ];
    for (d, k) in kinds.iter().enumerate() {
        let inner = k.encode();
        assert_eq!(inner.len(), 60);
        assert_eq!(&inner[0..4], &(d as u32).to_le_bytes());
        assert_eq!(EventInner::decode(&inner), Ok(*k));
        let e = Event { pair, event: *k };
        let b = e.encode();
        assert_eq!(b.len(), 72);
        assert_eq!(Event::decode(&b), Ok(e));
    }
    let b = EventInner::BlockedAlreadyConnected {
        already_connected: Endpoint::new([1, 2, 3, 4], 6),
        try_connect: Endpoint::new([1, 2, 3, 4], 5),
    }
    .encode();
    assert_eq!(&b[4..16], &[1, 2, 3, 4, 0, 6, 1, 2, 3, 4, 0, 5]);
    assert!(b[16..].iter().all(|x| *x == 0));
}

#[test]
fn event_decode_errors() {
    assert_eq!(EventInner::decode(&[0u8; 59]), Err(DecodeError::WrongLength));
    let mut b = [0u8; 60];
    b[0] = 3;
    assert_eq!(EventInner::decode(&b), Err(DecodeError::UnknownKind(3)));
    b[0] = 0;
    b[3] = 1;
    assert_eq!(EventInner::decode(&b), Err(DecodeError::UnknownKind(0x0100_0000)));
    assert_eq!(Event::decode(&[0u8; 60]), Err(DecodeError::WrongLength));
    let mut e = [0u8; 72];
    e[12] = 9;
    assert_eq!(Event::decode(&e), Err(DecodeError::UnknownKind(9)));
}

#[test]
fn status_flags() {
    let s = Status::empty();
    assert!(!s.is_blocked() && !s.is_pow_sent());
    let s = s.with_pow_sent();
    assert_eq!(s.bits, 2);
    let s = s.with_blocked();
    assert_eq!(s.bits, 3);
    assert!(s.is_blocked() && s.is_pow_sent());
    assert_eq!(s.with_blocked(), s);
}

#[test]
fn parses_headers_and_payload_offset() {
    let f = frame([10, 0, 0, 5], 4001, LOCAL, 9732, &[1, 2, 3]);
    let h = parse_tcp_headers(&f).unwrap();
    assert_eq!(h.pair.remote, Endpoint::new([10, 0, 0, 5], 4001));
    assert_eq!(h.pair.local, Endpoint::new(LOCAL, 9732));
    assert_eq!(h.payload_offset, 54);
    let mut udp = f.clone();
    udp[23] = 17;
    assert_eq!(parse_tcp_headers(&udp), None);
    let mut arp = f.clone();
    arp[13] = 6;
    assert_eq!(parse_tcp_headers(&arp), None);
    assert_eq!(parse_tcp_headers(&f[..40]), None);
}

#[test]
fn first_packet_bad_pow_blocks() {
    let mut store = StateStore::new();
    let payload = pow_payload();
    let f = frame([10, 0, 0, 5], 4001, LOCAL, 9732, &payload);
    let v = classify(&mut store, &f);
    assert_eq!(v.action, Action::Pass);
    let e = v.event.expect("one event");
    assert_eq!(e.pair.remote, Endpoint::new([10, 0, 0, 5], 4001));
    match e.event {
        EventInner::ReceivedPow(b) => assert_eq!(&b[..], &payload[4..60]),
        other => panic!("unexpected {:?}", other),
    }
    assert!(store.ip_status(&[10, 0, 0, 5]).is_pow_sent());
    let reason = handle_event(&mut store, &e, false);
    assert_eq!(reason, BlockingReason::BadProofOfWork);
    assert!(store.is_blocked(&[10, 0, 0, 5]));
    let v = classify(&mut store, &frame([10, 0, 0, 5], 4001, LOCAL, 9732, &[9]));
    assert_eq!(v.action, Action::Drop);
}

#[test]
fn valid_pow_leaves_store_alone() {
    let mut store = StateStore::new();
    let f = frame([10, 0, 0, 5], 4001, LOCAL, 9732, &pow_payload());
    let e = classify(&mut store, &f).event.unwrap();
    let before = store.ip_status(&[10, 0, 0, 5]);
    assert_eq!(handle_event(&mut store, &e, true), BlockingReason::NoBlocking);
    assert_eq!(store.ip_status(&[10, 0, 0, 5]), before);
    assert!(!store.is_blocked(&[10, 0, 0, 5]));
}

#[test]
fn block_then_drop() {
    let mut store = StateStore::new();
    let ip = [192, 168, 1, 10];
    assert_eq!(apply_command(&mut store, &Command::Block(IpAddress::V4(ip))), Ok(BlockingReason::EventFromTezedge));
    assert!(store.is_blocked(&ip));
    let v = classify(&mut store, &frame(ip, 5000, LOCAL, 9732, &[]));
    assert_eq!(v.action, Action::Drop);
}

#[test]
fn unblock_then_pass() {
    let mut store = StateStore::new();
    let ip = [192, 168, 1, 10];
    apply_command(&mut store, &Command::Block(IpAddress::V4(ip))).unwrap();
    assert_eq!(classify(&mut store, &frame(ip, 5000, LOCAL, 9732, &[])).action, Action::Drop);
    assert_eq!(apply_command(&mut store, &Command::Unblock(IpAddress::V4(ip))), Ok(BlockingReason::NoBlocking));
    assert!(!store.is_blocked(&ip));
    assert_eq!(store.blacklist.get(&0xc0a8_010a), None);
    assert_eq!(classify(&mut store, &frame(ip, 5000, LOCAL, 9732, &[])).action, Action::Pass);
    assert_eq!(classify(&mut store, &frame(ip, 5001, LOCAL, 9732, &[])).action, Action::Pass);
}

#[test]
fn second_connection_from_connected_address() {
    let mut store = StateStore::new();
    let pk = [7u8; 32];
    store.add_peer(pk, Endpoint::new([10, 0, 0, 7], 4001));
    let v = classify(&mut store, &frame([10, 0, 0, 7], 4002, LOCAL, 9732, &pow_payload()));
    let e = v.event.unwrap();
    assert_eq!(
        e.event,
        EventInner::BlockedAlreadyConnected {
            already_connected: Endpoint::new([10, 0, 0, 7], 4001),
            try_connect: Endpoint::new([10, 0, 0, 7], 4002),
        }
    );
    assert_eq!(handle_event(&mut store, &e, true), BlockingReason::AlreadyConnected);
    assert!(store.is_blocked(&[10, 0, 0, 7]));
    let v = classify(&mut store, &frame([10, 0, 0, 7], 4001, LOCAL, 9732, &[]));
    assert_eq!(v.action, Action::Drop);
}

#[test]
fn block_twice_is_block_once() {
    let mut once = StateStore::new();
    let mut twice = StateStore::new();
    let ip = [1, 1, 1, 1];
    once.block_ip(ip);
    twice.block_ip(ip);
    twice.block_ip(ip);
    assert_eq!(once.blacklist, twice.blacklist);
    assert_eq!(twice.ip_status(&ip).bits, 1);
}

#[test]
fn unblock_absent_is_noop() {
    let mut store = StateStore::new();
    store.block_ip([2, 2, 2, 2]);
    let before = store.blacklist.clone();
    assert_eq!(apply_command(&mut store, &Command::Unblock(IpAddress::V4([3, 3, 3, 3]))), Ok(BlockingReason::NoBlocking));
    assert_eq!(store.blacklist, before);
}

#[test]
fn pow_sent_is_never_captured_again() {
    let mut store = StateStore::new();
    let ip = [10, 0, 0, 9];
    let first = classify(&mut store, &frame(ip, 4001, LOCAL, 9732, &pow_payload()));
    assert!(matches!(first.event.unwrap().event, EventInner::ReceivedPow(_)));
    for port in [4001u16, 4002, 4003] {
        let v = classify(&mut store, &frame(ip, port, LOCAL, 9732, &pow_payload()));
        assert!(v.event.is_none());
        assert!(store.ip_status(&ip).is_pow_sent());
    }
}

#[test]
fn allowlisted_ports_always_pass() {
    let mut store = StateStore::new();
    let ip = [10, 0, 0, 20];
    store.block_ip(ip);
    for port in [80u16, 443] {
        let v = classify(&mut store, &frame(ip, port, LOCAL, 9732, &pow_payload()));
        assert_eq!(v.action, Action::Pass);
        assert!(v.event.is_none());
        assert!(!store.ip_status(&ip).is_pow_sent());
    }
    assert!(store.pairs.is_empty());
    assert_eq!(classify(&mut store, &frame(ip, 81, LOCAL, 9732, &[])).action, Action::Drop);
}

#[test]
fn short_payload_is_not_enough() {
    let mut store = StateStore::new();
    let ip = [10, 0, 0, 30];
    let v = classify(&mut store, &frame(ip, 4001, LOCAL, 9732, &[1u8; 59]));
    assert_eq!(v.event.unwrap().event, EventInner::NotEnoughBytesForPow);
    assert!(store.ip_status(&ip).is_pow_sent());
    assert_eq!(handle_event(&mut store, &v.event.unwrap(), true), BlockingReason::BadProofOfWork);
    assert!(store.is_blocked(&ip));
}

#[test]
fn empty_payload_from_new_address_is_not_enough() {
    let mut store = StateStore::new();
    let ip = [10, 0, 0, 31];
    let v = classify(&mut store, &frame(ip, 4001, LOCAL, 9732, &[]));
    assert_eq!(v.action, Action::Pass);
    let e = v.event.expect("one event");
    assert_eq!(e.event, EventInner::NotEnoughBytesForPow);
    assert_eq!(e.pair.remote, Endpoint::new(ip, 4001));
    assert!(store.ip_status(&ip).is_pow_sent());
    assert_eq!(store.pairs.len(), 1);
    assert_eq!(handle_event(&mut store, &e, true), BlockingReason::BadProofOfWork);
    assert!(store.is_blocked(&ip));
    let v = classify(&mut store, &frame(ip, 4001, LOCAL, 9732, &pow_payload()));
    assert!(v.event.is_none());
    assert_eq!(v.action, Action::Drop);
}

#[test]
fn tcp_data_offset_below_five_passes_untouched() {
    let mut store = StateStore::new();
    let ip = [10, 0, 0, 33];
    store.block_ip(ip);
    let mut f = frame(ip, 4001, LOCAL, 9732, &pow_payload());
    f[14 + 20 + 12] = 0x40;
    assert_eq!(parse_tcp_headers(&f), None);
    let v = classify(&mut store, &f);
    assert_eq!(v.action, Action::Pass);
    assert!(v.event.is_none());
    assert!(store.pairs.is_empty());
    assert!(!store.ip_status(&ip).is_pow_sent());
}

#[test]
fn unchanged_pair_emits_nothing() {
    let mut store = StateStore::new();
    let ip = [10, 0, 0, 32];
    classify(&mut store, &frame(ip, 4001, LOCAL, 9732, &pow_payload()));
    let pairs = store.pairs.clone();
    let list = store.blacklist.clone();
    let v = classify(&mut store, &frame(ip, 4001, LOCAL, 9732, &pow_payload()));
    assert!(v.event.is_none());
    assert_eq!(store.pairs, pairs);
    assert_eq!(store.blacklist, list);
}

#[test]
fn non_tcp_and_truncated_frames_pass() {
    let mut store = StateStore::new();
    store.block_ip([10, 0, 0, 40]);
    let mut f = frame([10, 0, 0, 40], 4001, LOCAL, 9732, &[]);
    f[23] = 17;
    assert_eq!(classify(&mut store, &f).action, Action::Pass);
    assert_eq!(classify(&mut store, &f[..20]).action, Action::Pass);
    assert!(store.pairs.is_empty());
}

#[test]
fn commands_map_to_mutations() {
    let ep = Endpoint::new([5, 6, 7, 8], 9000);
    assert_eq!(command_op(&Command::FilterLocalPort(9732)), Ok(MapOp::FilterLocalPort(9732)));
    assert_eq!(command_op(&Command::FilterRemoteAddr(SocketAddress::V4(ep))), Ok(MapOp::FilterRemoteAddr(ep)));
    assert_eq!(command_op(&Command::Disconnected(SocketAddress::V4(ep), [1; 32])), Ok(MapOp::RemovePeer([1; 32])));
    assert_eq!(command_op(&Command::Block(IpAddress::V6([0; 16]))), Err(CommandError::Unimplemented));
    assert_eq!(command_op(&Command::Unblock(IpAddress::V6([0; 16]))), Err(CommandError::Unimplemented));
    assert_eq!(command_op(&Command::FilterRemoteAddr(SocketAddress::V6([0; 16], 1))), Err(CommandError::Unimplemented));
}

#[test]
fn filter_and_disconnect_commands() {
    let mut store = StateStore::new();
    let ep = Endpoint::new([5, 6, 7, 8], 9000);
    apply_command(&mut store, &Command::FilterLocalPort(9732)).unwrap();
    assert_eq!(store.node_ports.get(&9732), Some(&0));
    apply_command(&mut store, &Command::FilterRemoteAddr(SocketAddress::V4(ep))).unwrap();
    assert_eq!(store.pending_peers.get(&ep.key()), Some(&0));
    store.add_peer([1; 32], ep);
    store.add_peer([2; 32], Endpoint::new([9, 9, 9, 9], 1));
    store.add_peer([1; 32], Endpoint::new([5, 6, 7, 8], 9001));
    assert_eq!(store.peers.len(), 2);
    apply_command(&mut store, &Command::Disconnected(SocketAddress::V4(ep), [1; 32])).unwrap();
    assert_eq!(store.peers.len(), 1);
    assert_eq!(store.peers[0].public_key, [2; 32]);
    apply_command(&mut store, &Command::Disconnected(SocketAddress::V4(ep), [3; 32])).unwrap();
    assert_eq!(store.peers.len(), 1);
    let before = store.blacklist.clone();
    assert_eq!(apply_command(&mut store, &Command::Block(IpAddress::V6([1; 16]))), Err(CommandError::Unimplemented));
    assert_eq!(store.blacklist, before);
}

#[test]
fn event_reasons() {
    assert_eq!(event_reason(&EventInner::ReceivedPow([0; 56]), true), BlockingReason::NoBlocking);
    assert_eq!(event_reason(&EventInner::ReceivedPow([0; 56]), false), BlockingReason::BadProofOfWork);
    assert_eq!(event_reason(&EventInner::NotEnoughBytesForPow, true), BlockingReason::BadProofOfWork);
}
