use safa_core::arp::ARP;
use safa_core::net::{
    calculate_checksum_of, handle_dest_unreachable_for_icmp, handle_icmp_packet, pending_key, send_echo_request,
    unreachable_error, EchoIcmpPacket, ICMPCode, IcmpAction, IcmpPacket, MacAddress, SocketError, ECHO_REPLY_TTL,
};
use safa_core::table::{HandleTable, IdSlab};
use safa_core::udp::{bind_socket, handle_udp_packet, remove_socket, UDPHeader, UDPPacket};

/// The internet checksum, computed independently of the library.
fn reference_checksum(b: &[u8]) -> u16 {
    let mut sum: u32 = 0;
    let mut i = 0;
    while i + 1 < b.len() {
        sum += u32::from(u16::from_be_bytes([b[i], b[i + 1]]));
        i += 2;
    }
    if i < b.len() {
        sum += u32::from(b[i]) << 8;
    }
    while sum > 0xffff {
        sum = (sum & 0xffff) + (sum >> 16);
    }
    !(sum as u16)
}

fn echo_request(id: u16, seq: u16, payload: &[u8]) -> Vec<u8> {
    let mut b = vec![8u8, 0, 0, 0];
    b.extend_from_slice(&id.to_be_bytes());
    b.extend_from_slice(&seq.to_be_bytes());
    b.extend_from_slice(payload);
    let c = reference_checksum(&b);
    b[2..4].copy_from_slice(&c.to_be_bytes());
    b
}

#[test]
fn checksum_known_vector() {
    // the example of RFC 1071
    let b = [0x00u8, 0x01, 0xf2, 0x03, 0xf4, 0xf5, 0xf6, 0xf7];
    assert_eq!(calculate_checksum_of(&b), 0x220d);
    assert_eq!(calculate_checksum_of(&b), reference_checksum(&b));
    assert_eq!(calculate_checksum_of(&[]), 0xffff);
    // a trailing odd byte is left out of the sum
    assert_eq!(calculate_checksum_of(&[0x12, 0x34, 0x56]), !0x1234u16);
}

#[test]
fn checksum_of_checksummed_message_is_zero() {
    let mut p = IcmpPacket::new(echo_request(7, 1, b"abcdef")).unwrap();
    p.set_checksum(0);
    p.put_checksum();
    assert_eq!(p.calculate_checksum(), 0);
    assert_eq!(calculate_checksum_of(p.as_bytes()), 0);
}

#[test]
fn echo_request_is_answered() {
    let mut pending = HandleTable::new();
    let req = echo_request(0x1234, 1, b"ping");
    let from = [10, 0, 0, 2];
    let us = [10, 0, 0, 1];
    match handle_icmp_packet(from, us, req.clone(), &mut pending) {
        IcmpAction::SendEchoReply { to, from: f, ttl, packet } => {
            assert_eq!(to, from);
            assert_eq!(f, us);
            assert_eq!(ttl, ECHO_REPLY_TTL);
            assert_eq!(packet[0], 0);
            assert_eq!(&packet[4..], &req[4..]);
            assert_eq!(reference_checksum(&packet), 0);
        }
        other => panic!("unexpected action {:?}", other),
    }
    assert_eq!(pending.len(), 0);
}

#[test]
fn bad_checksum_or_short_message_is_ignored() {
    let mut pending = HandleTable::new();
    let mut req = echo_request(1, 1, b"xy");
    req[6] ^= 0xff;
    assert!(matches!(handle_icmp_packet([1, 1, 1, 1], [2, 2, 2, 2], req, &mut pending), IcmpAction::Ignore));
    assert!(matches!(handle_icmp_packet([1, 1, 1, 1], [2, 2, 2, 2], vec![8, 0], &mut pending), IcmpAction::Ignore));
}

#[test]
fn ping_reply_reaches_the_sender() {
    let mut pending = HandleTable::new();
    let target = [192, 168, 1, 9];
    let us = [192, 168, 1, 2];
    let template = EchoIcmpPacket::new(IcmpPacket::new(echo_request(0, 3, b"hello!")).unwrap()).unwrap();
    let sent = send_echo_request(&mut pending, target, 42, &template, Some(0x0bad));
    assert_eq!(&sent[4..6], &[0x0b, 0xad]);
    assert_eq!(reference_checksum(&sent), 0);
    assert_eq!(pending.get(pending_key(target, 0x0bad)), Some(42));

    // the target answers as this kernel would
    let mut their_pending = HandleTable::new();
    let reply = match handle_icmp_packet(us, target, sent, &mut their_pending) {
        IcmpAction::SendEchoReply { packet, .. } => packet,
        other => panic!("unexpected action {:?}", other),
    };
    match handle_icmp_packet(target, us, reply, &mut pending) {
        IcmpAction::DeliverEchoReply { socket, from, .. } => {
            assert_eq!(socket, 42);
            assert_eq!(from, target);
        }
        other => panic!("unexpected action {:?}", other),
    }
    assert_eq!(pending.len(), 0);
}

#[test]
fn send_without_id_keeps_packet() {
    let mut pending = HandleTable::new();
    let bytes = echo_request(5, 5, b"zz");
    let template = EchoIcmpPacket::new(IcmpPacket::new(bytes.clone()).unwrap()).unwrap();
    let sent = send_echo_request(&mut pending, [1, 2, 3, 4], 9, &template, None);
    assert_eq!(sent, bytes);
    assert_eq!(pending.len(), 0);
}

fn dest_unreachable(code: u8, protocol: u8, target: [u8; 4], data: &[u8]) -> Vec<u8> {
    let mut b = vec![3u8, code, 0, 0, 0, 0, 0, 0];
    let mut ip = vec![0x45u8, 0, 0, 0, 0, 0, 0, 0, 64, protocol, 0, 0, 10, 0, 0, 1];
    ip.extend_from_slice(&target);
    b.extend_from_slice(&ip);
    b.extend_from_slice(data);
    let c = reference_checksum(&b);
    b[2..4].copy_from_slice(&c.to_be_bytes());
    b
}

#[test]
fn unreachable_echo_request_is_reported() {
    let mut pending = HandleTable::new();
    let target = [8, 8, 8, 8];
    // the identifier is read as it lies in memory, low byte first
    let offending = vec![8u8, 0, 0, 0, 0x34, 0x12, 0, 1];
    pending.insert(pending_key(target, 0x1234), 77);
    let msg = dest_unreachable(1, 1, target, &offending);
    match handle_icmp_packet([10, 0, 0, 254], [10, 0, 0, 1], msg, &mut pending) {
        IcmpAction::IcmpUnreachable { socket, error } => {
            assert_eq!(socket, 77);
            assert_eq!(error, SocketError::HostUnreachable);
        }
        other => panic!("unexpected action {:?}", other),
    }
    assert_eq!(pending.len(), 0);
}

#[test]
fn unreachable_udp_is_reported() {
    let mut pending = HandleTable::new();
    let msg = dest_unreachable(3, 17, [9, 9, 9, 9], &[0, 53, 0, 53]);
    match handle_icmp_packet([10, 0, 0, 254], [10, 0, 0, 1], msg, &mut pending) {
        IcmpAction::UdpUnreachable { error, target, data } => {
            assert_eq!(error, SocketError::ConnectionRefused);
            assert_eq!(target, [9, 9, 9, 9]);
            assert_eq!(data, vec![0, 53, 0, 53]);
        }
        other => panic!("unexpected action {:?}", other),
    }
    let unknown = dest_unreachable(99, 17, [9, 9, 9, 9], &[]);
    assert!(matches!(handle_icmp_packet([1, 0, 0, 1], [1, 0, 0, 2], unknown, &mut pending), IcmpAction::Ignore));
}

#[test]
fn unreachable_codes() {
    assert_eq!(unreachable_error(ICMPCode(0)), Some(SocketError::NetworkUnreachable));
    assert_eq!(unreachable_error(ICMPCode(1)), Some(SocketError::HostUnreachable));
    assert_eq!(unreachable_error(ICMPCode(2)), Some(SocketError::ProtocolUnreachable));
    assert_eq!(unreachable_error(ICMPCode(3)), Some(SocketError::ConnectionRefused));
    assert_eq!(unreachable_error(ICMPCode(4)), Some(SocketError::InvalidSize));
    assert_eq!(unreachable_error(ICMPCode(13)), Some(SocketError::MissingPermissions));
    assert_eq!(unreachable_error(ICMPCode(16)), None);
    assert_eq!(handle_dest_unreachable_for_icmp(vec![8, 0, 0]), Err(()));
    assert_eq!(handle_dest_unreachable_for_icmp(vec![8, 0, 0, 0, 1, 2, 0, 0]), Ok(Some(0x0201)));
    assert_eq!(handle_dest_unreachable_for_icmp(vec![0, 0, 0, 0]), Ok(None));
}

#[test]
fn udp_header_and_checksum() {
    let h = UDPHeader::new(1234, 53, 4);
    assert_eq!(h.as_bytes(), vec![0x04, 0xd2, 0x00, 0x35, 0x00, 0x0c, 0, 0]);
    assert_eq!(h.src_port(), 1234);
    assert_eq!(h.dst_port(), 53);
    assert_eq!(h.length(), 12);

    let mut bytes = h.as_bytes();
    bytes.extend_from_slice(b"abcd");
    let mut p = UDPPacket::try_from_bytes(&bytes).unwrap();
    let src = [10, 0, 0, 1];
    let dst = [10, 0, 0, 2];
    // pseudo header: addresses, zero, protocol 17, UDP length
    let mut pseudo = vec![10u8, 0, 0, 1, 10, 0, 0, 2, 0, 17, 0, 12];
    pseudo.extend_from_slice(&bytes);
    assert_eq!(p.calculate_checksum(src, dst), reference_checksum(&pseudo));
    p.put_checksum(src, dst);
    assert_eq!(p.calculate_checksum(src, dst), 0);
    assert_eq!(p.payload(), b"abcd".to_vec());
    assert!(UDPPacket::try_from_bytes(&[1, 2, 3]).is_err());
}

#[test]
fn udp_delivery_follows_bindings() {
    let mut ports = HandleTable::new();
    assert_eq!(bind_socket(&mut ports, 68, 5), Ok(()));
    assert_eq!(bind_socket(&mut ports, 68, 6), Err(()));
    let mut dgram = UDPHeader::new(67, 68, 3).as_bytes();
    dgram.extend_from_slice(&[1, 2, 3]);
    let d = handle_udp_packet(&ports, [192, 168, 0, 1], &dgram).unwrap();
    assert_eq!(d.socket, 5);
    assert_eq!(d.src_port, 67);
    assert_eq!(d.src_ip, [192, 168, 0, 1]);
    assert_eq!(d.payload, vec![1, 2, 3]);
    assert!(handle_udp_packet(&ports, [192, 168, 0, 1], &dgram[..4]).is_none());
    assert!(remove_socket(&mut ports, 68));
    assert!(!remove_socket(&mut ports, 68));
    assert!(handle_udp_packet(&ports, [192, 168, 0, 1], &dgram).is_none());
}

#[test]
fn handle_table_wrapper() {
    let mut t = HandleTable::new();
    assert_eq!(t.insert(3, 30), None);
    assert_eq!(t.insert(3, 31), Some(30));
    assert!(!t.try_insert(3, 32));
    assert!(t.try_insert(4, 40));
    assert_eq!(t.get(3), Some(31));
    assert_eq!(t.len(), 2);
    assert_eq!(t.remove(3), Some(31));
    assert_eq!(t.remove(3), None);
    assert_eq!(t.len(), 1);
}

#[test]
fn id_slab_wrapper() {
    let mut s = IdSlab::new();
    assert_eq!(s.vacant_key(), 0);
    assert_eq!(s.insert(), 0);
    assert_eq!(s.insert(), 1);
    assert_eq!(s.insert(), 2);
    assert!(s.try_remove(1));
    assert!(!s.try_remove(1));
    assert!(!s.contains(1));
    assert!(s.contains(2));
    assert_eq!(s.vacant_key(), 1);
    assert_eq!(s.insert(), 1);
}

#[test]
fn arp_request_bytes() {
    let mac = MacAddress::new([1, 2, 3, 4, 5, 6]);
    let arp = ARP::new_request(mac, [10, 0, 0, 1], [10, 0, 0, 9]);
    assert_eq!(
        arp.as_bytes(),
        vec![0, 1, 8, 0, 6, 4, 0, 1, 1, 2, 3, 4, 5, 6, 10, 0, 0, 1, 0, 0, 0, 0, 0, 0, 10, 0, 0, 9]
    );
    assert_eq!(MacAddress::broadcast().bytes, [0xff; 6]);
}

#[test]
fn checksum_of_a_long_zero_message() {
    // far past 128 KiB, yet the word sum stays small
    let b = vec![0u8; 200_000];
    assert_eq!(calculate_checksum_of(&b), 0xFFFF);
}
