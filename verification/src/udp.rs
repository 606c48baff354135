//! UDP datagrams: the header codec, the checksum over the IPv4 pseudo header,
//! and the table of bound ports that decides which socket a datagram reaches.
use crate::net::{
    be_bytes, be_word, copy_from, fold, lemma_fold, read_be16, words_sum, Ipv4, IPV4_PROTOCOL_UDP,
};
use crate::table::HandleTable;
use vstd::prelude::*;

verus! {

/// The size of a UDP header.
pub const UDP_HEADER_SIZE: usize = 8;

/// The value of a big-endian 16-bit field.
pub open spec fn be16(b: [u8; 2]) -> int {
    b[0] * 256 + b[1]
}

/// A UDP header as carried: source port, destination port, length and
/// checksum, each big-endian.
#[derive(Clone, Copy, Debug, PartialEq, Eq, Hash)]
pub struct UDPHeader {
    pub src_port: [u8; 2],
    pub dst_port: [u8; 2],
    pub length: [u8; 2],
    pub checksum: [u8; 2],
}

impl UDPHeader {
    /// The header of a datagram from `src_port` to `dst_port` carrying
    /// `payload_length` bytes, its checksum zero.
    pub fn new(src_port: u16, dst_port: u16, payload_length: u16) -> (r: Self)
        requires
            payload_length + UDP_HEADER_SIZE <= u16::MAX,
        ensures
            be16(r.src_port) == src_port,
            be16(r.dst_port) == dst_port,
            be16(r.length) == payload_length + UDP_HEADER_SIZE,
            r.checksum[0] == 0 && r.checksum[1] == 0,
    {
        let length = payload_length + UDP_HEADER_SIZE as u16;
        UDPHeader {
            src_port: be_bytes(src_port),
            dst_port: be_bytes(dst_port),
            length: be_bytes(length),
            checksum: [0; 2],
        }
    }

    /// The destination port.
    pub fn dst_port(&self) -> (r: u16)
        ensures
            r == be16(self.dst_port),
    {
        read_be16(&self.dst_port, 0)
    }

    /// The source port.
    pub fn src_port(&self) -> (r: u16)
        ensures
            r == be16(self.src_port),
    {
        read_be16(&self.src_port, 0)
    }

    /// The length field: header and payload, in bytes.
    pub fn length(&self) -> (r: u16)
        ensures
            r == be16(self.length),
    {
        read_be16(&self.length, 0)
    }

    /// The eight bytes of the header as carried.
    pub open spec fn bytes(&self) -> Seq<u8> {
        seq![
            self.src_port[0], self.src_port[1], self.dst_port[0], self.dst_port[1],
            self.length[0], self.length[1], self.checksum[0], self.checksum[1],
        ]
    }

    /// The header as bytes.
    pub fn as_bytes(&self) -> (r: Vec<u8>)
        ensures
            r@ == self.bytes(),
    {
        let r = vec![
            self.src_port[0], self.src_port[1], self.dst_port[0], self.dst_port[1],
            self.length[0], self.length[1], self.checksum[0], self.checksum[1],
        ];
        assert(r@ =~= self.bytes());
        r
    }
}

/// A UDP datagram: a header followed by its payload.
#[derive(Clone, Debug, PartialEq, Eq, Hash)]
pub struct UDPPacket(pub Vec<u8>);

/// The sum of the IPv4 pseudo header of a datagram of `len` bytes from `src`
/// to `dst`: both addresses as words, the protocol and the length.
pub open spec fn pseudo_sum(src: Seq<u8>, dst: Seq<u8>, len: int) -> int {
    be_word(src, 0) + be_word(src, 2) + be_word(dst, 0) + be_word(dst, 2) + IPV4_PROTOCOL_UDP + len % 65536
}

/// The ones' complement sum of `b` as big-endian words, a trailing odd byte
/// taken as the high byte of a last word.
pub open spec fn padded_sum(b: Seq<u8>) -> int {
    words_sum(b, b.len() as int / 2) + if b.len() % 2 == 1 { b[b.len() - 1] * 256 } else { 0int }
}

/// The UDP checksum of the datagram `b` sent from `src` to `dst`.
pub open spec fn udp_checksum_spec(src: Seq<u8>, dst: Seq<u8>, b: Seq<u8>) -> u16 {
    (65535 - fold(pseudo_sum(src, dst, b.len() as int) + padded_sum(b))) as u16
}

proof fn lemma_words_sum_bound(b: Seq<u8>, n: int)
    requires
        0 <= n,
        2 * n <= b.len(),
    ensures
        0 <= words_sum(b, n) <= 65535 * n,
    decreases n,
{
    if n > 0 {
        lemma_words_sum_bound(b, n - 1);
    }
}

/// Writing the big-endian word `hi`, `lo` at word `k` of `b` changes the sum of
/// its first `n` words by the difference between the two words.
proof fn lemma_words_sum_write(b: Seq<u8>, n: int, k: int, hi: u8, lo: u8)
    requires
        0 <= k < n,
        2 * n <= b.len(),
    ensures
        words_sum(b.update(2 * k, hi).update(2 * k + 1, lo), n) == words_sum(b, n) - be_word(b, 2 * k) + hi * 256 + lo,
    decreases n,
{
    let c = b.update(2 * k, hi).update(2 * k + 1, lo);
    if n == k + 1 {
        lemma_prefix_unchanged(b, c, k, 2 * k);
        assert(be_word(c, 2 * k) == hi * 256 + lo);
    } else {
        lemma_words_sum_write(b, n - 1, k, hi, lo);
        assert(be_word(c, 2 * (n - 1)) == be_word(b, 2 * (n - 1)));
    }
}

/// Two sequences that agree below `limit` have the same sum of the first `j`
/// words when those words lie below `limit`.
proof fn lemma_prefix_unchanged(b: Seq<u8>, c: Seq<u8>, j: int, limit: int)
    requires
        0 <= j,
        2 * j <= limit,
        limit <= b.len(),
        limit <= c.len(),
        forall|i: int| 0 <= i < limit ==> b[i] == c[i],
    ensures
        words_sum(c, j) == words_sum(b, j),
    decreases j,
{
    if j > 0 {
        lemma_prefix_unchanged(b, c, j - 1, limit);
        assert(be_word(c, 2 * (j - 1)) == be_word(b, 2 * (j - 1)));
    }
}

impl UDPPacket {
    /// Whether the bytes can hold a UDP header.
    pub open spec fn wf(&self) -> bool {
        self.0@.len() >= UDP_HEADER_SIZE
    }

    /// The bytes as a UDP datagram, or `Err` when they are fewer than a header.
    pub fn try_from_bytes(bytes: &[u8]) -> (r: Result<UDPPacket, ()>)
        ensures
            bytes@.len() < UDP_HEADER_SIZE <==> r is Err,
            r matches Ok(p) ==> p.0@ == bytes@,
    {
        if bytes.len() < UDP_HEADER_SIZE {
            Err(())
        } else {
            Ok(UDPPacket(copy_from(bytes, 0)))
        }
    }

    /// The bytes as a UDP datagram, which the caller knows hold a header.
    pub fn from_bytes_unchecked(bytes: &[u8]) -> (r: UDPPacket)
        requires
            bytes@.len() >= UDP_HEADER_SIZE,
        ensures
            r.0@ == bytes@,
    {
        UDPPacket(copy_from(bytes, 0))
    }

    /// The header.
    pub fn header(&self) -> (r: UDPHeader)
        requires
            self.wf(),
        ensures
            r.bytes() == self.0@.subrange(0, UDP_HEADER_SIZE as int),
    {
        let b = self.0.as_slice();
        let h = UDPHeader {
            src_port: [b[0], b[1]],
            dst_port: [b[2], b[3]],
            length: [b[4], b[5]],
            checksum: [b[6], b[7]],
        };
        assert(h.bytes() =~= self.0@.subrange(0, UDP_HEADER_SIZE as int));
        h
    }

    /// The payload: the bytes after the header.
    pub fn payload(&self) -> (r: Vec<u8>)
        requires
            self.wf(),
        ensures
            r@ == self.0@.subrange(UDP_HEADER_SIZE as int, self.0@.len() as int),
    {
        copy_from(self.0.as_slice(), UDP_HEADER_SIZE)
    }

    /// The whole datagram.
    pub fn as_bytes(&self) -> (r: &[u8])
        ensures
            r@ == self.0@,
    {
        self.0.as_slice()
    }

    /// The UDP checksum of the datagram sent from `src_addr` to `dst_addr`:
    /// the complement of the folded sum of the pseudo header and the
    /// datagram's words; 0 for an intact datagram.
    pub fn calculate_checksum(&self, src_addr: Ipv4, dst_addr: Ipv4) -> (r: u16)
        requires
            self.0@.len() <= 131000,
        ensures
            r == udp_checksum_spec(src_addr@, dst_addr@, self.0@),
    {
        let bytes = self.0.as_slice();
        let len = bytes.len();
        let ghost b = bytes@;
        let udp_length = (len % 65536) as u32;
        let mut sum: u32 = read_be16(&src_addr, 0) as u32 + read_be16(&src_addr, 2) as u32
            + read_be16(&dst_addr, 0) as u32 + read_be16(&dst_addr, 2) as u32
            + IPV4_PROTOCOL_UDP as u32 + udp_length;
        assert(sum == pseudo_sum(src_addr@, dst_addr@, len as int));
        let n = len / 2;
        let mut i: usize = 0;
        while i < n
            invariant
                bytes@ == b,
                n == b.len() / 2,
                b.len() == len,
                len <= 131000,
                0 <= i <= n,
                sum == pseudo_sum(src_addr@, dst_addr@, len as int) + words_sum(b, i as int),
                pseudo_sum(src_addr@, dst_addr@, len as int) <= 6 * 65535,
            decreases n - i,
        {
            proof {
                lemma_words_sum_bound(b, i as int + 1);
            }
            let word = read_be16(bytes, 2 * i) as u32;
            sum = sum + word;
            i = i + 1;
        }
        proof {
            lemma_words_sum_bound(b, n as int);
        }
        if len % 2 == 1 {
            let extra = bytes[len - 1] as u32;
            sum = sum + extra * 256;
        }
        assert(sum == pseudo_sum(src_addr@, dst_addr@, len as int) + padded_sum(b));
        proof {
            lemma_fold(sum as int);
        }
        let ghost total = sum as int;
        while sum >> 16 != 0
            invariant
                sum as int >= 0,
                fold(sum as int) == fold(total),
            decreases sum,
        {
            let s = sum;
            assert(s >> 16 == s / 65536 && s & 0xFFFF == s % 65536) by (bit_vector);
            assert(s >> 16 != 0 ==> s >= 65536) by (bit_vector);
            sum = (sum & 0xFFFF) + (sum >> 16);
        }
        let s = sum;
        assert(s >> 16 == 0 ==> s < 65536) by (bit_vector);
        let low: u16 = sum as u16;
        let r: u16 = !low;
        assert(r == 65535 - low) by (bit_vector)
            requires
                r == !low,
        ;
        r
    }

    /// Writes the checksum of the datagram sent from `src_addr` to `dst_addr`
    /// into its checksum field, big-endian.
    pub fn put_checksum(&mut self, src_addr: Ipv4, dst_addr: Ipv4)
        requires
            old(self).wf(),
            old(self).0@.len() <= 131000,
        ensures
            ({
                let c = udp_checksum_spec(src_addr@, dst_addr@, old(self).0@);
                final(self).0@ == old(self).0@.update(6, (c / 256) as u8).update(7, (c % 256) as u8)
            }),
    {
        let checksum = self.calculate_checksum(src_addr, dst_addr);
        let b = be_bytes(checksum);
        self.0.set(6, b[0]);
        self.0.set(7, b[1]);
    }
}

/// Writing the checksum of a datagram whose checksum field is zero makes it
/// check: its checksum becomes 0 for the same addresses.
pub proof fn law_put_checksum_verifies(src: Ipv4, dst: Ipv4, b: Seq<u8>)
    requires
        UDP_HEADER_SIZE <= b.len() <= 131000,
        b[6] == 0,
        b[7] == 0,
    ensures
        ({
            let c = udp_checksum_spec(src@, dst@, b);
            udp_checksum_spec(src@, dst@, b.update(6, (c / 256) as u8).update(7, (c % 256) as u8)) == 0
        }),
{
    let n = b.len() as int / 2;
    lemma_words_sum_bound(b, n);
    let s = pseudo_sum(src@, dst@, b.len() as int) + padded_sum(b);
    assert(s >= 0);
    lemma_fold(s);
    let f = fold(s);
    let c = udp_checksum_spec(src@, dst@, b);
    assert(c == 65535 - f);
    let hi = (c / 256) as u8;
    let lo = (c % 256) as u8;
    let b2 = b.update(6, hi).update(7, lo);
    lemma_words_sum_write(b, n, 3, hi, lo);
    assert(be_word(b, 6) == 0);
    assert(hi * 256 + lo == c);
    assert(b2.len() == b.len());
    assert(b.len() % 2 == 1 ==> b2[b2.len() - 1] == b[b.len() - 1]);
    let s2 = pseudo_sum(src@, dst@, b2.len() as int) + padded_sum(b2);
    assert(s2 == s + c);
    lemma_fold(s2);
    assert(s2 % 65535 == 0) by (nonlinear_arith)
        requires
            s2 == s + 65535 - f,
            f == (if s == 0 { 0 } else if s % 65535 == 0 { 65535 } else { s % 65535 }),
            s >= 0,
    ;
}

/// Where a received datagram goes: the socket bound to its destination port,
/// with its source and payload.
#[derive(Clone, Debug)]
pub struct UdpDelivery {
    pub socket: u64,
    pub src_ip: Ipv4,
    pub src_port: u16,
    pub payload: Vec<u8>,
}

/// The socket that the datagram `b` reaches with the bound ports `ports`: the
/// one bound to its destination port, if it holds a header and one is bound.
pub open spec fn udp_route(ports: Map<u64, u64>, b: Seq<u8>) -> Option<u64> {
    if b.len() < UDP_HEADER_SIZE {
        None
    } else {
        let port = be_word(b, 2) as u64;
        if ports.contains_key(port) {
            Some(ports[port])
        } else {
            None
        }
    }
}

/// Decides where the datagram `bytes` from `src_ip` goes: to the socket bound
/// to its destination port, with its source port and payload; nowhere when it
/// is too small or nothing is bound there.
pub fn handle_udp_packet(ports: &HandleTable, src_ip: Ipv4, bytes: &[u8]) -> (r: Option<UdpDelivery>)
    ensures
        match udp_route(ports.view(), bytes@) {
            None => r is None,
            Some(socket) => r matches Some(d) && d.socket == socket && d.src_ip == src_ip
                && d.src_port == be_word(bytes@, 0)
                && d.payload@ == bytes@.subrange(UDP_HEADER_SIZE as int, bytes@.len() as int),
        },
{
    let packet = match UDPPacket::try_from_bytes(bytes) {
        Ok(p) => p,
        Err(()) => return None,
    };
    let header = packet.header();
    let dst_port = header.dst_port();
    let src_port = header.src_port();
    match ports.get(dst_port as u64) {
        Some(socket) => Some(UdpDelivery { socket, src_ip, src_port, payload: packet.payload() }),
        None => None,
    }
}

/// Unbinds `port`; `true` when a socket was bound to it.
pub fn remove_socket(ports: &mut HandleTable, port: u16) -> (r: bool)
    ensures
        r == old(ports).view().contains_key(port as u64),
        final(ports).view() == old(ports).view().remove(port as u64),
{
    ports.remove(port as u64).is_some()
}

/// Binds `socket` to `port`, or fails when the port is already in use.
pub fn bind_socket(ports: &mut HandleTable, port: u16, socket: u64) -> (r: Result<(), ()>)
    ensures
        r is Ok <==> !old(ports).view().contains_key(port as u64),
        final(ports).view() == (if r is Ok {
            old(ports).view().insert(port as u64, socket)
        } else {
            old(ports).view()
        }),
{
    if ports.try_insert(port as u64, socket) {
        Ok(())
    } else {
        Err(())
    }
}

/// Binding a free port to a socket takes the port: a second bind of it
/// fails, every datagram to it reaches that socket, datagrams to other ports
/// go where they went before, and unbinding it gives back the ports as they were.
pub proof fn law_bind_routes_port(ports: Map<u64, u64>, port: u16, socket: u64, b: Seq<u8>)
    requires
        !ports.contains_key(port as u64),
    ensures
        ports.insert(port as u64, socket).contains_key(port as u64),
        b.len() >= UDP_HEADER_SIZE && be_word(b, 2) == port ==> udp_route(ports.insert(port as u64, socket), b)
            == Some(socket),
        b.len() >= UDP_HEADER_SIZE && be_word(b, 2) != port ==> udp_route(ports.insert(port as u64, socket), b)
            == udp_route(ports, b),
        ports.insert(port as u64, socket).remove(port as u64) == ports,
{
    if b.len() >= UDP_HEADER_SIZE {
        assert(0 <= be_word(b, 2) < 65536);
    }
    assert(ports.insert(port as u64, socket).remove(port as u64) =~= ports);
}

} // verus!
