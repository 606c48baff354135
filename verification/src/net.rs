//! Network packet codecs: MAC addresses, the internet checksum, ICMP and UDP.
use vstd::prelude::*;
use crate::table::HandleTable;

verus! {

/// A MAC address.
#[derive(Clone, Copy, Debug, PartialEq, Eq, Hash)]
pub struct MacAddress {
    pub bytes: [u8; 6],
}

impl MacAddress {
    /// The broadcast address, all ones.
    pub fn broadcast() -> (r: Self)
        ensures
            r.bytes@ == seq![0xFFu8, 0xFF, 0xFF, 0xFF, 0xFF, 0xFF],
    {
        MacAddress { bytes: [0xFF; 6] }
    }

    /// The zero address.
    pub fn zero() -> (r: Self)
        ensures
            r.bytes@ == seq![0u8, 0, 0, 0, 0, 0],
    {
        MacAddress { bytes: [0; 6] }
    }

    /// The address with the given bytes.
    pub fn new(bytes: [u8; 6]) -> (r: Self)
        ensures
            r.bytes == bytes,
    {
        MacAddress { bytes }
    }
}

/// The big-endian 16-bit word at byte `i`.
pub open spec fn be_word(b: Seq<u8>, i: int) -> int {
    b[i] * 256 + b[i + 1]
}

/// The sum of the first `n` big-endian 16-bit words.
pub open spec fn words_sum(b: Seq<u8>, n: int) -> int
    decreases n,
{
    if n <= 0 {
        0
    } else {
        words_sum(b, n - 1) + be_word(b, 2 * (n - 1))
    }
}

/// Folding the carries of a ones' complement sum into its low 16 bits.
pub open spec fn fold(x: int) -> int
    decreases x,
{
    if x < 65536 || x <= 0 {
        x
    } else {
        fold(x / 65536 + x % 65536)
    }
}

/// The internet checksum of `b`: the complement of the folded sum of its
/// big-endian words; a trailing odd byte does not count.
pub open spec fn checksum_spec(b: Seq<u8>) -> u16 {
    (65535 - fold(words_sum(b, b.len() as int / 2))) as u16
}

proof fn lemma_words_sum_bound(b: Seq<u8>, n: int)
    requires
        0 <= n,
        2 * n <= b.len(),
    ensures
        0 <= words_sum(b, n) <= 65535 * n,
    decreases n,
{
    if n > 0 {
        lemma_words_sum_bound(b, n - 1);
    }
}

/// The sum of the big-endian words of `b` fits in 32 bits, as the checksum
/// adds them up.
pub open spec fn sum_fits(b: Seq<u8>) -> bool {
    words_sum(b, b.len() as int / 2) <= u32::MAX
}

/// Sums of fewer words are no larger.
proof fn lemma_words_sum_mono(b: Seq<u8>, i: int, n: int)
    requires
        0 <= i <= n,
        2 * n <= b.len(),
    ensures
        words_sum(b, i) <= words_sum(b, n),
    decreases n - i,
{
    if i < n {
        lemma_words_sum_mono(b, i, n - 1);
        lemma_words_sum_bound(b, n - 1);
    }
}

/// A message of at most 128 KiB always has a sum that fits.
pub proof fn lemma_short_sums_fit(b: Seq<u8>)
    requires
        b.len() <= 131072,
    ensures
        sum_fits(b),
{
    lemma_words_sum_bound(b, b.len() as int / 2);
}

/// Folding keeps the value modulo 65535 and lands in `[1, 65535]` for a positive value.
pub proof fn lemma_fold(x: int)
    requires
        x >= 0,
    ensures
        fold(x) == (if x == 0 { 0 } else if x % 65535 == 0 { 65535 } else { x % 65535 }),
    decreases x,
{
    if x >= 65536 {
        let y = x / 65536 + x % 65536;
        assert(y < x && y >= 1) by (nonlinear_arith)
            requires x >= 65536, y == x / 65536 + x % 65536;
        assert(y % 65535 == x % 65535) by (nonlinear_arith)
            requires x >= 0, y == x / 65536 + x % 65536;
        lemma_fold(y);
    }
}

/// The internet checksum of `bytes`.
pub fn calculate_checksum_of(bytes: &[u8]) -> (r: u16)
    requires
        sum_fits(bytes@),
    ensures
        r == checksum_spec(bytes@),
{
    let mut sum: u32 = 0;
    let len = bytes.len();
    let n = len / 2;
    let mut i: usize = 0;
    while i < n
        invariant
            len == bytes@.len(),
            n == bytes@.len() / 2,
            sum_fits(bytes@),
            0 <= i <= n,
            sum == words_sum(bytes@, i as int),
        decreases n - i,
    {
        proof {
            lemma_words_sum_mono(bytes@, i as int + 1, n as int);
            lemma_words_sum_bound(bytes@, i as int + 1);
            assert(2 * i + 1 < bytes@.len()) by (nonlinear_arith)
                requires
                    i < n,
                    n == bytes@.len() / 2,
            ;
        }
        let hi = bytes[2 * i] as u32;
        let lo = bytes[2 * i + 1] as u32;
        sum = sum + (hi * 256 + lo);
        i = i + 1;
    }
    proof {
        lemma_fold(sum as int);
    }
    while sum >> 16 != 0
        invariant
            sum as int >= 0,
            fold(sum as int) == fold(words_sum(bytes@, n as int)),
        decreases sum,
    {
        let s = sum;
        assert(s >> 16 == s / 65536 && s & 0xFFFF == s % 65536) by (bit_vector);
        assert(s >> 16 != 0 ==> s >= 65536) by (bit_vector);
        sum = (sum >> 16) + (sum & 0xFFFF);
    }
    let s = sum;
    assert(s >> 16 == 0 ==> s < 65536) by (bit_vector);
    let low: u16 = sum as u16;
    let r: u16 = !low;
    assert(r == 65535 - low) by (bit_vector)
        requires r == !low;
    r
}

} // verus!

verus! {

/// The type of an ICMP message.
#[derive(Clone, Copy, Debug, PartialEq, Eq, Structural)]
pub struct ICMPType(pub u8);

impl ICMPType {
    pub const ECHO_REQUEST: u8 = 8;
    pub const ECHO_REPLY: u8 = 0;
    pub const DESTINATION_UNREACHABLE: u8 = 3;
}

/// The code of an ICMP message.
#[derive(Clone, Copy, Debug, PartialEq, Eq, Structural)]
pub struct ICMPCode(pub u8);

impl ICMPCode {
    pub const NETWORK_UNREACHABLE: u8 = 0;
    pub const HOST_UNREACHABLE: u8 = 1;
    pub const PROTOCOL_UNREACHABLE: u8 = 2;
    pub const PORT_UNREACHABLE: u8 = 3;
    pub const FRAGMENTATION_NEEDED: u8 = 4;
    pub const SOURCE_ROUTE_FAILED: u8 = 5;
    pub const DESTINATION_NETWORK_UNKNOWN: u8 = 6;
    pub const DESTINATION_HOST_UNKNOWN: u8 = 7;
    pub const SOURCE_HOST_ISOLATED: u8 = 8;
    pub const NETWORK_ADMINISTRATIVELY_PROHIBITED: u8 = 9;
    pub const HOST_ADMINISTRATIVELY_PROHIBITED: u8 = 10;
    pub const NETWORK_UNREACHABLE_FOR_TOS: u8 = 11;
    pub const HOST_UNREACHABLE_FOR_TOS: u8 = 12;
    pub const COMMUNICATION_ADMINISTRATIVELY_PROHIBITED: u8 = 13;
    pub const HOST_PRECEDENCE_VIOLATION: u8 = 14;
    pub const PRECEDENCE_CUTOFF_IN_EFFECT: u8 = 15;
}

/// The size of an ICMP header in bytes.
pub const ICMP_HEADER_SIZE: usize = 4;
/// The size of an echo header in bytes.
pub const ECHO_HEADER_SIZE: usize = 4;
/// The size of an IPv4 header without options, in bytes.
pub const IPV4_HEADER_SIZE: usize = 20;
/// The size of a destination-unreachable header: 4 bytes, then the offending IPv4 header.
pub const DEST_UNREACHABLE_HEADER_SIZE: usize = 24;

/// The header of an ICMP message.
#[derive(Clone, Copy, Debug, PartialEq, Eq, Structural)]
pub struct IcmpHeader {
    pub ty: ICMPType,
    pub code: ICMPCode,
    /// The checksum as carried, read big-endian.
    pub checksum: u16,
}

impl IcmpHeader {
    /// The message type.
    pub fn ty(&self) -> (r: ICMPType)
        ensures
            r == self.ty,
    {
        self.ty
    }
}

/// An ICMP message: at least a header's worth of bytes.
#[derive(Clone, Debug)]
pub struct IcmpPacket(pub Vec<u8>);

/// The high byte of a 16-bit value.
pub open spec fn hi_byte(x: u16) -> u8 {
    (x / 256) as u8
}

/// The low byte of a 16-bit value.
pub open spec fn lo_byte(x: u16) -> u8 {
    (x % 256) as u8
}

/// An integer as a 16-bit value.
pub open spec fn u16_of(x: int) -> u16 {
    x as u16
}

/// The length of a byte sequence as an integer.
pub open spec fn slen(b: Seq<u8>) -> int {
    b.len() as int
}

/// The big-endian 16-bit word at byte `i` of `b`.
pub fn read_be16(b: &[u8], i: usize) -> (r: u16)
    requires
        i + 1 < b@.len(),
    ensures
        r == be_word(b@, i as int),
{
    let hi = b[i] as u16;
    let lo = b[i + 1] as u16;
    hi * 256 + lo
}

/// Copies `b[from..]`.
pub fn copy_from(b: &[u8], from: usize) -> (r: Vec<u8>)
    requires
        from <= b@.len(),
    ensures
        r@ == b@.subrange(from as int, b@.len() as int),
{
    let mut r = Vec::new();
    let mut i = from;
    while i < b.len()
        invariant
            from <= i <= b@.len(),
            r@ == b@.subrange(from as int, i as int),
        decreases b@.len() - i,
    {
        r.push(b[i]);
        i = i + 1;
        assert(r@ =~= b@.subrange(from as int, i as int));
    }
    r
}

impl IcmpPacket {
    /// The bytes as an ICMP message, or `None` when they are fewer than a header.
    pub fn new(data: Vec<u8>) -> (r: Option<Self>)
        ensures
            data@.len() < ICMP_HEADER_SIZE ==> r is None,
            data@.len() >= ICMP_HEADER_SIZE ==> (r matches Some(p) && p.0@ == data@),
    {
        if data.len() < ICMP_HEADER_SIZE {
            None
        } else {
            Some(IcmpPacket(data))
        }
    }

    pub open spec fn wf(&self) -> bool {
        self.0@.len() >= ICMP_HEADER_SIZE
    }

    /// The header.
    pub fn header(&self) -> (r: IcmpHeader)
        requires
            self.wf(),
        ensures
            r.ty.0 == self.0@[0],
            r.code.0 == self.0@[1],
            r.checksum == be_word(self.0@, 2),
    {
        let checksum = read_be16(self.0.as_slice(), 2);
        IcmpHeader { ty: ICMPType(self.0[0]), code: ICMPCode(self.0[1]), checksum }
    }

    /// The bytes after the header.
    pub fn data(&self) -> (r: Vec<u8>)
        requires
            self.wf(),
        ensures
            r@ == self.0@.subrange(ICMP_HEADER_SIZE as int, self.0@.len() as int),
    {
        copy_from(self.0.as_slice(), ICMP_HEADER_SIZE)
    }

    /// The number of bytes after the header.
    pub fn data_len(&self) -> (r: usize)
        requires
            self.wf(),
        ensures
            r == self.0@.len() - ICMP_HEADER_SIZE,
    {
        self.0.len() - ICMP_HEADER_SIZE
    }

    /// The whole message.
    pub fn as_bytes(&self) -> (r: &[u8])
        ensures
            r@ == self.0@,
    {
        self.0.as_slice()
    }

    /// The internet checksum of the whole message; 0 for an intact message.
    pub fn calculate_checksum(&self) -> (r: u16)
        requires
            sum_fits(self.0@),
        ensures
            r == checksum_spec(self.0@),
    {
        calculate_checksum_of(self.0.as_slice())
    }

    /// Sets the message type.
    pub fn set_type(&mut self, ty: ICMPType)
        requires
            old(self).wf(),
        ensures
            final(self).0@ == old(self).0@.update(0, ty.0),
    {
        self.0.set(0, ty.0);
    }

    /// Sets the checksum field, big-endian.
    pub fn set_checksum(&mut self, checksum: u16)
        requires
            old(self).wf(),
        ensures
            final(self).0@ == old(self).0@.update(2, (checksum / 256) as u8).update(3, (checksum % 256) as u8),
    {
        self.0.set(2, (checksum / 256) as u8);
        self.0.set(3, (checksum % 256) as u8);
    }

    /// Writes the checksum of the message into its checksum field.
    pub fn put_checksum(&mut self)
        requires
            old(self).wf(),
            sum_fits(old(self).0@),
        ensures
            ({
                let c = checksum_spec(old(self).0@);
                final(self).0@ == old(self).0@.update(2, (c / 256) as u8).update(3, (c % 256) as u8)
            }),
    {
        let checksum = self.calculate_checksum();
        self.set_checksum(checksum);
    }
}

proof fn lemma_words_sum_update(b: Seq<u8>, n: int, hi: u8, lo: u8)
    requires
        2 <= n,
        2 * n <= b.len(),
    ensures
        words_sum(b.update(2, hi).update(3, lo), n) == words_sum(b, n) - be_word(b, 2) + hi * 256 + lo,
    decreases n,
{
    let c = b.update(2, hi).update(3, lo);
    if n == 2 {
        assert(words_sum(c, 0) == 0 && words_sum(b, 0) == 0);
        assert(be_word(c, 0) == be_word(b, 0));
        assert(words_sum(c, 1) == be_word(c, 0));
        assert(words_sum(b, 1) == be_word(b, 0));
        assert(be_word(c, 2) == hi * 256 + lo);
    } else {
        lemma_words_sum_update(b, n - 1, hi, lo);
        assert(be_word(c, 2 * (n - 1)) == be_word(b, 2 * (n - 1)));
    }
}

/// Writing the checksum of a message whose checksum field is zero makes the
/// message check: its checksum becomes 0.
pub proof fn law_put_checksum_verifies(b: Seq<u8>)
    requires
        b.len() >= ICMP_HEADER_SIZE,
        b[2] == 0,
        b[3] == 0,
    ensures
        ({
            let c = checksum_spec(b);
            checksum_spec(b.update(2, (c / 256) as u8).update(3, (c % 256) as u8)) == 0
        }),
{
    let n = b.len() as int / 2;
    let s = words_sum(b, n);
    lemma_words_sum_bound(b, n);
    lemma_fold(s);
    let f = fold(s);
    let c = checksum_spec(b);
    assert(c == 65535 - f);
    let b2 = b.update(2, (c / 256) as u8).update(3, (c % 256) as u8);
    lemma_words_sum_update(b, n, (c / 256) as u8, (c % 256) as u8);
    assert(be_word(b, 2) == 0);
    let s2 = words_sum(b2, n);
    assert(s2 == s + c);
    lemma_fold(s2);
    assert(s2 % 65535 == 0) by (nonlinear_arith)
        requires
            s2 == s + 65535 - f,
            f == (if s == 0 { 0 } else if s % 65535 == 0 { 65535 } else { s % 65535 }),
            s >= 0;
    assert(b2.len() == b.len());
}

} // verus!

verus! {

/// An IPv4 address, most significant byte first.
pub type Ipv4 = [u8; 4];

/// The protocol number of ICMP in an IPv4 header.
pub const IPV4_PROTOCOL_ICMP: u8 = 1;
/// The protocol number of UDP in an IPv4 header.
pub const IPV4_PROTOCOL_UDP: u8 = 17;

/// The header of an ICMP echo message, as carried: identifier then sequence
/// number, each big-endian.
#[derive(Clone, Copy, Debug)]
pub struct EchoHeader {
    pub id: [u8; 2],
    pub seq: [u8; 2],
}

impl EchoHeader {
    /// The identifier.
    pub fn id(&self) -> (r: u16)
        ensures
            r == self.id[0] * 256 + self.id[1],
    {
        read_be16(&self.id, 0)
    }

    /// Sets the identifier.
    pub fn set_id(&mut self, id: u16)
        ensures
            final(self).id[0] * 256 + final(self).id[1] == id,
            final(self).seq == old(self).seq,
    {
        self.id = be_bytes(id);
    }

    /// The sequence number.
    pub fn seq(&self) -> (r: u16)
        ensures
            r == self.seq[0] * 256 + self.seq[1],
    {
        read_be16(&self.seq, 0)
    }

    /// The identifier as the host reads the raw field, little-endian.
    pub fn raw_id(&self) -> (r: u16)
        ensures
            r == self.id[1] * 256 + self.id[0],
    {
        let hi = self.id[1] as u16;
        let lo = self.id[0] as u16;
        hi * 256 + lo
    }

    /// The echo header at the start of `bytes`, or `None` when they are too few.
    pub fn from_bytes(bytes: &[u8]) -> (r: Option<EchoHeader>)
        ensures
            bytes@.len() < ECHO_HEADER_SIZE ==> r is None,
            bytes@.len() >= ECHO_HEADER_SIZE ==> (r matches Some(h) && h.id@ == bytes@.subrange(0, 2)
                && h.seq@ == bytes@.subrange(2, 4)),
    {
        if bytes.len() < ECHO_HEADER_SIZE {
            return None;
        }
        let h = EchoHeader { id: [bytes[0], bytes[1]], seq: [bytes[2], bytes[3]] };
        assert(h.id@ =~= bytes@.subrange(0, 2));
        assert(h.seq@ =~= bytes@.subrange(2, 4));
        Some(h)
    }
}

/// The big-endian bytes of `x`.
pub fn be_bytes(x: u16) -> (r: [u8; 2])
    ensures
        r[0] * 256 + r[1] == x,
        r[0] == x / 256,
        r[1] == x % 256,
{
    [(x / 256) as u8, (x % 256) as u8]
}

/// An ICMP echo message: an ICMP message with room for an echo header.
#[derive(Clone, Debug)]
pub struct EchoIcmpPacket(pub IcmpPacket);

impl EchoIcmpPacket {
    /// The message as an echo message, or `None` when its data cannot hold an echo header.
    pub fn new(packet: IcmpPacket) -> (r: Option<EchoIcmpPacket>)
        requires
            packet.wf(),
        ensures
            packet.0@.len() < ICMP_HEADER_SIZE + ECHO_HEADER_SIZE ==> r is None,
            packet.0@.len() >= ICMP_HEADER_SIZE + ECHO_HEADER_SIZE ==> (r matches Some(e) && e.0.0@ == packet.0@),
    {
        if packet.data_len() < ECHO_HEADER_SIZE {
            None
        } else {
            Some(EchoIcmpPacket(packet))
        }
    }

    pub open spec fn wf(&self) -> bool {
        self.0.0@.len() >= ICMP_HEADER_SIZE + ECHO_HEADER_SIZE
    }

    /// The echo header.
    pub fn header(&self) -> (r: EchoHeader)
        requires
            self.wf(),
        ensures
            r.id@ == self.0.0@.subrange(4, 6),
            r.seq@ == self.0.0@.subrange(6, 8),
    {
        let b = &self.0.0;
        let h = EchoHeader { id: [b[4], b[5]], seq: [b[6], b[7]] };
        assert(h.id@ =~= self.0.0@.subrange(4, 6));
        assert(h.seq@ =~= self.0.0@.subrange(6, 8));
        h
    }

    /// Sets the identifier of the echo header.
    pub fn set_id(&mut self, id: u16)
        requires
            old(self).wf(),
        ensures
            final(self).0.0@ == old(self).0.0@.update(4, (id / 256) as u8).update(5, (id % 256) as u8),
    {
        let b = be_bytes(id);
        self.0.0.set(4, b[0]);
        self.0.0.set(5, b[1]);
    }
}

/// The socket errors that a destination-unreachable code reports.
#[derive(Clone, Copy, Debug, PartialEq, Eq, Structural)]
pub enum SocketError {
    WouldBlockEmpty,
    WouldBlockFull,
    WouldBlockNoConnectionRequests,
    ConnectionClosed,
    ConnectionRefused,
    OperationNotSupported,
    ForceTerminated,
    AddressInUse,
    AlreadyBinded,
    UnknownAddress,
    InvalidArgument,
    TypeMismatch,
    NotBound,
    Timeout,
    InvalidSize,
    NetworkUnreachable,
    HostUnreachable,
    MissingPermissions,
    ProtocolUnreachable,
}

/// The socket error that a destination-unreachable code stands for, if it is a known code.
pub open spec fn unreachable_error_spec(code: u8) -> Option<SocketError> {
    if code == 0 || code == 6 || code == 8 || code == 11 {
        Some(SocketError::NetworkUnreachable)
    } else if code == 1 || code == 5 || code == 7 || code == 12 || code == 14 || code == 15 {
        Some(SocketError::HostUnreachable)
    } else if code == 4 {
        Some(SocketError::InvalidSize)
    } else if code == 3 {
        Some(SocketError::ConnectionRefused)
    } else if code == 2 {
        Some(SocketError::ProtocolUnreachable)
    } else if code == 9 || code == 10 || code == 13 {
        Some(SocketError::MissingPermissions)
    } else {
        None
    }
}

/// The socket error that a destination-unreachable code stands for.
pub fn unreachable_error(code: ICMPCode) -> (r: Option<SocketError>)
    ensures
        r == unreachable_error_spec(code.0),
{
    let c = code.0;
    if c == ICMPCode::NETWORK_UNREACHABLE || c == ICMPCode::DESTINATION_NETWORK_UNKNOWN
        || c == ICMPCode::SOURCE_HOST_ISOLATED || c == ICMPCode::NETWORK_UNREACHABLE_FOR_TOS {
        Some(SocketError::NetworkUnreachable)
    } else if c == ICMPCode::HOST_UNREACHABLE || c == ICMPCode::SOURCE_ROUTE_FAILED
        || c == ICMPCode::DESTINATION_HOST_UNKNOWN || c == ICMPCode::HOST_UNREACHABLE_FOR_TOS
        || c == ICMPCode::HOST_PRECEDENCE_VIOLATION || c == ICMPCode::PRECEDENCE_CUTOFF_IN_EFFECT {
        Some(SocketError::HostUnreachable)
    } else if c == ICMPCode::FRAGMENTATION_NEEDED {
        Some(SocketError::InvalidSize)
    } else if c == ICMPCode::PORT_UNREACHABLE {
        Some(SocketError::ConnectionRefused)
    } else if c == ICMPCode::PROTOCOL_UNREACHABLE {
        Some(SocketError::ProtocolUnreachable)
    } else if c == ICMPCode::HOST_ADMINISTRATIVELY_PROHIBITED || c == ICMPCode::NETWORK_ADMINISTRATIVELY_PROHIBITED
        || c == ICMPCode::COMMUNICATION_ADMINISTRATIVELY_PROHIBITED {
        Some(SocketError::MissingPermissions)
    } else {
        None
    }
}

/// A destination-unreachable ICMP message: room for the header and the
/// offending IPv4 header.
#[derive(Clone, Debug)]
pub struct DestUnreachableICMPPacket(pub IcmpPacket);

/// The header of a destination-unreachable message, as carried.
#[derive(Clone, Copy, Debug)]
pub struct DestUnreachableICMPHeader {
    pub empty: u16,
    pub next_mtu: u16,
    /// The protocol number of the offending IPv4 header.
    pub protocol: u8,
    /// The destination address of the offending IPv4 header.
    pub dst_addr: Ipv4,
}

impl DestUnreachableICMPPacket {
    /// The message as a destination-unreachable message, or `None` when its
    /// data cannot hold the header.
    pub fn new(packet: IcmpPacket) -> (r: Option<DestUnreachableICMPPacket>)
        requires
            packet.wf(),
        ensures
            packet.0@.len() < ICMP_HEADER_SIZE + DEST_UNREACHABLE_HEADER_SIZE ==> r is None,
            packet.0@.len() >= ICMP_HEADER_SIZE + DEST_UNREACHABLE_HEADER_SIZE ==> (r matches Some(d) && d.0.0@ == packet.0@),
    {
        if packet.data_len() < DEST_UNREACHABLE_HEADER_SIZE {
            None
        } else {
            Some(DestUnreachableICMPPacket(packet))
        }
    }

    pub open spec fn wf(&self) -> bool {
        self.0.0@.len() >= ICMP_HEADER_SIZE + DEST_UNREACHABLE_HEADER_SIZE
    }

    /// The destination-unreachable header.
    pub fn header(&self) -> (r: DestUnreachableICMPHeader)
        requires
            self.wf(),
        ensures
            r.empty == be_word(self.0.0@, 4),
            r.next_mtu == be_word(self.0.0@, 6),
            r.protocol == self.0.0@[17int],
            r.dst_addr@ == self.0.0@.subrange(24int, 28int),
    {
        let b = self.0.0.as_slice();
        let d = [b[24], b[25], b[26], b[27]];
        assert(d@ =~= self.0.0@.subrange(24, 28));
        DestUnreachableICMPHeader { empty: read_be16(b, 4), next_mtu: read_be16(b, 6), protocol: b[17], dst_addr: d }
    }

    /// The bytes after the header: the start of the offending datagram's payload.
    pub fn data(&self) -> (r: Vec<u8>)
        requires
            self.wf(),
        ensures
            r@ == self.0.0@.subrange(ICMP_HEADER_SIZE + DEST_UNREACHABLE_HEADER_SIZE, self.0.0@.len() as int),
    {
        copy_from(self.0.0.as_slice(), ICMP_HEADER_SIZE + DEST_UNREACHABLE_HEADER_SIZE)
    }
}

} // verus!

verus! {

/// The key under which an echo request to `ip` with identifier `id` waits for
/// its reply: the address in the high bytes, the identifier in the low two.
pub open spec fn pending_key_spec(ip: Seq<u8>, id: u16) -> u64 {
    (ip[0] * 0x100_0000_0000 + ip[1] * 0x1_0000_0000 + ip[2] * 0x100_0000 + ip[3] * 0x1_0000 + id) as u64
}

/// The key under which an echo request to `ip` with identifier `id` waits.
pub fn pending_key(ip: Ipv4, id: u16) -> (r: u64)
    ensures
        r == pending_key_spec(ip@, id),
{
    (ip[0] as u64) * 0x100_0000_0000 + (ip[1] as u64) * 0x1_0000_0000 + (ip[2] as u64) * 0x100_0000
        + (ip[3] as u64) * 0x1_0000 + (id as u64)
}

/// Two waiting echo requests share a key only when they went to the same
/// address with the same identifier.
pub proof fn law_pending_key_injective(a: Ipv4, i: u16, b: Ipv4, j: u16)
    requires
        pending_key_spec(a@, i) == pending_key_spec(b@, j),
    ensures
        a@ == b@,
        i == j,
{
    let x = a[0] * 0x100_0000_0000 + a[1] * 0x1_0000_0000 + a[2] * 0x100_0000 + a[3] * 0x1_0000 + i;
    let y = b[0] * 0x100_0000_0000 + b[1] * 0x1_0000_0000 + b[2] * 0x100_0000 + b[3] * 0x1_0000 + j;
    assert(0 <= x < 0x1_0000_0000_0000 && 0 <= y < 0x1_0000_0000_0000);
    assert(x == y);
    assert(i == x % 0x1_0000 && j == y % 0x1_0000) by (nonlinear_arith)
        requires
            x == a[0] * 0x100_0000_0000 + a[1] * 0x1_0000_0000 + a[2] * 0x100_0000 + a[3] * 0x1_0000 + i,
            y == b[0] * 0x100_0000_0000 + b[1] * 0x1_0000_0000 + b[2] * 0x100_0000 + b[3] * 0x1_0000 + j,
            0 <= i < 0x1_0000, 0 <= j < 0x1_0000;
    let xa = a[0] * 0x1_0000_0000 + a[1] * 0x100_0000 + a[2] * 0x1_0000 + a[3] * 0x100;
    let xb = b[0] * 0x1_0000_0000 + b[1] * 0x100_0000 + b[2] * 0x1_0000 + b[3] * 0x100;
    assert(xa == xb);
    assert(a[3] == (xa / 0x100) % 0x100 && b[3] == (xb / 0x100) % 0x100
        && a[2] == (xa / 0x1_0000) % 0x100 && b[2] == (xb / 0x1_0000) % 0x100
        && a[1] == (xa / 0x100_0000) % 0x100 && b[1] == (xb / 0x100_0000) % 0x100
        && a[0] == xa / 0x1_0000_0000 && b[0] == xb / 0x1_0000_0000) by (nonlinear_arith)
        requires
            xa == a[0] * 0x1_0000_0000 + a[1] * 0x100_0000 + a[2] * 0x1_0000 + a[3] * 0x100,
            xb == b[0] * 0x1_0000_0000 + b[1] * 0x100_0000 + b[2] * 0x1_0000 + b[3] * 0x100,
            0 <= a[0] < 256, 0 <= a[1] < 256, 0 <= a[2] < 256, 0 <= a[3] < 256,
            0 <= b[0] < 256, 0 <= b[1] < 256, 0 <= b[2] < 256, 0 <= b[3] < 256;
    assert(a@ =~= b@);
}

/// What the kernel does with a received ICMP message.
#[derive(Clone, Debug)]
pub enum IcmpAction {
    /// Drop the message: too small, a bad checksum, an unknown type or code, or
    /// nobody waiting for it.
    Ignore,
    /// Send `packet`, an echo reply, to `to` from `from` with the given TTL.
    SendEchoReply { to: Ipv4, from: Ipv4, ttl: u8, packet: Vec<u8> },
    /// Hand the echo reply `packet` from `from` to the socket `socket` that waited for it.
    DeliverEchoReply { socket: u64, from: Ipv4, packet: Vec<u8> },
    /// Report `error` to the socket `socket` whose echo request could not be delivered.
    IcmpUnreachable { socket: u64, error: SocketError },
    /// Report `error` to UDP for the datagram to `target` that starts with `data`.
    UdpUnreachable { error: SocketError, target: Ipv4, data: Vec<u8> },
}

/// The TTL of echo replies.
pub const ECHO_REPLY_TTL: u8 = 115;

/// An echo reply to the echo request `b`: type 0, then the checksum recomputed.
pub open spec fn echo_reply_spec(b: Seq<u8>) -> Seq<u8> {
    let z = b.update(0, 0u8).update(2, 0u8).update(3, 0u8);
    let c = checksum_spec(z);
    z.update(2, hi_byte(c)).update(3, lo_byte(c))
}

/// Handling a destination-unreachable report about an ICMP message whose
/// start is `data`: `Err` when too small for an ICMP header, the identifier to
/// notify for an echo request that can hold an echo header, else nothing.
pub open spec fn dest_unreachable_for_icmp_spec(data: Seq<u8>) -> Result<Option<u16>, ()> {
    if data.len() < ICMP_HEADER_SIZE {
        Err(())
    } else if data[0] == ICMPType::ECHO_REQUEST {
        if data.len() < ICMP_HEADER_SIZE + ECHO_HEADER_SIZE {
            Err(())
        } else {
            Ok(Some(u16_of(data[5] * 256 + data[4])))
        }
    } else {
        Ok(None)
    }
}

/// Handles a destination-unreachable report about an ICMP message whose start
/// is `icmp_packet_data`; see [`dest_unreachable_for_icmp_spec`].
pub fn handle_dest_unreachable_for_icmp(icmp_packet_data: Vec<u8>) -> (r: Result<Option<u16>, ()>)
    ensures
        r == dest_unreachable_for_icmp_spec(icmp_packet_data@),
{
    let packet = match IcmpPacket::new(icmp_packet_data) {
        Some(p) => p,
        None => return Err(()),
    };
    let header = packet.header();
    if header.ty.0 == ICMPType::ECHO_REQUEST {
        let echo = match EchoIcmpPacket::new(packet) {
            Some(e) => e,
            None => return Err(()),
        };
        let h = echo.header();
        Ok(Some(h.raw_id()))
    } else {
        Ok(None)
    }
}

/// The pending-reply key that the destination-unreachable message `b` settles:
/// that of the echo request it reports, for a known code.
pub open spec fn unreachable_key(b: Seq<u8>) -> Option<u64> {
    match unreachable_error_spec(b[1]) {
        None => None,
        Some(_) => if b[17] == IPV4_PROTOCOL_ICMP {
            match dest_unreachable_for_icmp_spec(b.subrange(28, slen(b))) {
                Ok(Some(id)) => Some(pending_key_spec(b.subrange(24, 28), id)),
                _ => None,
            }
        } else {
            None
        },
    }
}

/// `r` is the action for the destination-unreachable message `b`, whose data
/// holds the header, with the pending replies `m`: the code's error reported
/// to the socket whose echo request it answers, or to UDP with the rest of the
/// message, or nothing.
pub open spec fn dest_unreachable_action(r: IcmpAction, b: Seq<u8>, m: Map<u64, u64>) -> bool {
    match unreachable_error_spec(b[1]) {
        None => r is Ignore,
        Some(error) => {
            let protocol = b[17];
            let target = b.subrange(24, 28);
            let data = b.subrange(28, slen(b));
            if protocol == IPV4_PROTOCOL_ICMP {
                match unreachable_key(b) {
                    Some(k) => if m.contains_key(k) {
                        r matches IcmpAction::IcmpUnreachable { socket, error: e } && socket == m[k] && e == error
                    } else {
                        r is Ignore
                    },
                    None => r is Ignore,
                }
            } else if protocol == IPV4_PROTOCOL_UDP {
                r matches IcmpAction::UdpUnreachable { error: e, target: t, data: d }
                    && e == error && t@ == target && d@ == data
            } else {
                r is Ignore
            }
        },
    }
}

/// The pending replies after settling `key`.
pub open spec fn settle(m: Map<u64, u64>, key: Option<u64>) -> Map<u64, u64> {
    match key {
        Some(k) => m.remove(k),
        None => m,
    }
}

/// Handles a destination-unreachable message, settling the echo request it
/// reports in `pending`.
pub fn handle_dest_unreachable(packet: &DestUnreachableICMPPacket, pending: &mut HandleTable) -> (r: IcmpAction)
    requires
        packet.wf(),
    ensures
        dest_unreachable_action(r, packet.0.0@, old(pending).view()),
        final(pending).view() == settle(old(pending).view(), unreachable_key(packet.0.0@)),
{
    let b = packet.0.0.as_slice();
    let error = match unreachable_error(ICMPCode(b[1])) {
        Some(e) => e,
        None => return IcmpAction::Ignore,
    };
    let dest_header = packet.header();
    let data = packet.data();
    let target = dest_header.dst_addr;
    if dest_header.protocol == IPV4_PROTOCOL_ICMP {
        match handle_dest_unreachable_for_icmp(data) {
            Ok(Some(id)) => {
                let key = pending_key(target, id);
                match pending.remove(key) {
                    Some(socket) => IcmpAction::IcmpUnreachable { socket, error },
                    None => IcmpAction::Ignore,
                }
            },
            _ => IcmpAction::Ignore,
        }
    } else if dest_header.protocol == IPV4_PROTOCOL_UDP {
        IcmpAction::UdpUnreachable { error, target, data }
    } else {
        IcmpAction::Ignore
    }
}

} // verus!

verus! {

/// The pending-reply key that the ICMP message `b` from `from` settles, if any:
/// that of an echo reply, or of the echo request a destination-unreachable
/// message reports.
pub open spec fn answer_key(from: Seq<u8>, b: Seq<u8>) -> Option<u64> {
    if b.len() < ICMP_HEADER_SIZE || checksum_spec(b) != 0 {
        None
    } else if b[0] == ICMPType::ECHO_REPLY {
        if b.len() < ICMP_HEADER_SIZE + ECHO_HEADER_SIZE {
            None
        } else {
            Some(pending_key_spec(from, u16_of(be_word(b, 4))))
        }
    } else if b[0] == ICMPType::DESTINATION_UNREACHABLE {
        if b.len() < ICMP_HEADER_SIZE + DEST_UNREACHABLE_HEADER_SIZE {
            None
        } else {
            unreachable_key(b)
        }
    } else {
        None
    }
}

/// `r` is what to do with the ICMP message `b` received from `from` by
/// `our_ip`, with the pending replies `m`: drop it when too small or when its
/// checksum fails; answer an echo request with an echo reply; hand an echo
/// reply to the socket waiting for it; report a destination-unreachable
/// message; drop anything else.
pub open spec fn packet_action(r: IcmpAction, from: Ipv4, our_ip: Ipv4, b: Seq<u8>, m: Map<u64, u64>) -> bool {
    if b.len() < ICMP_HEADER_SIZE || checksum_spec(b) != 0 {
        r is Ignore
    } else if b[0] == ICMPType::ECHO_REQUEST {
        if b.len() < ICMP_HEADER_SIZE + ECHO_HEADER_SIZE {
            r is Ignore
        } else {
            r matches IcmpAction::SendEchoReply { to, from: f, ttl, packet }
                && to == from && f == our_ip && ttl == ECHO_REPLY_TTL && packet@ == echo_reply_spec(b)
        }
    } else if b[0] == ICMPType::ECHO_REPLY {
        if b.len() < ICMP_HEADER_SIZE + ECHO_HEADER_SIZE {
            r is Ignore
        } else {
            let k = pending_key_spec(from@, u16_of(be_word(b, 4)));
            if m.contains_key(k) {
                r matches IcmpAction::DeliverEchoReply { socket, from: f, packet }
                    && socket == m[k] && f == from && packet@ == b
            } else {
                r is Ignore
            }
        }
    } else if b[0] == ICMPType::DESTINATION_UNREACHABLE {
        if b.len() < ICMP_HEADER_SIZE + DEST_UNREACHABLE_HEADER_SIZE {
            r is Ignore
        } else {
            dest_unreachable_action(r, b, m)
        }
    } else {
        r is Ignore
    }
}

/// Decides what to do with an ICMP message received from `from` by `our_ip`
/// (see [`packet_action`]), and settles in `pending` the echo request that it
/// answers.
pub fn handle_icmp_packet(from: Ipv4, our_ip: Ipv4, packet_bytes: Vec<u8>, pending: &mut HandleTable) -> (r: IcmpAction)
    requires
        packet_bytes@.len() <= 131072,
    ensures
        packet_action(r, from, our_ip, packet_bytes@, old(pending).view()),
        final(pending).view() == settle(old(pending).view(), answer_key(from@, packet_bytes@)),
{
    let ghost b = packet_bytes@;
    let mut packet = match IcmpPacket::new(packet_bytes) {
        Some(p) => p,
        None => return IcmpAction::Ignore,
    };
    proof {
        lemma_short_sums_fit(packet.0@);
    }
    if packet.calculate_checksum() != 0 {
        return IcmpAction::Ignore;
    }
    let packet_size = packet.data_len();
    let ty = packet.header().ty;
    if ty.0 == ICMPType::ECHO_REQUEST {
        if packet_size < ECHO_HEADER_SIZE {
            return IcmpAction::Ignore;
        }
        packet.set_type(ICMPType(ICMPType::ECHO_REPLY));
        packet.set_checksum(0);
        proof {
            assert(packet.0@ =~= b.update(0, 0u8).update(2, 0u8).update(3, 0u8));
        }
        proof {
            lemma_short_sums_fit(packet.0@);
        }
        packet.put_checksum();
        IcmpAction::SendEchoReply { to: from, from: our_ip, ttl: ECHO_REPLY_TTL, packet: packet.0 }
    } else if ty.0 == ICMPType::ECHO_REPLY {
        let echo = match EchoIcmpPacket::new(packet) {
            Some(e) => e,
            None => return IcmpAction::Ignore,
        };
        let id = echo.header().id();
        let key = pending_key(from, id);
        match pending.remove(key) {
            Some(socket) => IcmpAction::DeliverEchoReply { socket, from, packet: echo.0.0 },
            None => IcmpAction::Ignore,
        }
    } else if ty.0 == ICMPType::DESTINATION_UNREACHABLE {
        let dest = match DestUnreachableICMPPacket::new(packet) {
            Some(d) => d,
            None => return IcmpAction::Ignore,
        };
        handle_dest_unreachable(&dest, pending)
    } else {
        IcmpAction::Ignore
    }
}

/// The echo message `b` carrying identifier `id`, its checksum recomputed.
pub open spec fn with_echo_id(b: Seq<u8>, id: u16) -> Seq<u8> {
    let z = b.update(4, hi_byte(id)).update(5, lo_byte(id)).update(2, 0u8).update(3, 0u8);
    let c = checksum_spec(z);
    z.update(2, hi_byte(c)).update(3, lo_byte(c))
}

/// Prepares an echo request to `to` from `socket`: the ICMP message to send,
/// a copy of `packet`. With `replace_with_id`, the copy carries that identifier
/// and a recomputed checksum, and the socket waits in `pending` for the reply.
pub fn send_echo_request(
    pending: &mut HandleTable,
    to: Ipv4,
    socket: u64,
    packet: &EchoIcmpPacket,
    replace_with_id: Option<u16>,
) -> (r: Vec<u8>)
    requires
        packet.wf(),
        packet.0.0@.len() <= 131072,
    ensures
        match replace_with_id {
            None => r@ == packet.0.0@ && final(pending).view() == old(pending).view(),
            Some(id) => r@ == with_echo_id(packet.0.0@, id)
                && final(pending).view() == old(pending).view().insert(pending_key_spec(to@, id), socket),
        },
{
    let mut copy = EchoIcmpPacket(IcmpPacket(packet.0.0.clone()));
    match replace_with_id {
        None => copy.0.0,
        Some(id) => {
            let ghost b = packet.0.0@;
            copy.set_id(id);
            copy.0.set_checksum(0);
            proof {
                assert(copy.0.0@ =~= b.update(4, hi_byte(id)).update(5, lo_byte(id)).update(2, 0u8).update(3, 0u8));
            }
            proof {
                lemma_short_sums_fit(copy.0.0@);
            }
            copy.0.put_checksum();
            let key = pending_key(to, id);
            pending.insert(key, socket);
            copy.0.0
        },
    }
}

/// Ping works: when `to` answers the echo request that `send_echo_request`
/// prepared for `socket` with identifier `id`, as `handle_icmp_packet` answers
/// one, the reply is handed to that socket.
pub proof fn law_echo_reply_reaches_sender(
    m: Map<u64, u64>,
    to: Ipv4,
    our_ip: Ipv4,
    socket: u64,
    b: Seq<u8>,
    id: u16,
    answer: IcmpAction,
    r: IcmpAction,
)
    requires
        ICMP_HEADER_SIZE + ECHO_HEADER_SIZE <= b.len() <= 131072,
        b[0] == ICMPType::ECHO_REQUEST,
        packet_action(answer, our_ip, to, with_echo_id(b, id), Map::empty()),
        answer matches IcmpAction::SendEchoReply { packet, .. }
            && packet_action(r, to, our_ip, packet@, m.insert(pending_key_spec(to@, id), socket)),
    ensures
        r matches IcmpAction::DeliverEchoReply { socket: s, from, .. } && s == socket && from == to,
{
    let z = b.update(4, hi_byte(id)).update(5, lo_byte(id)).update(2, 0u8).update(3, 0u8);
    law_put_checksum_verifies(z);
    let req = with_echo_id(b, id);
    assert(checksum_spec(req) == 0);
    assert(req[0] == ICMPType::ECHO_REQUEST);
    let z2 = req.update(0, 0u8).update(2, 0u8).update(3, 0u8);
    law_put_checksum_verifies(z2);
    let rep = echo_reply_spec(req);
    assert(checksum_spec(rep) == 0);
    assert(rep[0] == ICMPType::ECHO_REPLY);
    assert(rep[4] == hi_byte(id) && rep[5] == lo_byte(id));
    assert(u16_of(be_word(rep, 4)) == id);
}

} // verus!

verus! {

/// The size of the data that ping sends.
pub const PING_DATA_SIZE: usize = 56;

impl EchoIcmpPacket {
    /// An echo message of type `ty` and code `code` carrying the sequence
    /// number `seq_num` and `data`; the identifier and checksum are zero (the
    /// kernel fills them in on sending).
    pub fn with_data(ty: ICMPType, code: u8, seq_num: u16, data: &[u8]) -> (r: EchoIcmpPacket)
        ensures
            r.wf(),
            r.0.0@ == seq![ty.0, code, 0u8, 0u8, 0u8, 0u8, hi_byte(seq_num), lo_byte(seq_num)] + data@,
    {
        let s = be_bytes(seq_num);
        let mut b = vec![ty.0, code, 0u8, 0u8, 0u8, 0u8, s[0], s[1]];
        let v = copy_from(data, 0);
        assert(v@ =~= data@);
        crate::process_mem::append_bytes(&mut b, &v);
        EchoIcmpPacket(IcmpPacket(b))
    }

    /// The data after the echo header.
    pub fn data(&self) -> (r: Vec<u8>)
        requires
            self.wf(),
        ensures
            r@ == self.0.0@.subrange(8, self.0.0@.len() as int),
    {
        copy_from(self.0.0.as_slice(), 8)
    }

    /// The sequence number of the echo header.
    pub fn seq_num(&self) -> (r: u16)
        requires
            self.wf(),
        ensures
            r == be_word(self.0.0@, 6),
    {
        read_be16(self.0.0.as_slice(), 6)
    }

    /// Sets the sequence number of the echo header.
    pub fn set_seq(&mut self, seq: u16)
        requires
            old(self).wf(),
        ensures
            final(self).0.0@ == old(self).0.0@.update(6, hi_byte(seq)).update(7, lo_byte(seq)),
    {
        let b = be_bytes(seq);
        self.0.0.set(6, b[0]);
        self.0.0.set(7, b[1]);
    }
}

/// What ping makes of a received message.
#[derive(Clone, Copy, Debug, PartialEq, Eq, Structural)]
pub enum PingReply {
    /// Too short for an echo message carrying ping's data.
    Invalid,
    /// Not an echo reply.
    Other,
    /// An echo reply with sequence number `seq`, carrying the data sent or not.
    EchoReply { seq: u16, data_matches: bool },
}

/// What ping makes of the received bytes `b` when it sent `data`: only the
/// first 64 bytes count.
pub open spec fn ping_reply_spec(b: Seq<u8>, data: Seq<u8>) -> PingReply {
    if b.len() < 64 {
        PingReply::Invalid
    } else if b[0] != ICMPType::ECHO_REPLY {
        PingReply::Other
    } else {
        PingReply::EchoReply { seq: u16_of(be_word(b, 6)), data_matches: b.subrange(8, 64) == data }
    }
}

/// Whether the bytes of `a` from `off` on start with those of `b`.
pub fn bytes_match_at(a: &[u8], off: usize, b: &[u8]) -> (r: bool)
    requires
        off + b@.len() <= a@.len(),
    ensures
        r == (a@.subrange(off as int, off + b@.len()) == b@),
{
    let n = b.len();
    let m = a.len();
    let mut i: usize = 0;
    while i < n
        invariant
            n == b@.len(),
            m == a@.len(),
            0 <= i <= n,
            off + n <= m,
            a@.subrange(off as int, off + i) == b@.subrange(0, i as int),
        decreases n - i,
    {
        if a[off + i] != b[i] {
            assert(a@.subrange(off as int, off + n)[i as int] != b@[i as int]);
            return false;
        }
        i = i + 1;
        assert(a@.subrange(off as int, off + i) =~= b@.subrange(0, i as int));
    }
    assert(b@.subrange(0, n as int) =~= b@);
    true
}

/// Classifies the message `received` that answers ping's echo request
/// carrying `data`; see [`ping_reply_spec`].
pub fn classify_ping_reply(received: &[u8], data: &[u8]) -> (r: PingReply)
    requires
        data@.len() == PING_DATA_SIZE,
    ensures
        r == ping_reply_spec(received@, data@),
{
    if received.len() < 64 {
        return PingReply::Invalid;
    }
    if received[0] != ICMPType::ECHO_REPLY {
        return PingReply::Other;
    }
    let seq = read_be16(received, 6);
    let same = bytes_match_at(received, 8, data);
    PingReply::EchoReply { seq, data_matches: same }
}

} // verus!
