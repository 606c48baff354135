//! DHCP: the packet format, the options a client understands, and the
//! client's discover and request exchanges.
use crate::net::Ipv4;
use vstd::prelude::*;

verus! {

/// A DHCP operation.
#[derive(Clone, Copy, Debug, PartialEq, Eq, Structural)]
pub struct DHCPOp(pub u8);

impl DHCPOp {
    pub const DISCOVER: u8 = 1;
    pub const OFFER: u8 = 2;
}

/// A DHCP option code, or a byte of an option's data.
#[derive(Clone, Copy, Debug, PartialEq, Eq, Structural)]
pub struct DHCPOpt(pub u8);

impl DHCPOpt {
    pub const MSG_TYPE: u8 = 53;
    pub const DHCPDISCOVER: u8 = 1;
    pub const DHCPOFFER: u8 = 2;
    pub const DHCPREQUEST: u8 = 3;
    pub const DHCPACK: u8 = 5;
    pub const PARAMETER_REQ: u8 = 55;
    pub const DNS: u8 = 6;
    pub const SUBNET_MASK: u8 = 1;
    pub const ROUTER: u8 = 3;
    pub const DHCP_SERVER_ID: u8 = 54;
    pub const LEASE_TIME: u8 = 51;
    pub const REQUEST_IP: u8 = 50;
    pub const END: u8 = 255;
}

/// The size of a DHCP packet, options included.
pub const DHCP_PACKET_SIZE: usize = 496;
/// Where the options start.
pub const OPTIONS_OFFSET: usize = 240;
/// The room for options.
pub const OPTIONS_SIZE: usize = 256;
/// The magic cookie, big-endian.
pub const DHCP_MAGIC: u32 = 0x6382_5363;

/// A DHCP packet, as carried.
#[derive(Clone, Debug)]
pub struct DHCPPacket {
    pub bytes: Vec<u8>,
}

/// The big-endian value of the four bytes of `b` at `i`.
pub open spec fn be32(b: Seq<u8>, i: int) -> int {
    b[i] * 0x100_0000 + b[i + 1] * 0x1_0000 + b[i + 2] * 0x100 + b[i + 3]
}

/// The bytes of a new packet: operation `op`, Ethernet with six-byte
/// addresses, transaction `xid` big-endian, the server address, `mac` as the
/// client's hardware address, the magic cookie, and `options` padded with zeros.
pub open spec fn packet_bytes(op: u8, mac: Seq<u8>, xid: u32, options: Seq<u8>, server: Seq<u8>) -> Seq<u8> {
    seq![op, 1u8, 6, 0] + seq![(xid / 0x100_0000) as u8, ((xid / 0x1_0000) % 0x100) as u8, ((xid / 0x100) % 0x100) as u8,
        (xid % 0x100) as u8] + Seq::new(12, |i: int| 0u8) + server + Seq::new(4, |i: int| 0u8) + mac + Seq::new(
        10 + 64 + 128,
        |i: int| 0u8,
    ) + seq![0x63u8, 0x82, 0x53, 0x63] + options + Seq::new((OPTIONS_SIZE - options.len()) as nat, |i: int| 0u8)
}

fn push_zeros(out: &mut Vec<u8>, n: usize)
    ensures
        final(out)@ == old(out)@ + Seq::new(n as nat, |i: int| 0u8),
{
    let mut k: usize = 0;
    while k < n
        invariant
            0 <= k <= n,
            out@ == old(out)@ + Seq::new(k as nat, |i: int| 0u8),
        decreases n - k,
    {
        out.push(0);
        k = k + 1;
        assert(out@ =~= old(out)@ + Seq::new(k as nat, |i: int| 0u8));
    }
}

impl DHCPPacket {
    /// The bytes form a whole packet.
    pub open spec fn wf(&self) -> bool {
        self.bytes@.len() == DHCP_PACKET_SIZE
    }

    /// A packet with operation `op` from the client `mac` in the transaction
    /// `xid`, with the option bytes `options`, to `server_ip_addr`.
    pub fn new(op: DHCPOp, mac: [u8; 6], xid: u32, options: &Vec<u8>, server_ip_addr: Ipv4) -> (r: Self)
        requires
            options@.len() <= OPTIONS_SIZE,
        ensures
            r.wf(),
            r.bytes@ == packet_bytes(op.0, mac@, xid, options@, server_ip_addr@),
    {
        let mut b: Vec<u8> = Vec::new();
        b.push(op.0);
        b.push(1);
        b.push(6);
        b.push(0);
        b.push((xid / 0x100_0000) as u8);
        b.push(((xid / 0x1_0000) % 0x100) as u8);
        b.push(((xid / 0x100) % 0x100) as u8);
        b.push((xid % 0x100) as u8);
        let ghost p1 = b@;
        push_zeros(&mut b, 12);
        let ghost p2 = b@;
        let mut i: usize = 0;
        while i < 4
            invariant
                0 <= i <= 4,
                b@ == p2 + server_ip_addr@.subrange(0, i as int),
            decreases 4 - i,
        {
            b.push(server_ip_addr[i]);
            i = i + 1;
            assert(b@ =~= p2 + server_ip_addr@.subrange(0, i as int));
        }
        assert(server_ip_addr@.subrange(0, 4) =~= server_ip_addr@);
        push_zeros(&mut b, 4);
        let ghost p3 = b@;
        let mut i: usize = 0;
        while i < 6
            invariant
                0 <= i <= 6,
                b@ == p3 + mac@.subrange(0, i as int),
            decreases 6 - i,
        {
            b.push(mac[i]);
            i = i + 1;
            assert(b@ =~= p3 + mac@.subrange(0, i as int));
        }
        assert(mac@.subrange(0, 6) =~= mac@);
        push_zeros(&mut b, 10 + 64 + 128);
        b.push(0x63);
        b.push(0x82);
        b.push(0x53);
        b.push(0x63);
        assert(b@.len() == 240);
        crate::process_mem::append_bytes(&mut b, options);
        assert(b@.len() == 240 + options@.len());
        push_zeros(&mut b, OPTIONS_SIZE - options.len());
        assert(b@ =~= packet_bytes(op.0, mac@, xid, options@, server_ip_addr@));
        DHCPPacket { bytes: b }
    }

    /// The packet that the 496 bytes of `b` hold, or `None` when they are fewer.
    pub fn from_bytes(b: &[u8]) -> (r: Option<Self>)
        ensures
            b@.len() < DHCP_PACKET_SIZE ==> r is None,
            b@.len() >= DHCP_PACKET_SIZE ==> (r matches Some(p) && p.bytes@ == b@.subrange(0, DHCP_PACKET_SIZE as int)),
    {
        if b.len() < DHCP_PACKET_SIZE {
            return None;
        }
        let mut bytes: Vec<u8> = Vec::new();
        let mut i: usize = 0;
        while i < DHCP_PACKET_SIZE
            invariant
                0 <= i <= DHCP_PACKET_SIZE,
                b@.len() >= DHCP_PACKET_SIZE,
                bytes@ == b@.subrange(0, i as int),
            decreases DHCP_PACKET_SIZE - i,
        {
            bytes.push(b[i]);
            i = i + 1;
            assert(bytes@ =~= b@.subrange(0, i as int));
        }
        Some(DHCPPacket { bytes })
    }

    /// The operation.
    pub fn op(&self) -> (r: DHCPOp)
        requires
            self.wf(),
        ensures
            r.0 == self.bytes@[0],
    {
        DHCPOp(self.bytes[0])
    }

    fn read32(&self, i: usize) -> (r: u32)
        requires
            self.wf(),
            i + 4 <= DHCP_PACKET_SIZE,
        ensures
            r == be32(self.bytes@, i as int),
    {
        let a = self.bytes[i] as u32;
        let b = self.bytes[i + 1] as u32;
        let c = self.bytes[i + 2] as u32;
        let d = self.bytes[i + 3] as u32;
        a * 0x100_0000 + b * 0x1_0000 + c * 0x100 + d
    }

    fn ip_at(&self, i: usize) -> (r: Ipv4)
        requires
            self.wf(),
            i + 4 <= DHCP_PACKET_SIZE,
        ensures
            r@ == self.bytes@.subrange(i as int, i + 4),
    {
        let r = [self.bytes[i], self.bytes[i + 1], self.bytes[i + 2], self.bytes[i + 3]];
        assert(r@ =~= self.bytes@.subrange(i as int, i + 4));
        r
    }

    /// The magic cookie.
    pub fn magic(&self) -> (r: u32)
        requires
            self.wf(),
        ensures
            r == be32(self.bytes@, 236),
    {
        self.read32(236)
    }

    /// Whether the magic cookie is DHCP's.
    pub fn is_valid(&self) -> (r: bool)
        requires
            self.wf(),
        ensures
            r == (be32(self.bytes@, 236) == DHCP_MAGIC),
    {
        self.magic() == DHCP_MAGIC
    }

    /// The transaction ID.
    pub fn xid(&self) -> (r: u32)
        requires
            self.wf(),
        ensures
            r == be32(self.bytes@, 4),
    {
        self.read32(4)
    }

    /// The client's offered address.
    pub fn yiaddr(&self) -> (r: Ipv4)
        requires
            self.wf(),
        ensures
            r@ == self.bytes@.subrange(16, 20),
    {
        self.ip_at(16)
    }

    /// The server's address.
    pub fn siaddr(&self) -> (r: Ipv4)
        requires
            self.wf(),
        ensures
            r@ == self.bytes@.subrange(20, 24),
    {
        self.ip_at(20)
    }

    /// The packet as carried.
    pub fn as_bytes(&self) -> (r: &[u8])
        ensures
            r@ == self.bytes@,
    {
        self.bytes.as_slice()
    }

    /// The option bytes.
    pub fn options(&self) -> (r: Vec<u8>)
        requires
            self.wf(),
        ensures
            r@ == self.bytes@.subrange(OPTIONS_OFFSET as int, DHCP_PACKET_SIZE as int),
    {
        crate::net::copy_from(self.bytes.as_slice(), OPTIONS_OFFSET)
    }

    /// The options the client understands; see [`parse_options`].
    pub fn parse_known_options(&self) -> (r: ParsedDHCPOptions)
        requires
            self.wf(),
        ensures
            r.view() == parse_from(self.bytes@.subrange(OPTIONS_OFFSET as int, DHCP_PACKET_SIZE as int), 0, no_options()),
    {
        let options = self.options();
        parse_options(&options)
    }
}

/// The options a client understands, as parsed.
#[derive(Clone, Debug)]
pub struct ParsedDHCPOptions {
    pub msg_type: Option<DHCPOpt>,
    pub subnet_mask: Option<Ipv4>,
    pub dhcp_server_addr: Option<Ipv4>,
    pub lease_time: Option<u32>,
    pub dns: Option<Vec<Ipv4>>,
    pub router: Option<Ipv4>,
}

/// What parsing found: the message type, the subnet mask, the server's
/// address, the lease time, the DNS servers and the router.
pub type OptionsModel = (Option<u8>, Option<Seq<u8>>, Option<Seq<u8>>, Option<u32>, Option<Seq<Seq<u8>>>, Option<Seq<u8>>);

/// Nothing parsed yet.
pub open spec fn no_options() -> OptionsModel {
    (None, None, None, None, None, None)
}

impl ParsedDHCPOptions {
    /// What these options hold.
    pub open spec fn view(&self) -> OptionsModel {
        (
            match self.msg_type {
                Some(m) => Some(m.0),
                None => None,
            },
            match self.subnet_mask {
                Some(a) => Some(a@),
                None => None,
            },
            match self.dhcp_server_addr {
                Some(a) => Some(a@),
                None => None,
            },
            self.lease_time,
            match self.dns {
                Some(d) => Some(Seq::new(d@.len(), |i: int| d@[i]@)),
                None => None,
            },
            match self.router {
                Some(a) => Some(a@),
                None => None,
            },
        )
    }
}

/// The addresses in the `count` groups of four bytes of `b` from `i`.
pub open spec fn ip_list(b: Seq<u8>, i: int, count: int) -> Seq<Seq<u8>>
    decreases count,
{
    if count <= 0 {
        Seq::empty()
    } else {
        seq![b.subrange(i, i + 4)] + ip_list(b, i + 4, count - 1)
    }
}

/// Parsing the option bytes `b` from `i` with what was found so far `p`.
/// Each option code is followed by its length, except the end code, which
/// stops parsing, and unknown codes, which take one byte; a message type of
/// length 1, a subnet mask, server address or lease time of length 4, one
/// or more routers (the first is kept, as soon as its four bytes are there)
/// and any number of DNS servers are recorded, other lengths are skipped over
/// by their length byte alone. Running out of bytes in the middle of an
/// option stops parsing.
pub open spec fn parse_from(b: Seq<u8>, i: int, p: OptionsModel) -> OptionsModel
    decreases b.len() - i,
{
    if i < 0 || i >= b.len() {
        p
    } else {
        let code = b[i];
        if code == DHCPOpt::END {
            p
        } else if code == DHCPOpt::MSG_TYPE || code == DHCPOpt::ROUTER || code == DHCPOpt::SUBNET_MASK
            || code == DHCPOpt::DNS || code == DHCPOpt::LEASE_TIME || code == DHCPOpt::DHCP_SERVER_ID {
            if i + 1 >= b.len() {
                p
            } else {
                let size = b[i + 1] as int;
                let j = i + 2;
                if code == DHCPOpt::MSG_TYPE {
                    if size == 1 {
                        if j >= b.len() {
                            p
                        } else {
                            parse_from(b, j + 1, (Some(b[j]), p.1, p.2, p.3, p.4, p.5))
                        }
                    } else {
                        parse_from(b, j, p)
                    }
                } else if code == DHCPOpt::ROUTER {
                    if size % 4 == 0 && size > 0 {
                        if j + 4 > b.len() {
                            p
                        } else if j + size > b.len() {
                            (p.0, p.1, p.2, p.3, p.4, Some(b.subrange(j, j + 4)))
                        } else {
                            parse_from(b, j + size, (p.0, p.1, p.2, p.3, p.4, Some(b.subrange(j, j + 4))))
                        }
                    } else {
                        parse_from(b, j, p)
                    }
                } else if code == DHCPOpt::DNS {
                    if size % 4 == 0 {
                        if j + size > b.len() {
                            p
                        } else {
                            parse_from(b, j + size, (p.0, p.1, p.2, p.3, Some(ip_list(b, j, size / 4)), p.5))
                        }
                    } else {
                        parse_from(b, j, p)
                    }
                } else if size == 4 {
                    if j + 4 > b.len() {
                        p
                    } else if code == DHCPOpt::SUBNET_MASK {
                        parse_from(b, j + 4, (p.0, Some(b.subrange(j, j + 4)), p.2, p.3, p.4, p.5))
                    } else if code == DHCPOpt::LEASE_TIME {
                        parse_from(b, j + 4, (p.0, p.1, p.2, Some(be32(b, j) as u32), p.4, p.5))
                    } else {
                        parse_from(b, j + 4, (p.0, p.1, Some(b.subrange(j, j + 4)), p.3, p.4, p.5))
                    }
                } else {
                    parse_from(b, j, p)
                }
            }
        } else {
            parse_from(b, i + 1, p)
        }
    }
}

fn ip_from(b: &Vec<u8>, j: usize) -> (r: Ipv4)
    requires
        j + 4 <= b@.len(),
    ensures
        r@ == b@.subrange(j as int, j + 4),
{
    let n = b.len();
    assert(j + 4 <= n);
    let r = [b[j], b[j + 1], b[j + 2], b[j + 3]];
    assert(r@ =~= b@.subrange(j as int, j + 4));
    r
}

/// The addresses views of a list of addresses.
pub open spec fn ip_views(v: Seq<Ipv4>) -> Seq<Seq<u8>> {
    Seq::new(v.len(), |i: int| v[i]@)
}

fn read_ips(b: &Vec<u8>, j: usize, count: usize) -> (r: Vec<Ipv4>)
    requires
        j + 4 * count <= b@.len(),
    ensures
        ip_views(r@) == ip_list(b@, j as int, count as int),
{
    let mut r: Vec<Ipv4> = Vec::new();
    let n = b.len();
    let mut k: usize = 0;
    while k < count
        invariant
            n == b@.len(),
            0 <= k <= count,
            j + 4 * count <= b@.len(),
            ip_views(r@) + ip_list(b@, j + 4 * k, (count - k) as int) == ip_list(b@, j as int, count as int),
        decreases count - k,
    {
        let ghost before = r@;
        let ip = ip_from(b, j + 4 * k);
        r.push(ip);
        proof {
            assert(ip_views(r@) =~= ip_views(before) + seq![ip@]);
            let rest = ip_list(b@, j + 4 * k, (count - k) as int);
            assert(rest == seq![b@.subrange(j + 4 * k, j + 4 * k + 4)] + ip_list(b@, j + 4 * (k + 1), (count - k - 1) as int));
            assert(ip_views(r@) + ip_list(b@, j + 4 * (k + 1), (count - (k + 1)) as int) =~= ip_views(before) + rest);
        }
        k = k + 1;
    }
    assert(ip_views(r@) + ip_list(b@, j + 4 * count, 0) =~= ip_views(r@));
    r
}

/// Parses the option bytes `b`; see [`parse_from`].
pub fn parse_options(b: &Vec<u8>) -> (r: ParsedDHCPOptions)
    ensures
        r.view() == parse_from(b@, 0, no_options()),
{
    let mut parsed = ParsedDHCPOptions {
        msg_type: None,
        subnet_mask: None,
        dhcp_server_addr: None,
        lease_time: None,
        dns: None,
        router: None,
    };
    let n = b.len();
    let mut i: usize = 0;
    while i < n
        invariant
            n == b@.len(),
            0 <= i <= n,
            parse_from(b@, i as int, parsed.view()) == parse_from(b@, 0, no_options()),
        decreases n - i,
    {
        let code = b[i];
        if code == DHCPOpt::END {
            return parsed;
        }
        if code == DHCPOpt::MSG_TYPE || code == DHCPOpt::ROUTER || code == DHCPOpt::SUBNET_MASK || code == DHCPOpt::DNS
            || code == DHCPOpt::LEASE_TIME || code == DHCPOpt::DHCP_SERVER_ID {
            if i + 1 >= n {
                return parsed;
            }
            let size = b[i + 1] as usize;
            let j = i + 2;
            if code == DHCPOpt::MSG_TYPE {
                if size == 1 {
                    if j >= n {
                        return parsed;
                    }
                    parsed.msg_type = Some(DHCPOpt(b[j]));
                    i = j + 1;
                } else {
                    i = j;
                }
            } else if code == DHCPOpt::ROUTER {
                if size % 4 == 0 && size > 0 {
                    if 4 > n - j {
                        return parsed;
                    }
                    parsed.router = Some(ip_from(b, j));
                    if size > n - j {
                        return parsed;
                    }
                    i = j + size;
                } else {
                    i = j;
                }
            } else if code == DHCPOpt::DNS {
                if size % 4 == 0 {
                    if size > n - j {
                        return parsed;
                    }
                    let ips = read_ips(b, j, size / 4);
                    parsed.dns = Some(ips);
                    i = j + size;
                } else {
                    i = j;
                }
            } else if size == 4 {
                if 4 > n - j {
                    return parsed;
                }
                if code == DHCPOpt::SUBNET_MASK {
                    parsed.subnet_mask = Some(ip_from(b, j));
                } else if code == DHCPOpt::LEASE_TIME {
                    let v = (b[j] as u32) * 0x100_0000 + (b[j + 1] as u32) * 0x1_0000 + (b[j + 2] as u32) * 0x100
                        + (b[j + 3] as u32);
                    parsed.lease_time = Some(v);
                } else {
                    parsed.dhcp_server_addr = Some(ip_from(b, j));
                }
                i = j + 4;
            } else {
                i = j;
            }
        } else {
            i = i + 1;
        }
    }
    parsed
}

/// Why a DHCP exchange failed.
#[derive(Clone, Copy, Debug, PartialEq, Eq, Structural)]
pub enum DHCPError {
    /// A packet could not be sent.
    Send,
    /// A packet could not be received.
    Recv,
    /// The reply to a discover was not an offer.
    ExpectedOffer,
    /// The offer lacks an option the client needs.
    OfferMissingOptions,
    /// The reply to a request was not an acknowledgement.
    AcknowledgementFailed,
}

/// An offer of an address.
#[derive(Clone, Debug)]
pub struct DHCPOffer {
    pub dns: Vec<Ipv4>,
    pub router: Ipv4,
    pub subnet_mask: Ipv4,
    pub our_addr: Ipv4,
    pub server_addr: Ipv4,
    pub lease_time: u32,
}

/// The option bytes of a discover: a discover message asking for the
/// subnet mask, router and DNS servers.
pub open spec fn discover_options() -> Seq<u8> {
    seq![53u8, 1, 1, 55, 3, 6, 1, 3, 255]
}

/// The option bytes of a request for the address `ip` from `server`.
pub open spec fn request_options(ip: Seq<u8>, server: Seq<u8>) -> Seq<u8> {
    seq![53u8, 1, 3, 50, 4] + ip + seq![54u8, 4] + server + seq![255u8]
}

/// The discover packet of the client `mac` in the transaction `xid`.
pub fn discover_packet(mac: [u8; 6], xid: u32) -> (r: DHCPPacket)
    ensures
        r.wf(),
        r.bytes@ == packet_bytes(DHCPOp::DISCOVER, mac@, xid, discover_options(), seq![0u8, 0, 0, 0]),
{
    let options = vec![53u8, 1, 1, 55, 3, 6, 1, 3, 255];
    assert(options@ =~= discover_options());
    let zero: Ipv4 = [0, 0, 0, 0];
    assert(zero@ =~= seq![0u8, 0, 0, 0]);
    DHCPPacket::new(DHCPOp(DHCPOp::DISCOVER), mac, xid, &options, zero)
}

/// The request packet of the client `mac` in the transaction `xid` for the
/// address `ip` from the server `server_addr`.
pub fn request_packet(mac: [u8; 6], xid: u32, ip: Ipv4, server_addr: Ipv4) -> (r: DHCPPacket)
    ensures
        r.wf(),
        r.bytes@ == packet_bytes(DHCPOp::DISCOVER, mac@, xid, request_options(ip@, server_addr@), server_addr@),
{
    let options = vec![
        53u8, 1, 3, 50, 4, ip[0], ip[1], ip[2], ip[3], 54, 4, server_addr[0], server_addr[1], server_addr[2],
        server_addr[3], 255,
    ];
    assert(options@ =~= request_options(ip@, server_addr@));
    DHCPPacket::new(DHCPOp(DHCPOp::DISCOVER), mac, xid, &options, server_addr)
}

/// Whether a received packet of `len` bytes from `from` belongs to the
/// transaction `xid`: from the expected sender, if one is expected, with
/// the magic cookie and the transaction's ID.
pub fn accepts(expected: Option<(Ipv4, u16)>, from: (Ipv4, u16), packet: &DHCPPacket, xid: u32) -> (r: bool)
    requires
        packet.wf(),
    ensures
        r == ((match expected {
            Some(e) => e.0@ == from.0@ && e.1 == from.1,
            None => true,
        }) && be32(packet.bytes@, 236) == DHCP_MAGIC && be32(packet.bytes@, 4) == xid),
{
    match expected {
        Some(e) => {
            if !(e.0[0] == from.0[0] && e.0[1] == from.0[1] && e.0[2] == from.0[2] && e.0[3] == from.0[3] && e.1 == from.1) {
                assert(!(e.0@ == from.0@ && e.1 == from.1)) by {
                    if e.0@ == from.0@ {
                        assert(e.0@[0] == from.0@[0] && e.0@[1] == from.0@[1] && e.0@[2] == from.0@[2] && e.0@[3] == from.0@[3]);
                    }
                }
                return false;
            }
            assert(e.0@ =~= from.0@);
        },
        None => {},
    }
    packet.is_valid() && packet.xid() == xid
}

/// The offer in the reply `received` to a discover: it must be an offer
/// carrying the DNS servers, router, subnet mask and lease time.
pub fn check_offer(received: &DHCPPacket) -> (r: Result<DHCPOffer, DHCPError>)
    requires
        received.wf(),
    ensures
        ({
            let o = parse_from(received.bytes@.subrange(OPTIONS_OFFSET as int, DHCP_PACKET_SIZE as int), 0, no_options());
            if received.bytes@[0] != DHCPOp::OFFER || o.0 != Some(DHCPOpt::DHCPOFFER) {
                r == Err::<DHCPOffer, DHCPError>(DHCPError::ExpectedOffer)
            } else if o.4 is None || o.5 is None || o.1 is None || o.3 is None {
                r == Err::<DHCPOffer, DHCPError>(DHCPError::OfferMissingOptions)
            } else {
                r matches Ok(offer) && Some(ip_views(offer.dns@)) == o.4 && Some(offer.router@) == o.5 && Some(
                    offer.subnet_mask@,
                ) == o.1 && Some(offer.lease_time) == o.3 && offer.our_addr@ == received.bytes@.subrange(16, 20)
                    && offer.server_addr@ == received.bytes@.subrange(20, 24)
            }
        }),
{
    let options = received.parse_known_options();
    let op = received.op();
    let is_offer = match options.msg_type {
        Some(m) => m.0 == DHCPOpt::DHCPOFFER,
        None => false,
    };
    if op.0 != DHCPOp::OFFER || !is_offer {
        return Err(DHCPError::ExpectedOffer);
    }
    match (options.dns, options.router, options.subnet_mask, options.lease_time) {
        (Some(dns), Some(router), Some(subnet_mask), Some(lease_time)) => Ok(DHCPOffer {
            dns,
            router,
            subnet_mask,
            lease_time,
            our_addr: received.yiaddr(),
            server_addr: received.siaddr(),
        }),
        _ => Err(DHCPError::OfferMissingOptions),
    }
}

/// Whether the reply `received` to a request acknowledges it.
pub fn check_ack(received: &DHCPPacket) -> (r: Result<(), DHCPError>)
    requires
        received.wf(),
    ensures
        ({
            let o = parse_from(received.bytes@.subrange(OPTIONS_OFFSET as int, DHCP_PACKET_SIZE as int), 0, no_options());
            if received.bytes@[0] != DHCPOp::OFFER || o.0 != Some(DHCPOpt::DHCPACK) {
                r == Err::<(), DHCPError>(DHCPError::AcknowledgementFailed)
            } else {
                r is Ok
            }
        }),
{
    let options = received.parse_known_options();
    let is_ack = match options.msg_type {
        Some(m) => m.0 == DHCPOpt::DHCPACK,
        None => false,
    };
    if received.op().0 != DHCPOp::OFFER || !is_ack {
        return Err(DHCPError::AcknowledgementFailed);
    }
    Ok(())
}

/// The option bytes of a server's reply of message type `t`: the server's
/// address, the lease time's four bytes, the subnet mask, one router and
/// one DNS server, then the end code.
pub open spec fn reply_options(
    t: u8,
    server: Seq<u8>,
    lease: Seq<u8>,
    mask: Seq<u8>,
    router: Seq<u8>,
    dns: Seq<u8>,
) -> Seq<u8> {
    seq![53u8, 1, t, 54, 4] + server + seq![51u8, 4] + lease + seq![1u8, 4] + mask + seq![3u8, 4] + router + seq![
        6u8,
        4,
    ] + dns + seq![255u8]
}

/// A client reads back every option of a server's reply, whatever follows
/// the end code: its message type, subnet mask, server address, lease time,
/// DNS server and router.
pub proof fn law_reply_options_read_back(
    t: u8,
    server: Seq<u8>,
    lease: Seq<u8>,
    mask: Seq<u8>,
    router: Seq<u8>,
    dns: Seq<u8>,
    rest: Seq<u8>,
)
    requires
        server.len() == 4,
        lease.len() == 4,
        mask.len() == 4,
        router.len() == 4,
        dns.len() == 4,
    ensures
        parse_from(reply_options(t, server, lease, mask, router, dns) + rest, 0, no_options()) == (
            Some(t),
            Some(mask),
            Some(server),
            Some(be32(lease, 0) as u32),
            Some(seq![dns]),
            Some(router),
        ),
{
    let b = reply_options(t, server, lease, mask, router, dns) + rest;
    assert(b.len() == 34 + rest.len());
    assert(b[0] == 53 && b[1] == 1 && b[2] == t);
    assert(b[3] == 54 && b[4] == 4);
    assert(b.subrange(5, 9) =~= server);
    assert(b[9] == 51 && b[10] == 4);
    assert(b.subrange(11, 15) =~= lease);
    assert(be32(b, 11) == be32(lease, 0));
    assert(b[15] == 1 && b[16] == 4);
    assert(b.subrange(17, 21) =~= mask);
    assert(b[21] == 3 && b[22] == 4);
    assert(b.subrange(23, 27) =~= router);
    assert(b[27] == 6 && b[28] == 4);
    assert(b.subrange(29, 33) =~= dns);
    assert(b[33] == 255);
    let p0 = no_options();
    let p1 = (Some(t), p0.1, p0.2, p0.3, p0.4, p0.5);
    let p2 = (p1.0, p1.1, Some(server), p1.3, p1.4, p1.5);
    let p3 = (p2.0, p2.1, p2.2, Some(be32(lease, 0) as u32), p2.4, p2.5);
    let p4 = (p3.0, Some(mask), p3.2, p3.3, p3.4, p3.5);
    let p5 = (p4.0, p4.1, p4.2, p4.3, p4.4, Some(router));
    let p6 = (p5.0, p5.1, p5.2, p5.3, Some(ip_list(b, 29, 1)), p5.5);
    assert(ip_list(b, 29, 1) =~= seq![dns]) by {
        reveal_with_fuel(ip_list, 2);
    }
    assert(parse_from(b, 33, p6) == p6);
    assert(parse_from(b, 27, p5) == p6);
    assert(parse_from(b, 21, p4) == parse_from(b, 27, p5));
    assert(parse_from(b, 15, p3) == parse_from(b, 21, p4));
    assert(parse_from(b, 9, p2) == parse_from(b, 15, p3));
    assert(parse_from(b, 3, p1) == parse_from(b, 9, p2));
    assert(parse_from(b, 0, p0) == parse_from(b, 3, p1));
}

/// A reply packet built with a server's options carries them all to the
/// client: parsing the options area of the packet gives them back.
pub proof fn law_reply_packet_read_back(
    op: u8,
    mac: Seq<u8>,
    xid: u32,
    t: u8,
    server: Seq<u8>,
    lease: Seq<u8>,
    mask: Seq<u8>,
    router: Seq<u8>,
    dns: Seq<u8>,
)
    requires
        mac.len() == 6,
        server.len() == 4,
        lease.len() == 4,
        mask.len() == 4,
        router.len() == 4,
        dns.len() == 4,
    ensures
        parse_from(
            packet_bytes(op, mac, xid, reply_options(t, server, lease, mask, router, dns), server).subrange(
                OPTIONS_OFFSET as int,
                DHCP_PACKET_SIZE as int,
            ),
            0,
            no_options(),
        ) == (Some(t), Some(mask), Some(server), Some(be32(lease, 0) as u32), Some(seq![dns]), Some(router)),
{
    let o = reply_options(t, server, lease, mask, router, dns);
    let rest = Seq::new((OPTIONS_SIZE - o.len()) as nat, |i: int| 0u8);
    let b = packet_bytes(op, mac, xid, o, server);
    assert(b.subrange(OPTIONS_OFFSET as int, DHCP_PACKET_SIZE as int) =~= o + rest);
    law_reply_options_read_back(t, server, lease, mask, router, dns, rest);
}

} // verus!
