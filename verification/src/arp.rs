//! ARP packets for IPv4 over Ethernet.
use crate::net::{read_be16, Ipv4, MacAddress};
use vstd::prelude::*;

verus! {

/// The hardware type of an ARP packet, big-endian.
#[derive(Clone, Copy, Debug, PartialEq, Eq, Hash)]
pub struct ARPHtype(pub [u8; 2]);

impl ARPHtype {
    /// Ethernet.
    pub fn ethernet() -> (r: Self)
        ensures
            r.0[0] == 0x00 && r.0[1] == 0x01,
    {
        ARPHtype([0x00, 0x01])
    }

    /// The type as a number.
    pub fn code(&self) -> (r: u16)
        ensures
            r == self.0[0] * 256 + self.0[1],
    {
        read_be16(&self.0, 0)
    }
}

/// The protocol type of an ARP packet, big-endian.
#[derive(Clone, Copy, Debug, PartialEq, Eq, Hash)]
pub struct ARPPtype(pub [u8; 2]);

impl ARPPtype {
    /// IPv4.
    pub fn ip() -> (r: Self)
        ensures
            r.0[0] == 0x08 && r.0[1] == 0x00,
    {
        ARPPtype([0x08, 0x00])
    }

    /// The type as a number.
    pub fn code(&self) -> (r: u16)
        ensures
            r == self.0[0] * 256 + self.0[1],
    {
        read_be16(&self.0, 0)
    }
}

/// The operation of an ARP packet, big-endian.
#[derive(Clone, Copy, Debug, PartialEq, Eq, Hash)]
pub struct ARPOp(pub [u8; 2]);

impl ARPOp {
    /// A request.
    pub fn request() -> (r: Self)
        ensures
            r.0[0] == 0x00 && r.0[1] == 0x01,
    {
        ARPOp([0x00, 0x01])
    }

    /// The operation as a number.
    pub fn code(&self) -> (r: u16)
        ensures
            r == self.0[0] * 256 + self.0[1],
    {
        read_be16(&self.0, 0)
    }
}

/// The fixed header of an ARP packet.
#[derive(Clone, Copy, Debug, PartialEq, Eq)]
pub struct ARPHeader {
    pub htype: ARPHtype,
    pub ptype: ARPPtype,
    pub hlen: u8,
    pub plen: u8,
    pub op: ARPOp,
}

/// The size of a MAC address in an ARP packet.
pub const MAC_ADDRESS_SIZE: u8 = 6;
/// The size of an IPv4 address in an ARP packet.
pub const IPV4_ADDRESS_SIZE: u8 = 4;
/// The size of an ARP packet for IPv4 over Ethernet.
pub const ARP_PACKET_SIZE: usize = 28;

/// An ARP packet for IPv4 over Ethernet.
#[derive(Clone, Copy, Debug, PartialEq, Eq)]
pub struct ARP {
    pub header: ARPHeader,
    pub src_haddr: MacAddress,
    pub src_paddr: Ipv4,
    pub dst_haddr: MacAddress,
    pub dst_paddr: Ipv4,
}

impl ARP {
    /// A packet with operation `op` between the given addresses.
    pub fn new(op: ARPOp, src_haddr: MacAddress, src_paddr: Ipv4, dst_haddr: MacAddress, dst_paddr: Ipv4) -> (r: Self)
        ensures
            r.header.htype.0[0] == 0x00 && r.header.htype.0[1] == 0x01,
            r.header.ptype.0[0] == 0x08 && r.header.ptype.0[1] == 0x00,
            r.header.hlen == MAC_ADDRESS_SIZE,
            r.header.plen == IPV4_ADDRESS_SIZE,
            r.header.op == op,
            r.src_haddr == src_haddr,
            r.src_paddr == src_paddr,
            r.dst_haddr == dst_haddr,
            r.dst_paddr == dst_paddr,
    {
        ARP {
            header: ARPHeader {
                htype: ARPHtype::ethernet(),
                ptype: ARPPtype::ip(),
                hlen: MAC_ADDRESS_SIZE,
                plen: IPV4_ADDRESS_SIZE,
                op,
            },
            src_haddr,
            src_paddr,
            dst_haddr,
            dst_paddr,
        }
    }

    /// A request for the hardware address of `dst_paddr`, the target hardware
    /// address left zero.
    pub fn new_request(src_haddr: MacAddress, src_paddr: Ipv4, dst_paddr: Ipv4) -> (r: Self)
        ensures
            r.header.htype.0[0] == 0x00 && r.header.htype.0[1] == 0x01,
            r.header.ptype.0[0] == 0x08 && r.header.ptype.0[1] == 0x00,
            r.header.hlen == MAC_ADDRESS_SIZE,
            r.header.plen == IPV4_ADDRESS_SIZE,
            r.header.op.0[0] == 0x00 && r.header.op.0[1] == 0x01,
            r.src_haddr == src_haddr,
            r.src_paddr == src_paddr,
            r.dst_haddr.bytes@ == seq![0u8, 0, 0, 0, 0, 0],
            r.dst_paddr == dst_paddr,
    {
        ARP::new(ARPOp::request(), src_haddr, src_paddr, MacAddress::zero(), dst_paddr)
    }

    /// The packet as carried.
    pub open spec fn bytes(&self) -> Seq<u8> {
        seq![self.header.htype.0[0], self.header.htype.0[1], self.header.ptype.0[0], self.header.ptype.0[1],
            self.header.hlen, self.header.plen, self.header.op.0[0], self.header.op.0[1]]
            + self.src_haddr.bytes@ + self.src_paddr@ + self.dst_haddr.bytes@ + self.dst_paddr@
    }

    /// The packet as bytes.
    pub fn as_bytes(&self) -> (r: Vec<u8>)
        ensures
            r@ == self.bytes(),
            r@.len() == ARP_PACKET_SIZE,
    {
        let h = &self.header;
        let mut r = vec![h.htype.0[0], h.htype.0[1], h.ptype.0[0], h.ptype.0[1], h.hlen, h.plen, h.op.0[0], h.op.0[1]];
        let ghost head = r@;
        let mut i: usize = 0;
        while i < 6
            invariant
                0 <= i <= 6,
                r@ == head + self.src_haddr.bytes@.subrange(0, i as int),
            decreases 6 - i,
        {
            r.push(self.src_haddr.bytes[i]);
            i = i + 1;
            assert(r@ =~= head + self.src_haddr.bytes@.subrange(0, i as int));
        }
        let ghost head = r@;
        let mut i: usize = 0;
        while i < 4
            invariant
                0 <= i <= 4,
                r@ == head + self.src_paddr@.subrange(0, i as int),
            decreases 4 - i,
        {
            r.push(self.src_paddr[i]);
            i = i + 1;
            assert(r@ =~= head + self.src_paddr@.subrange(0, i as int));
        }
        let ghost head = r@;
        let mut i: usize = 0;
        while i < 6
            invariant
                0 <= i <= 6,
                r@ == head + self.dst_haddr.bytes@.subrange(0, i as int),
            decreases 6 - i,
        {
            r.push(self.dst_haddr.bytes[i]);
            i = i + 1;
            assert(r@ =~= head + self.dst_haddr.bytes@.subrange(0, i as int));
        }
        let ghost head = r@;
        let mut i: usize = 0;
        while i < 4
            invariant
                0 <= i <= 4,
                r@ == head + self.dst_paddr@.subrange(0, i as int),
            decreases 4 - i,
        {
            r.push(self.dst_paddr[i]);
            i = i + 1;
            assert(r@ =~= head + self.dst_paddr@.subrange(0, i as int));
        }
        proof {
            assert(self.src_haddr.bytes@.subrange(0, 6) =~= self.src_haddr.bytes@);
            assert(self.src_paddr@.subrange(0, 4) =~= self.src_paddr@);
            assert(self.dst_haddr.bytes@.subrange(0, 6) =~= self.dst_haddr.bytes@);
            assert(self.dst_paddr@.subrange(0, 4) =~= self.dst_paddr@);
        }
        r
    }
}

} // verus!
