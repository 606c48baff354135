//! Sockets: options, families and kinds, which socket a request creates,
//! and UDP sockets: their state, their message queue and their options.
use crate::errors::ErrorStatus;
use crate::net::{Ipv4, SocketError};
use crate::table::HandleTable;
use crate::thread::Tid;
use crate::udp::{bind_socket, remove_socket};
use crate::wait_queue::{wake_split, WaitError, WaitQueue, WakeFilter};
use vstd::prelude::*;

verus! {

impl SocketError {
    /// The ABI error status for this error.
    pub fn into_err(self) -> (r: ErrorStatus)
        ensures
            r == match self {
                SocketError::WouldBlockEmpty | SocketError::WouldBlockFull
                | SocketError::WouldBlockNoConnectionRequests => ErrorStatus::WouldBlock,
                SocketError::ConnectionRefused => ErrorStatus::ConnectionRefused,
                SocketError::ConnectionClosed => ErrorStatus::ConnectionClosed,
                SocketError::OperationNotSupported | SocketError::AlreadyBinded => ErrorStatus::OperationNotSupported,
                SocketError::ForceTerminated => ErrorStatus::ForceTerminated,
                SocketError::AddressInUse => ErrorStatus::AddressAlreadyInUse,
                SocketError::UnknownAddress => ErrorStatus::AddressNotFound,
                SocketError::InvalidArgument => ErrorStatus::InvalidArgument,
                SocketError::TypeMismatch => ErrorStatus::TypeMismatch,
                SocketError::NotBound => ErrorStatus::NotBound,
                SocketError::Timeout => ErrorStatus::Timeout,
                SocketError::InvalidSize => ErrorStatus::InvalidSize,
                SocketError::HostUnreachable => ErrorStatus::HostUnreachable,
                SocketError::NetworkUnreachable => ErrorStatus::NetworkUnreachable,
                SocketError::MissingPermissions => ErrorStatus::MissingPermissions,
                SocketError::ProtocolUnreachable => ErrorStatus::ProtocolNotSupported,
            },
    {
        match self {
            SocketError::WouldBlockEmpty | SocketError::WouldBlockFull
            | SocketError::WouldBlockNoConnectionRequests => ErrorStatus::WouldBlock,
            SocketError::ConnectionRefused => ErrorStatus::ConnectionRefused,
            SocketError::ConnectionClosed => ErrorStatus::ConnectionClosed,
            SocketError::OperationNotSupported | SocketError::AlreadyBinded => ErrorStatus::OperationNotSupported,
            SocketError::ForceTerminated => ErrorStatus::ForceTerminated,
            SocketError::AddressInUse => ErrorStatus::AddressAlreadyInUse,
            SocketError::UnknownAddress => ErrorStatus::AddressNotFound,
            SocketError::InvalidArgument => ErrorStatus::InvalidArgument,
            SocketError::TypeMismatch => ErrorStatus::TypeMismatch,
            SocketError::NotBound => ErrorStatus::NotBound,
            SocketError::Timeout => ErrorStatus::Timeout,
            SocketError::InvalidSize => ErrorStatus::InvalidSize,
            SocketError::HostUnreachable => ErrorStatus::HostUnreachable,
            SocketError::NetworkUnreachable => ErrorStatus::NetworkUnreachable,
            SocketError::MissingPermissions => ErrorStatus::MissingPermissions,
            SocketError::ProtocolUnreachable => ErrorStatus::ProtocolNotSupported,
        }
    }

    /// The socket error that an ended wait stands for.
    pub fn from_wait_error(e: WaitError) -> (r: SocketError)
        ensures
            r == match e {
                WaitError::ForceTerminated => SocketError::ForceTerminated,
                WaitError::Timeout => SocketError::Timeout,
            },
    {
        match e {
            WaitError::ForceTerminated => SocketError::ForceTerminated,
            WaitError::Timeout => SocketError::Timeout,
        }
    }
}

/// A socket option.
#[derive(Clone, Copy, Debug, PartialEq, Eq, Structural, Hash)]
pub enum SocketOpt {
    Blocking,
    ReadTimeout,
    WriteTimeout,
    IpTTL,
    IpBroadcast,
    SockError,
}

/// The option numbered `n`, if any.
pub open spec fn socket_opt_of(n: u16) -> Option<SocketOpt> {
    if n == 0 {
        Some(SocketOpt::Blocking)
    } else if n == 1 {
        Some(SocketOpt::ReadTimeout)
    } else if n == 2 {
        Some(SocketOpt::WriteTimeout)
    } else if n == 3 {
        Some(SocketOpt::IpTTL)
    } else if n == 4 {
        Some(SocketOpt::IpBroadcast)
    } else if n == 5 {
        Some(SocketOpt::SockError)
    } else {
        None
    }
}

impl SocketOpt {
    /// The option numbered `n`, if any.
    pub fn from_u16(n: u16) -> (r: Option<SocketOpt>)
        ensures
            r == socket_opt_of(n),
    {
        if n == 0 {
            Some(SocketOpt::Blocking)
        } else if n == 1 {
            Some(SocketOpt::ReadTimeout)
        } else if n == 2 {
            Some(SocketOpt::WriteTimeout)
        } else if n == 3 {
            Some(SocketOpt::IpTTL)
        } else if n == 4 {
            Some(SocketOpt::IpBroadcast)
        } else if n == 5 {
            Some(SocketOpt::SockError)
        } else {
            None
        }
    }
}

/// A socket command: bit 15 asks to read the option, otherwise to set it;
/// the other bits number the option. An unknown option is an invalid command.
pub fn decode_command(cmd: u16) -> (r: Result<(bool, SocketOpt), ErrorStatus>)
    ensures
        match socket_opt_of(cmd % 0x8000) {
            Some(opt) => r == Ok::<(bool, SocketOpt), ErrorStatus>((cmd >= 0x8000, opt)),
            None => r == Err::<(bool, SocketOpt), ErrorStatus>(ErrorStatus::InvalidCommand),
        },
{
    let is_get = cmd >= 0x8000;
    let opt_raw = cmd % 0x8000;
    match SocketOpt::from_u16(opt_raw) {
        Some(opt) => Ok((is_get, opt)),
        None => Err(ErrorStatus::InvalidCommand),
    }
}

/// The family of a socket.
#[derive(Clone, Copy, Debug, PartialEq, Eq, Structural)]
pub enum SocketFamily {
    Local,
    Net,
}

/// The kind of a socket.
#[derive(Clone, Copy, Debug, PartialEq, Eq, Structural)]
pub enum SocketKind {
    Stream,
    SeqPacket,
    Datagram,
}

/// The kind of a local socket.
#[derive(Clone, Copy, Debug, PartialEq, Eq, Structural)]
pub enum LocalSocketKind {
    Stream,
    SeqPacket,
}

/// The socket that a creation request makes.
#[derive(Clone, Copy, Debug, PartialEq, Eq, Structural)]
pub enum SocketCreation {
    /// A local socket of this kind.
    Local(LocalSocketKind),
    /// A UDP socket.
    Udp,
    /// An ICMP socket with this identifier.
    Icmp(u16),
}

/// The protocol number of UDP.
pub const UDP_PROTOCOL: u32 = 17;
/// The protocol number of ICMP.
pub const ICMP_PROTOCOL: u32 = 1;

/// Which socket the request for `family`, `kind` and `protocol` makes: a
/// local stream or sequenced-packet socket for protocol 0; a UDP socket for
/// a network datagram socket of protocol 0 or UDP; an ICMP socket, numbered
/// by `ping_count` (which then counts one more, wrapping), for ICMP; anything
/// else is a type mismatch.
pub fn create_socket(family: SocketFamily, kind: SocketKind, protocol: u32, ping_count: &mut u16) -> (r: Result<
    SocketCreation,
    ErrorStatus,
>)
    ensures
        ({
            let local = family == SocketFamily::Local && protocol == 0;
            let dgram = family == SocketFamily::Net && kind == SocketKind::Datagram;
            if local && kind == SocketKind::Stream {
                r == Ok::<SocketCreation, ErrorStatus>(SocketCreation::Local(LocalSocketKind::Stream))
                    && *final(ping_count) == *old(ping_count)
            } else if local && kind == SocketKind::SeqPacket {
                r == Ok::<SocketCreation, ErrorStatus>(SocketCreation::Local(LocalSocketKind::SeqPacket))
                    && *final(ping_count) == *old(ping_count)
            } else if dgram && (protocol == 0 || protocol == UDP_PROTOCOL) {
                r == Ok::<SocketCreation, ErrorStatus>(SocketCreation::Udp) && *final(ping_count) == *old(ping_count)
            } else if dgram && protocol == ICMP_PROTOCOL {
                r == Ok::<SocketCreation, ErrorStatus>(SocketCreation::Icmp(*old(ping_count)))
                    && *final(ping_count) == (if *old(ping_count) == u16::MAX { 0 } else { *old(ping_count) + 1 })
            } else {
                r == Err::<SocketCreation, ErrorStatus>(ErrorStatus::TypeMismatch) && *final(ping_count) == *old(
                    ping_count,
                )
            }
        }),
{
    let local = family == SocketFamily::Local && protocol == 0;
    let dgram = family == SocketFamily::Net && kind == SocketKind::Datagram;
    if local && kind == SocketKind::Stream {
        Ok(SocketCreation::Local(LocalSocketKind::Stream))
    } else if local && kind == SocketKind::SeqPacket {
        Ok(SocketCreation::Local(LocalSocketKind::SeqPacket))
    } else if dgram && (protocol == 0 || protocol == UDP_PROTOCOL) {
        Ok(SocketCreation::Udp)
    } else if dgram && protocol == ICMP_PROTOCOL {
        let id = *ping_count;
        *ping_count = if id == u16::MAX {
            0
        } else {
            id + 1
        };
        Ok(SocketCreation::Icmp(id))
    } else {
        Err(ErrorStatus::TypeMismatch)
    }
}

/// Where a UDP socket sends.
#[derive(Clone, Copy, Debug)]
pub enum UdpState {
    Disconnected,
    Connected { ip: Ipv4, port: u16 },
}

/// An address a socket is given.
#[derive(Clone, Copy, Debug)]
pub enum SocketAddr {
    /// A local socket's name, by its handle.
    Abstract(u64),
    /// An IPv4 address and port.
    Ip { addr: Ipv4, port: u16 },
}

/// A received datagram.
#[derive(Clone, Debug)]
pub struct Message {
    pub src_ip: Ipv4,
    pub src_port: u16,
    pub payload: Vec<u8>,
}

/// A queued datagram as a value: its source address and port, and its bytes.
pub open spec fn message_view(m: Message) -> (Ipv4, u16, Seq<u8>) {
    (m.src_ip, m.src_port, m.payload@)
}

/// The queue after a datagram `m` is delivered: it goes last.
pub open spec fn delivered(q: Seq<(Ipv4, u16, Seq<u8>)>, m: (Ipv4, u16, Seq<u8>)) -> Seq<(Ipv4, u16, Seq<u8>)> {
    q.push(m)
}

/// What a receive into a buffer of `buf_len` bytes takes from a non-empty
/// queue: the first bytes of the first datagram that fit, its source, and
/// the queue after (unchanged when peeking, else without that datagram).
pub open spec fn received(q: Seq<(Ipv4, u16, Seq<u8>)>, buf_len: int, peek: bool) -> (
    Seq<u8>,
    Ipv4,
    u16,
    Seq<(Ipv4, u16, Seq<u8>)>,
) {
    let m = q[0];
    let n = if buf_len < m.2.len() { buf_len } else { m.2.len() as int };
    (m.2.subrange(0, n), m.0, m.1, if peek { q } else { q.drop_first() })
}

/// What a receive asks.
#[derive(Clone, Copy, Debug, PartialEq, Eq, Structural)]
pub struct RecvFlags {
    /// Fail rather than wait.
    pub dont_wait: bool,
    /// Leave the message in the queue.
    pub peek: bool,
}

/// The outcome of a receive.
pub enum Received {
    /// No message yet: wait on the socket's queue, then receive again.
    Wait,
    /// The first bytes of the first message, its source, and whether the
    /// queue is then empty.
    Data { data: Vec<u8>, src_ip: Ipv4, src_port: u16, drained: bool },
}

/// The value of a socket option, to hand back to the caller.
#[derive(Clone, Copy, Debug, PartialEq, Eq, Structural)]
pub enum SockOptValue {
    Bool(bool),
    Ttl(u8),
    Timeout(Option<u64>),
}

/// A UDP socket.
pub struct UdpSocket {
    pub read_timeout: Option<u64>,
    pub write_timeout: Option<u64>,
    pub can_block: bool,
    pub ttl: u8,
    pub state: UdpState,
    pub messages: Vec<Message>,
    pub binded_to: Option<(Ipv4, u16)>,
    pub wait_queue: WaitQueue,
}

/// The time-to-live of new sockets' packets.
pub const DEFAULT_TTL: u8 = 64;

impl UdpSocket {
    /// The queued datagrams, oldest first.
    pub open spec fn queue(&self) -> Seq<(Ipv4, u16, Seq<u8>)> {
        self.messages@.map_values(|m: Message| message_view(m))
    }

    /// A disconnected, unbound socket with no messages.
    pub fn create(can_block: bool) -> (r: Self)
        ensures
            r.can_block == can_block,
            r.read_timeout is None && r.write_timeout is None,
            r.ttl == DEFAULT_TTL,
            r.state == UdpState::Disconnected,
            r.messages@.len() == 0,
            r.binded_to is None,
            r.wait_queue.view().len() == 0,
    {
        UdpSocket {
            read_timeout: None,
            write_timeout: None,
            can_block,
            ttl: DEFAULT_TTL,
            state: UdpState::Disconnected,
            messages: Vec::new(),
            binded_to: None,
            wait_queue: WaitQueue::new(),
        }
    }

    /// Delivers a datagram from `from_addr`:`from_port` to the socket: it is
    /// queued, one waiting reader is woken, and `true` comes back when the
    /// queue was empty. Returns the bytes taken, the readers woken and that flag.
    pub fn write(&mut self, from_addr: Ipv4, from_port: u16, data: &[u8]) -> (r: (usize, Vec<(Tid, u64)>, bool))
        ensures
            r.0 == data@.len(),
            r.2 == (old(self).messages@.len() == 0),
            final(self).messages@.len() == old(self).messages@.len() + 1,
            final(self).messages@.subrange(0, old(self).messages@.len() as int) == old(self).messages@,
            final(self).queue() == delivered(old(self).queue(), (from_addr, from_port, data@)),
            ({
                let m = final(self).messages@.last();
                m.src_ip == from_addr && m.src_port == from_port && m.payload@ == data@
            }),
            ({
                let w = wake_split(old(self).wait_queue.view(), WakeFilter::Any, 1);
                final(self).wait_queue.view() == w.0 && r.1@ == w.1
            }),
            final(self).state == old(self).state,
            final(self).binded_to == old(self).binded_to,
    {
        let was_empty = self.messages.len() == 0;
        let payload = crate::net::copy_from(data, 0);
        assert(payload@ =~= data@);
        self.messages.push(Message { src_ip: from_addr, src_port: from_port, payload });
        assert(self.messages@.subrange(0, old(self).messages@.len() as int) =~= old(self).messages@);
        assert(self.queue() =~= delivered(old(self).queue(), (from_addr, from_port, data@)));
        let woken = self.wait_queue.wake_n_on_condition(WakeFilter::Any, 1);
        (data.len(), woken, was_empty)
    }

    /// Sets an option from `value`: blocking when positive, the TTL from its
    /// low byte, a timeout in milliseconds (none for 0); broadcasting is
    /// always allowed. The socket-error option is not supported.
    pub fn set_sock_opt(&mut self, opt: SocketOpt, value: u64) -> (r: Result<(), ErrorStatus>)
        requires
            opt != SocketOpt::SockError,
        ensures
            r is Ok,
            final(self).can_block == (if opt == SocketOpt::Blocking { value > 0 } else { old(self).can_block }),
            final(self).ttl == (if opt == SocketOpt::IpTTL { (value % 256) as u8 } else { old(self).ttl }),
            final(self).read_timeout == (if opt == SocketOpt::ReadTimeout {
                if value == 0 { None } else { Some(value) }
            } else {
                old(self).read_timeout
            }),
            final(self).write_timeout == (if opt == SocketOpt::WriteTimeout {
                if value == 0 { None } else { Some(value) }
            } else {
                old(self).write_timeout
            }),
            final(self).state == old(self).state,
            final(self).binded_to == old(self).binded_to,
            final(self).messages == old(self).messages,
    {
        match opt {
            SocketOpt::Blocking => self.can_block = value > 0,
            SocketOpt::IpTTL => self.ttl = (value % 256) as u8,
            SocketOpt::ReadTimeout => self.read_timeout = if value == 0 {
                None
            } else {
                Some(value)
            },
            SocketOpt::WriteTimeout => self.write_timeout = if value == 0 {
                None
            } else {
                Some(value)
            },
            SocketOpt::SockError => {},
            SocketOpt::IpBroadcast => {},
        }
        Ok(())
    }

    /// The value of an option; broadcasting is always allowed. The
    /// socket-error option is not supported.
    pub fn get_sock_opt(&self, opt: SocketOpt) -> (r: SockOptValue)
        requires
            opt != SocketOpt::SockError,
        ensures
            r == match opt {
                SocketOpt::Blocking => SockOptValue::Bool(self.can_block),
                SocketOpt::IpTTL => SockOptValue::Ttl(self.ttl),
                SocketOpt::ReadTimeout => SockOptValue::Timeout(self.read_timeout),
                SocketOpt::WriteTimeout => SockOptValue::Timeout(self.write_timeout),
                _ => SockOptValue::Bool(true),
            },
    {
        match opt {
            SocketOpt::Blocking => SockOptValue::Bool(self.can_block),
            SocketOpt::IpTTL => SockOptValue::Ttl(self.ttl),
            SocketOpt::ReadTimeout => SockOptValue::Timeout(self.read_timeout),
            SocketOpt::WriteTimeout => SockOptValue::Timeout(self.write_timeout),
            _ => SockOptValue::Bool(true),
        }
    }

    /// Connects to an IPv4 address and port; a local name is not supported.
    pub fn connect(&mut self, addr: SocketAddr) -> (r: Result<(), SocketError>)
        ensures
            match addr {
                SocketAddr::Ip { addr: a, port } => r is Ok && final(self).state == (UdpState::Connected { ip: a, port }),
                SocketAddr::Abstract(_) => r == Err::<(), SocketError>(SocketError::OperationNotSupported)
                    && final(self).state == old(self).state,
            },
            final(self).binded_to == old(self).binded_to,
            final(self).messages == old(self).messages,
    {
        match addr {
            SocketAddr::Ip { addr, port } => {
                self.state = UdpState::Connected { ip: addr, port };
                Ok(())
            },
            SocketAddr::Abstract(_) => Err(SocketError::OperationNotSupported),
        }
    }

    /// Binds the socket, whose handle is `handle`, to an IPv4 address and
    /// port in the table of bound ports; a port in use fails, and a local
    /// name is not supported.
    pub fn bind(&mut self, addr: SocketAddr, ports: &mut HandleTable, handle: u64) -> (r: Result<(), SocketError>)
        ensures
            match addr {
                SocketAddr::Ip { addr: a, port } => if old(ports).view().contains_key(port as u64) {
                    r == Err::<(), SocketError>(SocketError::AddressInUse) && final(self).binded_to == old(self).binded_to
                        && final(ports).view() == old(ports).view()
                } else {
                    r is Ok && final(self).binded_to == Some((a, port)) && final(ports).view() == old(
                        ports,
                    ).view().insert(port as u64, handle)
                },
                SocketAddr::Abstract(_) => r == Err::<(), SocketError>(SocketError::OperationNotSupported)
                    && final(self).binded_to == old(self).binded_to && final(ports).view() == old(ports).view(),
            },
            final(self).state == old(self).state,
            final(self).messages == old(self).messages,
    {
        match addr {
            SocketAddr::Ip { addr, port } => {
                match bind_socket(ports, port, handle) {
                    Ok(()) => {
                        self.binded_to = Some((addr, port));
                        Ok(())
                    },
                    Err(()) => Err(SocketError::AddressInUse),
                }
            },
            SocketAddr::Abstract(_) => Err(SocketError::OperationNotSupported),
        }
    }

    /// Where a send goes: the connected address and port, from the bound
    /// port, with the socket's TTL. A disconnected socket's connection is
    /// closed; an unbound one is not bound.
    pub fn send_target(&self) -> (r: Result<(Ipv4, u16, u16, u8), SocketError>)
        ensures
            match self.state {
                UdpState::Disconnected => r == Err::<(Ipv4, u16, u16, u8), SocketError>(SocketError::ConnectionClosed),
                UdpState::Connected { ip, port } => match self.binded_to {
                    None => r == Err::<(Ipv4, u16, u16, u8), SocketError>(SocketError::NotBound),
                    Some((_, src)) => r == Ok::<(Ipv4, u16, u16, u8), SocketError>((ip, port, src, self.ttl)),
                },
            },
    {
        match self.state {
            UdpState::Disconnected => Err(SocketError::ConnectionClosed),
            UdpState::Connected { ip, port } => match self.binded_to {
                None => Err(SocketError::NotBound),
                Some((_, src)) => Ok((ip, port, src, self.ttl)),
            },
        }
    }

    /// Where a send to `addr` goes: that address and port, from the bound
    /// port, with the socket's TTL. An unbound socket is not bound; a local
    /// name is not supported.
    pub fn send_to_target(&self, addr: SocketAddr) -> (r: Result<(Ipv4, u16, u16, u8), SocketError>)
        ensures
            match addr {
                SocketAddr::Abstract(_) => r == Err::<(Ipv4, u16, u16, u8), SocketError>(
                    SocketError::OperationNotSupported,
                ),
                SocketAddr::Ip { addr: a, port } => match self.binded_to {
                    None => r == Err::<(Ipv4, u16, u16, u8), SocketError>(SocketError::NotBound),
                    Some((_, src)) => r == Ok::<(Ipv4, u16, u16, u8), SocketError>((a, port, src, self.ttl)),
                },
            },
    {
        match addr {
            SocketAddr::Ip { addr, port } => match self.binded_to {
                None => Err(SocketError::NotBound),
                Some((_, src)) => Ok((addr, port, src, self.ttl)),
            },
            SocketAddr::Abstract(_) => Err(SocketError::OperationNotSupported),
        }
    }

    /// Receives into a buffer of `buf_len` bytes: the first bytes of the
    /// first message and its source; the message leaves the queue unless
    /// peeking. With no message, a socket that may block waits; another
    /// would block.
    pub fn recv_from(&mut self, buf_len: usize, flags: RecvFlags) -> (r: Result<Received, SocketError>)
        ensures
            final(self).state == old(self).state,
            final(self).binded_to == old(self).binded_to,
            old(self).messages@.len() == 0 ==> final(self).messages == old(self).messages && (if !flags.dont_wait
                && old(self).can_block {
                r matches Ok(Received::Wait)
            } else {
                r == Err::<Received, SocketError>(SocketError::WouldBlockEmpty)
            }),
            old(self).messages@.len() > 0 ==> ({
                let m = old(self).messages@[0];
                let n = if buf_len < m.payload@.len() { buf_len as int } else { m.payload@.len() as int };
                &&& final(self).messages@ == (if flags.peek {
                    old(self).messages@
                } else {
                    old(self).messages@.drop_first()
                })
                &&& r matches Ok(Received::Data { data, src_ip, src_port, drained }) && data@ == m.payload@.subrange(0, n)
                    && src_ip == m.src_ip && src_port == m.src_port && drained == (final(self).messages@.len() == 0)
                    && (data@, src_ip, src_port, final(self).queue()) == received(old(self).queue(), buf_len as int, flags.peek)
            }),
    {
        if self.messages.len() == 0 {
            if !flags.dont_wait && self.can_block {
                return Ok(Received::Wait);
            } else {
                return Err(SocketError::WouldBlockEmpty);
            }
        }
        let size = if buf_len < self.messages[0].payload.len() {
            buf_len
        } else {
            self.messages[0].payload.len()
        };
        let (data, _) = crate::vtty::split_front(&self.messages[0].payload, size);
        let src_ip = self.messages[0].src_ip;
        let src_port = self.messages[0].src_port;
        if !flags.peek {
            self.messages.remove(0);
            assert(self.messages@ =~= old(self).messages@.drop_first());
            assert(self.queue() =~= old(self).queue().drop_first());
        }
        let drained = self.messages.len() == 0;
        Ok(Received::Data { data, src_ip, src_port, drained })
    }

    /// Closes the socket: its port, if bound, is unbound.
    pub fn on_close(&mut self, ports: &mut HandleTable)
        requires
            old(self).binded_to matches Some((_, p)) ==> old(ports).view().contains_key(p as u64),
        ensures
            final(self).binded_to is None,
            final(ports).view() == (match old(self).binded_to {
                Some((_, p)) => old(ports).view().remove(p as u64),
                None => old(ports).view(),
            }),
    {
        match self.binded_to {
            Some((_, port)) => {
                remove_socket(ports, port);
            },
            None => {},
        }
        self.binded_to = None;
    }
}

/// Datagrams come back in the order they were delivered: after `m` is
/// delivered to a queue `q`, a receive (not peeking) gives the first datagram
/// of `q`, or `m` itself, with its source, when `q` was empty; and `m` given
/// whole into a buffer at least as long as it. The queue is then what was
/// delivered after the datagram received.
pub proof fn law_datagrams_in_order(
    q: Seq<(Ipv4, u16, Seq<u8>)>,
    m: (Ipv4, u16, Seq<u8>),
    buf_len: int,
)
    requires
        buf_len >= 0,
    ensures
        ({
            let first = if q.len() > 0 { q[0] } else { m };
            let r = received(delivered(q, m), buf_len, false);
            &&& r.1 == first.0 && r.2 == first.1
            &&& buf_len >= first.2.len() ==> r.0 == first.2
            &&& r.3 == (if q.len() > 0 { delivered(q.drop_first(), m) } else { Seq::empty() })
        }),
{
    let q1 = delivered(q, m);
    if q.len() > 0 {
        assert(q1.drop_first() =~= delivered(q.drop_first(), m));
    } else {
        assert(q1.drop_first() =~= Seq::<(Ipv4, u16, Seq<u8>)>::empty());
    }
    let first = q1[0];
    assert(buf_len >= first.2.len() ==> first.2.subrange(0, first.2.len() as int) =~= first.2);
}

} // verus!
