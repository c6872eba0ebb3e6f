//! Sockets behind file descriptors.
use crate::api::imp::fs::stat::{empty_stat, Stat};
use crate::errno::LinuxError;
use vstd::prelude::*;

verus! {

/// An address and a port.
#[derive(Debug, Clone, Copy)]
pub struct SocketAddrV4 {
    /// The four numbers of the address.
    pub ip: [u8; 4],
    pub port: u16,
}

/// The family of the addresses of version four.
pub const AF_INET: u16 = 2;

/// An address and a port in the form that a caller sees. The bytes of each
/// number stand in the order of the network.
#[derive(Debug, Clone, Copy)]
pub struct SockaddrIn {
    pub sin_family: u16,
    pub sin_port: [u8; 2],
    pub sin_addr: [u8; 4],
    pub sin_zero: [u8; 8],
}

/// The port that two bytes stand for, the higher first.
pub open spec fn port_of(bytes: Seq<u8>) -> int {
    bytes[0] * 256 + bytes[1]
}

/// Whether `sa` is the address `addr` in the form that a caller sees.
pub open spec fn encodes(sa: SockaddrIn, addr: SocketAddrV4) -> bool {
    &&& sa.sin_family == AF_INET
    &&& port_of(sa.sin_port@) == addr.port
    &&& sa.sin_addr@ == addr.ip@
    &&& forall|i: int| 0 <= i < 8 ==> #[trigger] sa.sin_zero@[i] == 0
}

/// Returns an address in the form that a caller sees.
pub fn sockaddr_from_addr(addr: SocketAddrV4) -> (r: SockaddrIn)
    ensures
        encodes(r, addr),
{
    SockaddrIn {
        sin_family: AF_INET,
        sin_port: [(addr.port / 256) as u8, (addr.port % 256) as u8],
        sin_addr: addr.ip,
        sin_zero: [0, 0, 0, 0, 0, 0, 0, 0],
    }
}

/// Returns the address that a caller has given. Neither the family nor the
/// bytes that should be zero are looked at.
pub fn addr_from_sockaddr(sa: SockaddrIn) -> (r: SocketAddrV4)
    ensures
        r.port == port_of(sa.sin_port@),
        r.ip@ == sa.sin_addr@,
{
    SocketAddrV4 {
        ip: sa.sin_addr,
        port: sa.sin_port[0] as u16 * 256 + sa.sin_port[1] as u16,
    }
}

/// An address comes back from the form that a caller sees.
pub proof fn law_sockaddr_round_trip(addr: SocketAddrV4, sa: SockaddrIn, back: SocketAddrV4)
    requires
        encodes(sa, addr),
        back.port == port_of(sa.sin_port@),
        back.ip@ == sa.sin_addr@,
    ensures
        back.port == addr.port,
        back.ip@ == addr.ip@,
{
}

/// What kind of socket a descriptor stands for.
#[derive(Debug, Clone, Copy, PartialEq, Eq, Structural)]
pub enum Socket {
    Udp,
    Tcp,
}

/// What a socket has received: how much, and from whom.
pub type Received = (usize, Option<SocketAddrV4>);

impl Socket {
    /// Returns how much was received. Where it came from is not told.
    pub fn recv(&self, received: Result<Received, LinuxError>) -> (r: Result<usize, LinuxError>)
        ensures
            r == match received {
                Ok(received) => Ok(received.0),
                Err(e) => Err(e),
            },
    {
        match received {
            Ok((len, _)) => Ok(len),
            Err(e) => Err(e),
        }
    }

    /// Whether data can be sent to an address: a stream is connected already.
    pub fn sendto(&self) -> (r: Result<(), LinuxError>)
        ensures
            r == match *self {
                Socket::Udp => Ok(()),
                Socket::Tcp => Err(LinuxError::EISCONN),
            },
    {
        match self {
            Socket::Udp => Ok(()),
            Socket::Tcp => Err(LinuxError::EISCONN),
        }
    }

    /// Returns how much was received, and for a datagram from whom. A stream
    /// does not tell.
    pub fn recvfrom(&self, received: Result<Received, LinuxError>) -> (r: Result<
        Received,
        LinuxError,
    >)
        ensures
            r == match (*self, received) {
                (_, Err(e)) => Err(e),
                (Socket::Udp, Ok(received)) => Ok(received),
                (Socket::Tcp, Ok(received)) => Ok((received.0, None)),
            },
    {
        match received {
            Err(e) => Err(e),
            Ok((len, addr)) => match self {
                Socket::Udp => Ok((len, addr)),
                Socket::Tcp => Ok((len, None)),
            },
        }
    }

    /// Whether the socket can wait for connections: only a stream can.
    pub fn listen(&self) -> (r: Result<(), LinuxError>)
        ensures
            r == match *self {
                Socket::Udp => Err(LinuxError::EOPNOTSUPP),
                Socket::Tcp => Ok(()),
            },
    {
        match self {
            Socket::Udp => Err(LinuxError::EOPNOTSUPP),
            Socket::Tcp => Ok(()),
        }
    }

    /// Whether the socket can take connections: only a stream can.
    pub fn accept(&self) -> (r: Result<(), LinuxError>)
        ensures
            r == match *self {
                Socket::Udp => Err(LinuxError::EOPNOTSUPP),
                Socket::Tcp => Ok(()),
            },
    {
        match self {
            Socket::Udp => Err(LinuxError::EOPNOTSUPP),
            Socket::Tcp => Ok(()),
        }
    }

    /// Returns the status of the socket.
    pub fn stat(&self) -> (r: Result<Stat, LinuxError>)
        ensures
            r == Ok::<Stat, LinuxError>(
                Stat {
                    st_ino: 1,
                    st_nlink: 1,
                    st_mode: 0o140777,
                    st_uid: 1000,
                    st_gid: 1000,
                    st_blksize: 4096,
                    ..empty_stat()
                },
            ),
    {
        let mut stat = Stat::default();
        stat.st_ino = 1;
        stat.st_nlink = 1;
        // S_IFSOCK | rwxrwxrwx
        stat.st_mode = 0o140777;
        stat.st_uid = 1000;
        stat.st_gid = 1000;
        stat.st_blksize = 4096;
        Ok(stat)
    }
}

/// A caller sees an address in the order of the network: the family is two, the higher
/// byte of the port comes first, and the four numbers of the address come in their order,
/// with eight zeros behind.
pub proof fn law_network_order(addr: SocketAddrV4, sa: SockaddrIn)
    requires
        encodes(sa, addr),
    ensures
        sa.sin_family == 2,
        sa.sin_port@[0] == addr.port / 256,
        sa.sin_port@[1] == addr.port % 256,
        forall|i: int| 0 <= i < 4 ==> #[trigger] sa.sin_addr@[i] == addr.ip@[i],
        forall|i: int| 0 <= i < 8 ==> #[trigger] sa.sin_zero@[i] == 0,
{
}

/// The port that a caller names is the one that its two bytes stand for, the higher first:
/// no two ports have the same bytes.
pub proof fn law_port_of_two_bytes(high: u8, low: u8)
    ensures
        port_of(seq![high, low]) / 256 == high,
        port_of(seq![high, low]) % 256 == low,
{
}

} // verus!
