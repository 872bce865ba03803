//! Socket-level value types: address family, socket type, address-info
//! flags, and the socket-descriptor wrapper. Each carries an exact mapping
//! to the raw integer codes of the C socket API on Linux.

use vstd::prelude::*;

verus! {

/// Raw code for "either address family", as the C socket API encodes it on Linux.
pub const AF_UNSPEC: i32 = 0;

/// Raw code for the IPv4 address family on Linux.
pub const AF_INET: i32 = 2;

/// Raw code for the IPv6 address family on Linux.
pub const AF_INET6: i32 = 10;

/// Raw code for a stream (TCP) socket on Linux.
pub const SOCK_STREAM: i32 = 1;

/// Raw code for a datagram (UDP) socket on Linux.
pub const SOCK_DGRAM: i32 = 2;

/// Raw code for the "use my own address" address-info flag on Linux.
pub const AI_PASSIVE: i32 = 1;

/// Address-family preference: IPv4, IPv6, or no preference.
#[derive(Debug, Clone, Copy, PartialEq, Eq, Structural)]
pub enum Family {
    Ipv4,
    Ipv6,
    Unspecified,
}

impl Family {
    /// The raw address-family code this variant stands for.
    pub open spec fn code(self) -> i32 {
        match self {
            Family::Ipv4 => AF_INET,
            Family::Ipv6 => AF_INET6,
            Family::Unspecified => AF_UNSPEC,
        }
    }

    /// The variant a raw address-family code stands for; any code other
    /// than the IPv4 and IPv6 ones reads as "unspecified".
    pub open spec fn from_code(code: i32) -> Family {
        if code == AF_INET {
            Family::Ipv4
        } else if code == AF_INET6 {
            Family::Ipv6
        } else {
            Family::Unspecified
        }
    }

    /// Lowers the family to its raw code.
    pub fn into(self) -> (code: i32)
        ensures
            code == self.code(),
    {
        match self {
            Family::Ipv4 => AF_INET,
            Family::Ipv6 => AF_INET6,
            Family::Unspecified => AF_UNSPEC,
        }
    }

    /// Reads a family back from a raw code.
    pub fn from(family: i32) -> (f: Family)
        ensures
            f == Family::from_code(family),
    {
        if family == AF_INET {
            Family::Ipv4
        } else if family == AF_INET6 {
            Family::Ipv6
        } else {
            Family::Unspecified
        }
    }

    /// A human-readable name for the family.
    pub fn label(&self) -> (s: &'static str)
        ensures
            *self is Ipv4 ==> s@ == "ipv4"@,
            *self is Ipv6 ==> s@ == "ipv6"@,
            *self is Unspecified ==> s@ == "unspecified"@,
    {
        match self {
            Family::Ipv4 => "ipv4",
            Family::Ipv6 => "ipv6",
            Family::Unspecified => "unspecified",
        }
    }
}

/// Transport style of a socket: stream or datagram.
#[derive(Debug, Clone, Copy, PartialEq, Eq, Structural)]
pub enum SocketType {
    Stream,
    Datagram,
}

impl SocketType {
    /// The raw socket-type code this variant stands for.
    pub open spec fn code(self) -> i32 {
        match self {
            SocketType::Stream => SOCK_STREAM,
            SocketType::Datagram => SOCK_DGRAM,
        }
    }

    /// Lowers the socket type to its raw code.
    pub fn into(self) -> (code: i32)
        ensures
            code == self.code(),
    {
        match self {
            SocketType::Stream => SOCK_STREAM,
            SocketType::Datagram => SOCK_DGRAM,
        }
    }

    /// Reads a socket type back from a raw code. Codes other than the
    /// stream and datagram ones name no socket type of this library, so
    /// they are excluded up front.
    pub fn from(socktype: i32) -> (t: SocketType)
        requires
            socktype == SOCK_STREAM || socktype == SOCK_DGRAM,
        ensures
            t.code() == socktype,
    {
        if socktype == SOCK_STREAM {
            SocketType::Stream
        } else {
            SocketType::Datagram
        }
    }
}

/// Address-info request flags.
#[derive(Debug, Clone, Copy, PartialEq, Eq, Structural)]
pub enum Flag {
    /// No flags.
    NoFlags,
    /// Assign the address of my local host to the socket structures.
    Passive,
}

impl Flag {
    /// The raw flag bits this variant stands for.
    pub open spec fn code(self) -> i32 {
        match self {
            Flag::NoFlags => 0,
            Flag::Passive => AI_PASSIVE,
        }
    }

    /// Lowers the flag to its raw bits.
    pub fn into(self) -> (code: i32)
        ensures
            code == self.code(),
    {
        match self {
            Flag::NoFlags => 0,
            Flag::Passive => AI_PASSIVE,
        }
    }
}

/// A socket descriptor that may not have been opened yet.
#[derive(Debug, Clone, Copy, PartialEq, Eq, Structural)]
pub enum SockFd {
    Empty,
    Initialized(i32),
}

impl SockFd {
    /// The raw descriptor value: the C convention of `-1` for "no socket".
    pub open spec fn raw(self) -> i32 {
        match self {
            SockFd::Empty => -1i32,
            SockFd::Initialized(fd) => fd,
        }
    }

    /// Lowers the descriptor to its raw value.
    pub fn into(self) -> (fd: i32)
        ensures
            fd == self.raw(),
    {
        match self {
            SockFd::Empty => -1,
            SockFd::Initialized(fd) => fd,
        }
    }
}

} // verus!
