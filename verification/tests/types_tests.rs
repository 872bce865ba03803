use relay::builders::AddrInfo;
use relay::types::{Family, Flag, SockFd, SocketType};

#[test]
fn family_into_raw_codes() {
    let ipv4: i32 = Family::Ipv4.into();
    let ipv6: i32 = Family::Ipv6.into();
    let unspec: i32 = Family::Unspecified.into();
    assert_eq!(ipv4, 2);
    assert_eq!(ipv6, 10);
    assert_eq!(unspec, 0);
}

#[test]
fn family_from_raw_codes() {
    assert_eq!(Family::from(2), Family::Ipv4);
    assert_eq!(Family::from(10), Family::Ipv6);
    assert_eq!(Family::from(0), Family::Unspecified);
    assert_eq!(Family::from(99), Family::Unspecified);
    assert_eq!(Family::from(-1), Family::Unspecified);
}

#[test]
fn family_labels() {
    assert_eq!(Family::Ipv4.label(), "ipv4");
    assert_eq!(Family::Ipv6.label(), "ipv6");
    assert_eq!(Family::Unspecified.label(), "unspecified");
}

#[test]
fn socket_type_into_raw_codes() {
    let stream: i32 = SocketType::Stream.into();
    let dgram: i32 = SocketType::Datagram.into();
    assert_eq!(stream, 1);
    assert_eq!(dgram, 2);
}

#[test]
fn socket_type_from_raw_codes() {
    assert_eq!(SocketType::from(1), SocketType::Stream);
    assert_eq!(SocketType::from(2), SocketType::Datagram);
}

#[test]
fn flag_into_raw_bits() {
    let none: i32 = Flag::NoFlags.into();
    let passive: i32 = Flag::Passive.into();
    assert_eq!(none, 0);
    assert_eq!(passive, 1);
}

#[test]
fn sockfd_into_raw() {
    let empty: i32 = SockFd::Empty.into();
    let open: i32 = SockFd::Initialized(7).into();
    assert_eq!(empty, -1);
    assert_eq!(open, 7);
}

#[test]
fn addrinfo_builder_defaults() {
    let a = AddrInfo::builder().build();
    assert_eq!(a.family, Family::Unspecified);
    assert_eq!(a.socktype, SocketType::Stream);
    assert_eq!(a.flags, Flag::NoFlags);
}

#[test]
fn addrinfo_builder_setters() {
    let a = AddrInfo::builder()
        .family(Family::Ipv6)
        .socktype(SocketType::Datagram)
        .flags(Flag::Passive)
        .build();
    assert_eq!(a.family, Family::Ipv6);
    assert_eq!(a.socktype, SocketType::Datagram);
    assert_eq!(a.flags, Flag::Passive);
}

#[test]
fn addrinfo_into_raw_triple() {
    let a = AddrInfo::builder().family(Family::Ipv6).flags(Flag::Passive).build();
    let raw: (i32, i32, i32) = a.into();
    assert_eq!(raw, (10, 1, 1));
    let b = AddrInfo::builder().family(Family::Ipv4).build();
    let raw_b: (i32, i32, i32) = b.into();
    assert_eq!(raw_b, (2, 1, 0));
}
