use udp_forward::addr::{IpAddr, Ipv4Addr, Ipv6Addr, SocketAddr, SocketAddrV4, SocketAddrV6};
use udp_forward::worker::source::batch::{Filled, PeerAddr};
use udp_forward::worker::source::silent::{
    attach_link_local_scope, capture_ifindex, check_interface_scope, ipv4_fragment_source,
    is_link_local_v6, listen_scope, listen_scope_matches, new_capture_socket, parse_captured_udp, parse_ipv4,
    parse_ipv6, Rejection, SilentSource, ETH_P_IP, ETH_P_IPV6,
};
use udp_forward::worker::source::wire::{MORE_FRAGMENTS, UDP_PROTOCOL};

const FE80_1: u128 = 0xfe80_0000_0000_0000_0000_0000_0000_0001;
const FE80_ABCD: u128 = 0xfe80_0000_0000_0000_0000_0000_0000_abcd;
const DB8_1: u128 = 0x2001_0db8_0000_0000_0000_0000_0000_0001;

/// Builds an IPv4 + UDP packet (as an AF_PACKET SOCK_DGRAM capture would
/// deliver it) with the given fragmentation flags/offset word and payload.
fn ipv4_udp(flags_frag: u16, dport: u16, payload: &[u8]) -> Vec<u8> {
    let total = 20 + 8 + payload.len();
    let mut p = vec![0u8; total];
    p[0] = 0x45; // version 4, IHL 5
    p[2..4].copy_from_slice(&(total as u16).to_be_bytes());
    p[6..8].copy_from_slice(&flags_frag.to_be_bytes());
    p[8] = 64; // TTL
    p[9] = 17; // UDP
    p[12..16].copy_from_slice(&[127, 0, 0, 1]);
    p[16..20].copy_from_slice(&[127, 0, 0, 1]);
    p[20..22].copy_from_slice(&1234u16.to_be_bytes()); // src port
    p[22..24].copy_from_slice(&dport.to_be_bytes());
    p[24..26].copy_from_slice(&((8 + payload.len()) as u16).to_be_bytes());
    p[28..].copy_from_slice(payload);
    p
}

/// Builds an IPv6 + UDP packet with the given next header value.
fn ipv6_udp(next_header: u8, src: u128, dst: u128, dport: u16, payload: &[u8]) -> Vec<u8> {
    let mut p = vec![0u8; 48 + payload.len()];
    p[0] = 0x60;
    p[4..6].copy_from_slice(&((8 + payload.len()) as u16).to_be_bytes());
    p[6] = next_header;
    p[7] = 64;
    p[8..24].copy_from_slice(&src.to_be_bytes());
    p[24..40].copy_from_slice(&dst.to_be_bytes());
    p[40..42].copy_from_slice(&1234u16.to_be_bytes());
    p[42..44].copy_from_slice(&dport.to_be_bytes());
    p[44..46].copy_from_slice(&((8 + payload.len()) as u16).to_be_bytes());
    p[48..].copy_from_slice(payload);
    p
}

fn v4(bits: u32, port: u16) -> SocketAddr {
    SocketAddr::new(IpAddr::V4(Ipv4Addr { bits }), port)
}

fn v6(bits: u128, port: u16, scope_id: u32) -> SocketAddr {
    SocketAddr::V6(SocketAddrV6 { ip: Ipv6Addr { bits }, port, flowinfo: 0, scope_id })
}

fn wildcard(port: u16) -> SocketAddr {
    v4(0, port)
}

fn scope_of(addr: SocketAddr) -> u32 {
    match addr {
        SocketAddr::V6(v6) => v6.scope_id,
        _ => unreachable!(),
    }
}

#[test]
fn accepts_unfragmented_udp() {
    let pkt = ipv4_udp(0x0000, 4400, b"hello");
    let d = parse_captured_udp(&pkt, wildcard(4400)).expect("should parse");
    assert_eq!(d.src.port(), 1234);
    assert_eq!(d.payload, b"hello");
}

#[test]
fn rejects_first_fragment() {
    // More Fragments flag set (0x2000), offset 0.
    let pkt = ipv4_udp(0x2000, 4400, b"hello");
    assert!(parse_captured_udp(&pkt, wildcard(4400)).is_none());
}

#[test]
fn rejects_later_fragment() {
    // Non-zero fragment offset (2 * 8 bytes).
    let pkt = ipv4_udp(0x0002, 4400, b"hello");
    assert!(parse_captured_udp(&pkt, wildcard(4400)).is_none());
}

#[test]
fn rejects_wrong_port() {
    let pkt = ipv4_udp(0x0000, 9999, b"hello");
    assert!(parse_captured_udp(&pkt, wildcard(4400)).is_none());
}

#[test]
fn enforces_specific_listen_ip() {
    // Packet is addressed to 127.0.0.1 (see `ipv4_udp`).
    let pkt = ipv4_udp(0x0000, 4400, b"hello");
    let matching = v4(0x7f00_0001, 4400);
    let other = v4(0x7f00_0002, 4400);
    assert!(parse_captured_udp(&pkt, matching).is_some());
    assert!(parse_captured_udp(&pkt, other).is_none());
}

#[test]
fn rejects_declared_length_beyond_capture() {
    // Claim a UDP length longer than the bytes actually present.
    let mut pkt = ipv4_udp(0x0000, 4400, b"hello");
    pkt[24..26].copy_from_slice(&(8 + 100u16).to_be_bytes());
    assert!(parse_captured_udp(&pkt, wildcard(4400)).is_none());
}

#[test]
fn ignores_link_layer_padding() {
    // A short datagram padded to a larger frame: the UDP length claims into
    // the padding, but the IP total length bounds it out.
    let mut pkt = ipv4_udp(0x0000, 4400, b"hi");
    pkt[24..26].copy_from_slice(&(8 + 50u16).to_be_bytes()); // bogus UDP length
    pkt.extend(std::iter::repeat(0u8).take(50)); // link-layer padding
    assert!(parse_captured_udp(&pkt, wildcard(4400)).is_none());
}

#[test]
fn scoped_listen_requires_matching_capture_interface() {
    let scoped = v6(FE80_1, 5000, 3);
    assert!(listen_scope_matches(scoped, Some(3)));
    assert!(!listen_scope_matches(scoped, Some(4)));
    assert!(!listen_scope_matches(scoped, None));
    // Unscoped and IPv4 listen addresses accept any interface.
    assert!(listen_scope_matches(wildcard(5000), Some(7)));
    assert!(listen_scope_matches(v6(0, 5000, 0), None));
}

#[test]
fn link_local_source_gets_capture_scope() {
    let mut src = v6(FE80_ABCD, 1, 0);
    attach_link_local_scope(&mut src, Some(9));
    assert_eq!(scope_of(src), 9);

    // A global address is left alone.
    let mut global = v6(DB8_1, 1, 0);
    attach_link_local_scope(&mut global, Some(9));
    assert_eq!(scope_of(global), 0);
}

#[test]
fn header_numbers_are_those_of_the_packet_crate() {
    assert_eq!(UDP_PROTOCOL, pnet_packet::ip::IpNextHeaderProtocols::Udp.0);
    assert_eq!(MORE_FRAGMENTS, pnet_packet::ipv4::Ipv4Flags::MoreFragments);
    assert_eq!(ETH_P_IP as i32, libc::ETH_P_IP);
    assert_eq!(ETH_P_IPV6 as i32, libc::ETH_P_IPV6);
}

#[test]
fn padding_leaves_a_whole_datagram_unchanged() {
    let mut pkt = ipv4_udp(0x0000, 4400, b"hi");
    pkt.extend(std::iter::repeat(0xeeu8).take(18));
    let d = parse_captured_udp(&pkt, wildcard(4400)).unwrap();
    assert_eq!(d.payload, b"hi");
}

#[test]
fn ipv4_envelope_has_every_field() {
    let mut pkt = ipv4_udp(0x4000, 4400, b"hello"); // Don't Fragment
    pkt[12..16].copy_from_slice(&[10, 20, 30, 40]);
    pkt[16..20].copy_from_slice(&[192, 168, 1, 2]);
    let ip = parse_ipv4(&pkt).unwrap();
    assert_eq!(ip.header_len, 20);
    assert_eq!(ip.total, 33);
    assert_eq!(ip.src, IpAddr::V4(Ipv4Addr { bits: 0x0a14_1e28 }));
    assert_eq!(ip.dst, IpAddr::V4(Ipv4Addr { bits: 0xc0a8_0102 }));
}

#[test]
fn ipv4_options_move_the_udp_header() {
    let plain = ipv4_udp(0x0000, 4400, b"hello");
    let mut pkt = plain[..20].to_vec();
    pkt[0] = 0x46; // one word of options
    pkt[2..4].copy_from_slice(&37u16.to_be_bytes());
    pkt.extend([1, 1, 1, 1]);
    pkt.extend(&plain[20..]);
    let d = parse_captured_udp(&pkt, wildcard(4400)).unwrap();
    assert_eq!(d.payload, b"hello");
    assert_eq!(d.src, v4(0x7f00_0001, 1234));
}

#[test]
fn rejects_malformed_ipv4() {
    let good = ipv4_udp(0x0000, 4400, b"hello");
    assert!(parse_ipv4(&good[..19]).is_none());
    let mut version = good.clone();
    version[0] = 0x55;
    assert!(parse_ipv4(&version).is_none());
    let mut short_header = good.clone();
    short_header[0] = 0x44;
    assert!(parse_ipv4(&short_header).is_none());
    let mut tcp = good.clone();
    tcp[9] = 6;
    assert!(parse_ipv4(&tcp).is_none());
    let mut no_room = good.clone();
    no_room[2..4].copy_from_slice(&27u16.to_be_bytes());
    assert!(parse_captured_udp(&no_room, wildcard(4400)).is_none());
    let mut cut = good.clone();
    cut.pop();
    assert!(parse_captured_udp(&cut, wildcard(4400)).is_none());
    let mut short_udp = good.clone();
    short_udp[24..26].copy_from_slice(&7u16.to_be_bytes());
    assert!(parse_captured_udp(&short_udp, wildcard(4400)).is_none());
}

#[test]
fn a_short_udp_length_shortens_the_payload() {
    let mut pkt = ipv4_udp(0x0000, 4400, b"hello");
    pkt[24..26].copy_from_slice(&10u16.to_be_bytes());
    assert_eq!(parse_captured_udp(&pkt, wildcard(4400)).unwrap().payload, b"he");
    pkt[24..26].copy_from_slice(&8u16.to_be_bytes());
    assert_eq!(parse_captured_udp(&pkt, wildcard(4400)).unwrap().payload, b"");
}

#[test]
fn parses_ipv6() {
    let pkt = ipv6_udp(17, DB8_1, FE80_1, 4400, b"six");
    let ip = parse_ipv6(&pkt).unwrap();
    assert_eq!(ip.header_len, 40);
    assert_eq!(ip.total, 51);
    assert_eq!(ip.src, IpAddr::V6(Ipv6Addr { bits: DB8_1 }));
    assert_eq!(ip.dst, IpAddr::V6(Ipv6Addr { bits: FE80_1 }));
    let d = parse_captured_udp(&pkt, v6(0, 4400, 0)).unwrap();
    assert_eq!(d.src, v6(DB8_1, 1234, 0));
    assert_eq!(d.payload, b"six");
    assert!(parse_captured_udp(&pkt, v6(FE80_1, 4400, 0)).is_some());
    assert!(parse_captured_udp(&pkt, v6(DB8_1, 4400, 0)).is_none());
    assert!(parse_captured_udp(&pkt, wildcard(4400)).is_none());
}

#[test]
fn drops_ipv6_extension_headers() {
    // 44 is the fragment header, 0 hop-by-hop options.
    for next_header in [44, 0, 6] {
        let pkt = ipv6_udp(next_header, DB8_1, FE80_1, 4400, b"six");
        assert!(parse_captured_udp(&pkt, v6(0, 4400, 0)).is_none());
    }
    let pkt = ipv6_udp(17, DB8_1, FE80_1, 4400, b"");
    assert!(parse_ipv6(&pkt[..39]).is_none());
    let mut version = pkt.clone();
    version[0] = 0x45;
    assert!(parse_ipv6(&version).is_none());
}

#[test]
fn link_local_range_is_ten_bits() {
    assert!(is_link_local_v6(Ipv6Addr { bits: FE80_1 }));
    assert!(is_link_local_v6(Ipv6Addr { bits: 0xfebf << 112 }));
    assert!(!is_link_local_v6(Ipv6Addr { bits: 0xfec0 << 112 }));
    assert!(!is_link_local_v6(Ipv6Addr { bits: 0xfe7f << 112 }));
    assert!(!is_link_local_v6(Ipv6Addr { bits: 1 }));
}

#[test]
fn a_scope_already_there_is_kept() {
    let mut scoped = v6(FE80_1, 1, 3);
    attach_link_local_scope(&mut scoped, Some(9));
    assert_eq!(scoped, v6(FE80_1, 1, 3));
    let mut unknown = v6(FE80_1, 1, 0);
    attach_link_local_scope(&mut unknown, None);
    assert_eq!(unknown, v6(FE80_1, 1, 0));
    let mut four = v4(0x7f00_0001, 1);
    attach_link_local_scope(&mut four, Some(9));
    assert_eq!(four, v4(0x7f00_0001, 1));
}

#[test]
fn capture_interface_comes_from_the_link_address() {
    assert_eq!(capture_ifindex(Some(PeerAddr::Link { ifindex: 7 })), Some(7));
    assert_eq!(capture_ifindex(Some(PeerAddr::Other)), None);
    assert_eq!(capture_ifindex(None), None);
    let peer = SocketAddrV4 { ip: Ipv4Addr { bits: 1 }, port: 2 };
    assert_eq!(capture_ifindex(Some(PeerAddr::V4(peer))), None);
}

#[test]
fn interface_scope_must_agree() {
    assert_eq!(listen_scope(v6(FE80_1, 5000, 3)), Some(3));
    assert_eq!(listen_scope(v6(FE80_1, 5000, 0)), None);
    assert_eq!(listen_scope(wildcard(5000)), None);
    assert_eq!(check_interface_scope(v6(FE80_1, 5000, 3), 3), Ok(()));
    assert_eq!(check_interface_scope(v6(FE80_1, 5000, 3), 4), Err(3));
    assert_eq!(check_interface_scope(v6(FE80_1, 5000, 0), 4), Ok(()));
    assert_eq!(check_interface_scope(wildcard(5000), 4), Ok(()));
}

#[test]
fn capture_plan_follows_the_family() {
    let plan = new_capture_socket(false, Some("eth0"), 4400);
    assert_eq!(plan.ethertype, ETH_P_IP);
    assert_eq!(plan.filter.len(), 7);
    assert_eq!(plan.interface.as_deref(), Some("eth0"));
    let plan = new_capture_socket(true, None, 4400);
    assert_eq!(plan.ethertype, ETH_P_IPV6);
    assert_eq!(plan.filter.len(), 6);
    assert_eq!(plan.interface, None);
}

#[test]
fn silent_source_judges_packets_one_by_one() {
    let good = ipv6_udp(17, FE80_ABCD, FE80_1, 4400, b"good");
    let wrong_port = ipv6_udp(17, FE80_ABCD, FE80_1, 1, b"port");
    let last = ipv6_udp(17, DB8_1, FE80_1, 4400, b"last");
    let packets = [
        (&good, 3, false),
        (&good, 4, false),
        (&good, 3, true),
        (&wrong_port, 3, false),
        (&last, 3, false),
    ];
    let mut source = SilentSource::new(v6(FE80_1, 4400, 3), 128);
    let mut filled = Vec::new();
    for (i, (data, ifindex, truncated)) in packets.iter().enumerate() {
        source.rx.buffers_mut()[i][..data.len()].copy_from_slice(data);
        filled.push(Filled {
            addr: Some(PeerAddr::Link { ifindex: *ifindex }),
            len: data.len(),
            truncated: *truncated,
        });
    }
    source.rx.refill(filled);
    let batch = source.recv_batch();
    assert_eq!(batch.len(), 2);
    assert_eq!(batch[0].src, v6(FE80_ABCD, 1234, 3));
    assert_eq!(batch[0].payload, b"good");
    assert_eq!(batch[1].src, v6(DB8_1, 1234, 0));
    assert_eq!(batch[1].payload, b"last");
}

#[test]
fn rejections_worth_telling_of() {
    let good = ipv4_udp(0x0000, 4400, b"good");
    let fragment = ipv4_udp(0x2000, 4400, b"frag");
    let mut tcp_fragment = ipv4_udp(0x0002, 4400, b"frag");
    tcp_fragment[9] = 6;
    let src = Ipv4Addr { bits: 0x7f00_0001 };
    assert_eq!(ipv4_fragment_source(&good), None);
    assert_eq!(ipv4_fragment_source(&fragment), Some(src));
    assert_eq!(ipv4_fragment_source(&ipv4_udp(0x0001, 1, b"")), Some(src));
    assert_eq!(ipv4_fragment_source(&tcp_fragment), None);
    assert_eq!(ipv4_fragment_source(&fragment[..19]), None);

    for listen in [wildcard(4400), v6(0, 4400, 0)] {
        let packets =
            [(&good, false), (&fragment, false), (&good, true), (&tcp_fragment, false)];
        let mut source = SilentSource::new(listen, 64);
        let mut filled = Vec::new();
        for (i, (data, truncated)) in packets.iter().enumerate() {
            source.rx.buffers_mut()[i][..data.len()].copy_from_slice(data);
            filled.push(Filled { addr: None, len: data.len(), truncated: *truncated });
        }
        source.rx.refill(filled);
        let expected = if listen.is_ipv6() {
            vec![Rejection::Truncated]
        } else {
            vec![Rejection::Fragment { src }, Rejection::Truncated]
        };
        assert_eq!(source.rejections(), expected);
    }
}
