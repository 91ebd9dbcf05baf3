//! Silent receive: an AF_PACKET capture socket that taps at the device layer,
//! like tcpdump, and the packet parsing it needs.

use vstd::prelude::*;

use crate::addr::{IpAddr, Ipv4Addr, Ipv6Addr, SocketAddr, SocketAddrV4, SocketAddrV6};
use crate::worker::packet::{contents, law_contents_are_senders_and_payloads, Datagram};
use crate::worker::source::batch::{arrivals, Arrival, BatchedReceiver, PeerAddr};
use crate::worker::source::bpf::{
    create_bpf_filter_ipv4, create_bpf_filter_ipv6, ipv4_filter, ipv6_filter, kept,
    law_ipv4_filter_keeps_udp_to_port, law_ipv4_filter_looks_at_protocol_and_port,
    law_ipv6_filter_keeps_udp_to_port, law_ipv6_filter_looks_at_next_header_and_port, SockFilter,
    KEEP_ALL,
};
use crate::worker::source::wire::{
    half_word, ipv4_at, ipv6_at, law_ipv4_address_is_four_bytes,
    law_ipv6_address_is_sixteen_bytes, read_ipv4, read_ipv6, read_udp, IPV4_MIN_HEADER_LEN,
    IPV6_HEADER_LEN, MORE_FRAGMENTS, UDP_HEADER_LEN, UDP_PROTOCOL,
};

verus! {

/// The interface a datagram was captured on, from its AF_PACKET link address.
pub open spec fn spec_capture_ifindex(addr: Option<PeerAddr>) -> Option<u32> {
    match addr {
        Some(PeerAddr::Link { ifindex }) => Some((ifindex as int % 0x1_0000_0000) as u32),
        _ => None,
    }
}

/// The interface a datagram was captured on, from its AF_PACKET link address.
pub fn capture_ifindex(addr: Option<PeerAddr>) -> (r: Option<u32>)
    ensures
        r == spec_capture_ifindex(addr),
        addr matches Some(PeerAddr::Link { ifindex }) ==> (ifindex <= u32::MAX ==> (r matches Some(
            index,
        ) && index == ifindex)),
{
    match addr {
        Some(PeerAddr::Link { ifindex }) => {
            let wide: u64 = ifindex as u64;
            assert(wide as u32 == wide % 0x1_0000_0000) by (bit_vector);
            Some(#[verifier::truncate] (wide as u32))
        },
        _ => None,
    }
}

/// A scoped IPv6 listen address only accepts datagrams captured on that
/// interface; an unscoped or IPv4 listen address accepts any interface.
pub open spec fn scope_admits(listen: SocketAddr, capture_ifindex: Option<u32>) -> bool {
    listen matches SocketAddr::V6(l) ==> l.scope_id == 0 || capture_ifindex == Some(l.scope_id)
}

/// Whether a datagram captured on `capture_ifindex` may be for `listen`.
pub fn listen_scope_matches(listen: SocketAddr, capture_ifindex: Option<u32>) -> (r: bool)
    ensures
        r == scope_admits(listen, capture_ifindex),
        !r <==> (listen matches SocketAddr::V6(l) && l.scope_id != 0 && capture_ifindex != Some(
            l.scope_id,
        )),
{
    match listen {
        SocketAddr::V6(l) if l.scope_id != 0 => match capture_ifindex {
            Some(ifindex) => ifindex == l.scope_id,
            None => false,
        },
        _ => true,
    }
}

/// Whether an IPv6 address is in the link-local unicast range: its ten leading
/// bits are those of `fe80`.
pub open spec fn link_local(ip: Ipv6Addr) -> bool {
    ip.bits / 0x0040_0000_0000_0000_0000_0000_0000_0000 == 0x3fa
}

/// Whether an IPv6 address is in the link-local unicast range (fe80::/10).
pub fn is_link_local_v6(ip: Ipv6Addr) -> (r: bool)
    ensures
        r == link_local(ip),
        r <==> 0xfe80_0000_0000_0000_0000_0000_0000_0000 <= ip.bits
            < 0xfec0_0000_0000_0000_0000_0000_0000_0000,
{
    let bits: u128 = ip.bits;
    assert((((bits >> 112) as u16) & 0xffc0 == 0xfe80) == (bits
        / 0x0040_0000_0000_0000_0000_0000_0000_0000 == 0x3fa)) by (bit_vector);
    let segment: u16 = #[verifier::truncate] ((bits >> 112) as u16);
    (segment & 0xffc0) == 0xfe80
}

/// The sender with its interface scope: a link-local IPv6 address that has no
/// scope takes that of the capture interface, where one is known.
pub open spec fn scoped(src: SocketAddr, capture_ifindex: Option<u32>) -> SocketAddr {
    match (src, capture_ifindex) {
        (SocketAddr::V6(a), Some(ifindex)) if link_local(a.ip) && a.scope_id == 0 =>
            SocketAddr::V6(SocketAddrV6 { scope_id: ifindex, ..a }),
        _ => src,
    }
}

/// A link-local IPv6 source is only meaningful with its interface scope, which
/// the packet itself does not carry; take it from where the packet was
/// captured.
pub fn attach_link_local_scope(src: &mut SocketAddr, capture_ifindex: Option<u32>)
    ensures
        *final(src) == scoped(*old(src), capture_ifindex),
        *old(src) is V4 || capture_ifindex is None ==> *final(src) == *old(src),
        *old(src) matches SocketAddr::V6(a) ==> (*final(src) matches SocketAddr::V6(b) && b.ip
            == a.ip && b.port == a.port && b.flowinfo == a.flowinfo && (a.scope_id != 0
            ==> b.scope_id == a.scope_id)),
{
    if let SocketAddr::V6(a) = *src {
        if is_link_local_v6(a.ip) && a.scope_id == 0 {
            if let Some(ifindex) = capture_ifindex {
                *src = SocketAddr::V6(
                    SocketAddrV6 {
                        ip: a.ip,
                        port: a.port,
                        flowinfo: a.flowinfo,
                        scope_id: ifindex,
                    },
                );
            }
        }
    }
}

/// The validated IP layer of a captured packet.
#[derive(Clone, Copy, Debug, PartialEq, Eq, Structural)]
pub struct IpEnvelope {
    pub header_len: usize,
    /// Length of the IP packet itself; captured bytes beyond it are link-layer
    /// padding and must never be read as payload.
    pub total: usize,
    pub src: IpAddr,
    pub dst: IpAddr,
}

/// The IPv4 packet is one piece of a larger datagram: it has a fragment offset
/// or the More Fragments flag.
pub open spec fn is_fragment(data: Seq<u8>) -> bool {
    ||| half_word(data, 6) % 8192 != 0
    ||| (data[6] / 32) % 2 == 1
}

/// The data starts with an IPv4 header of an unfragmented UDP datagram.
pub open spec fn starts_ipv4_udp(data: Seq<u8>) -> bool {
    &&& data.len() >= IPV4_MIN_HEADER_LEN
    &&& data[0] / 16 == 4
    &&& 4 * (data[0] % 16) >= IPV4_MIN_HEADER_LEN
    &&& data[9] == UDP_PROTOCOL
    &&& !is_fragment(data)
}

/// The data starts with an IPv6 header that UDP follows directly.
pub open spec fn starts_ipv6_udp(data: Seq<u8>) -> bool {
    &&& data.len() >= IPV6_HEADER_LEN
    &&& data[0] / 16 == 6
    &&& data[6] == UDP_PROTOCOL
}

/// The IP layer of IPv4 data that carries an unfragmented UDP datagram.
pub open spec fn ipv4_envelope(data: Seq<u8>) -> Option<IpEnvelope> {
    if starts_ipv4_udp(data) {
        Some(
            IpEnvelope {
                header_len: (4 * (data[0] % 16)) as usize,
                total: half_word(data, 2) as usize,
                src: IpAddr::V4(ipv4_at(data, 12)),
                dst: IpAddr::V4(ipv4_at(data, 16)),
            },
        )
    } else {
        None
    }
}

/// The IP layer of IPv6 data in which UDP follows the fixed header.
pub open spec fn ipv6_envelope(data: Seq<u8>) -> Option<IpEnvelope> {
    if starts_ipv6_udp(data) {
        Some(
            IpEnvelope {
                header_len: IPV6_HEADER_LEN,
                total: (IPV6_HEADER_LEN + half_word(data, 4)) as usize,
                src: IpAddr::V6(ipv6_at(data, 8)),
                dst: IpAddr::V6(ipv6_at(data, 24)),
            },
        )
    } else {
        None
    }
}

/// Validates an IPv4 header and confirms it carries an unfragmented UDP
/// datagram. Packet sockets do not reassemble fragments: a fragment has a
/// non-zero offset or the More Fragments flag, only its first piece carries a
/// UDP header, and that header's length covers the whole datagram, so
/// forwarding any fragment would emit corrupted data.
pub fn parse_ipv4(data: &[u8]) -> (r: Option<IpEnvelope>)
    ensures
        r == ipv4_envelope(data@),
{
    let ip = match read_ipv4(data) {
        Some(ip) => ip,
        None => return None,
    };
    if ip.version != 4 {
        return None;
    }
    let header_len: usize = (ip.header_length as usize) * 4;
    if header_len < IPV4_MIN_HEADER_LEN {
        return None;
    }
    if ip.protocol != UDP_PROTOCOL {
        return None;
    }
    let flags: u8 = ip.flags;
    assert((flags & 1 != 0) == (flags % 2 == 1)) by (bit_vector);
    if ip.fragment_offset != 0 || (flags & MORE_FRAGMENTS) != 0 {
        return None;
    }
    Some(
        IpEnvelope {
            header_len,
            total: ip.total_length as usize,
            src: IpAddr::V4(ip.source),
            dst: IpAddr::V4(ip.destination),
        },
    )
}

/// Validates an IPv6 header and confirms UDP follows it directly. Extension
/// headers (including fragments) are not reassembled; such packets are dropped.
pub fn parse_ipv6(data: &[u8]) -> (r: Option<IpEnvelope>)
    ensures
        r == ipv6_envelope(data@),
{
    let ip = match read_ipv6(data) {
        Some(ip) => ip,
        None => return None,
    };
    if ip.version != 6 {
        return None;
    }
    if ip.next_header != UDP_PROTOCOL {
        return None;
    }
    Some(
        IpEnvelope {
            header_len: IPV6_HEADER_LEN,
            total: IPV6_HEADER_LEN + ip.payload_length as usize,
            src: IpAddr::V6(ip.source),
            dst: IpAddr::V6(ip.destination),
        },
    )
}

/// The IP layer of captured data, read as the listen address's family.
pub open spec fn envelope(data: Seq<u8>, listen: SocketAddr) -> Option<IpEnvelope> {
    if listen is V6 {
        ipv6_envelope(data)
    } else {
        ipv4_envelope(data)
    }
}

/// The length that the UDP header behind the IP header states.
pub open spec fn udp_length(data: Seq<u8>, ip: IpEnvelope) -> int {
    half_word(data, ip.header_len + 4)
}

/// The IP packet holds a whole UDP datagram for `listen`: it was captured to
/// its end, it is addressed to the listen port and, unless that is the
/// wildcard, to the listen IP, and the UDP length fits it.
pub open spec fn delivers(data: Seq<u8>, ip: IpEnvelope, listen: SocketAddr) -> bool {
    &&& ip.header_len + UDP_HEADER_LEN <= ip.total <= data.len()
    &&& listen.spec_ip().unspecified() || ip.dst == listen.spec_ip()
    &&& half_word(data, ip.header_len + 2) == listen.spec_port()
    &&& UDP_HEADER_LEN <= udp_length(data, ip)
    &&& ip.header_len + udp_length(data, ip) <= ip.total
}

/// The sender and the payload of the UDP datagram that captured data holds for
/// `listen`, if it holds one.
pub open spec fn captured(data: Seq<u8>, listen: SocketAddr) -> Option<(SocketAddr, Seq<u8>)> {
    match envelope(data, listen) {
        Some(ip) if delivers(data, ip, listen) => Some(
            (
                SocketAddr::of(ip.src, half_word(data, ip.header_len as int) as u16),
                data.subrange(
                    ip.header_len + UDP_HEADER_LEN,
                    ip.header_len + udp_length(data, ip),
                ),
            ),
        ),
        _ => None,
    }
}

/// The sender of an IPv4 packet that would carry UDP were it not a fragment.
pub open spec fn fragment_source(data: Seq<u8>) -> Option<Ipv4Addr> {
    if data.len() >= IPV4_MIN_HEADER_LEN && data[0] / 16 == 4 && 4 * (data[0] % 16)
        >= IPV4_MIN_HEADER_LEN && data[9] == UDP_PROTOCOL && is_fragment(data) {
        Some(ipv4_at(data, 12))
    } else {
        None
    }
}

/// The sender of an IPv4 packet that [`parse_ipv4`] rejects as a fragment of a
/// UDP datagram, and for no other reason.
pub fn ipv4_fragment_source(data: &[u8]) -> (r: Option<Ipv4Addr>)
    ensures
        r == fragment_source(data@),
{
    let ip = match read_ipv4(data) {
        Some(ip) => ip,
        None => return None,
    };
    if ip.version != 4 || (ip.header_length as usize) * 4 < IPV4_MIN_HEADER_LEN || ip.protocol
        != UDP_PROTOCOL {
        return None;
    }
    let flags: u8 = ip.flags;
    assert((flags & 1 != 0) == (flags % 2 == 1)) by (bit_vector);
    if ip.fragment_offset != 0 || (flags & MORE_FRAGMENTS) != 0 {
        Some(ip.source)
    } else {
        None
    }
}

/// Parses a captured IP + UDP packet into a [`Datagram`] when it is a UDP
/// datagram addressed to `listen`. Enforces the listen port always and the
/// listen IP unless it is the wildcard address. Bounds all UDP parsing by the
/// IP-declared length so link-layer padding is never read as payload.
pub fn parse_captured_udp(data: &[u8], listen: SocketAddr) -> (r: Option<Datagram<'_>>)
    ensures
        r is Some <==> captured(data@, listen) is Some,
        r matches Some(d) ==> Some(d@) == captured(data@, listen),
        listen is V4 ==> (r matches Some(d) ==> (d.src matches SocketAddr::V4(s) && s.ip.bits
            == 0x100_0000 * data@[12] + 0x1_0000 * data@[13] + 0x100 * data@[14] + data@[15])),
        listen is V6 ==> (r matches Some(d) ==> (d.src matches SocketAddr::V6(s) && s.ip == ipv6_at(
            data@,
            8,
        ))),
{
    let parsed: Option<IpEnvelope> = if listen.is_ipv6() {
        parse_ipv6(data)
    } else {
        parse_ipv4(data)
    };
    let ip = match parsed {
        Some(ip) => ip,
        None => return None,
    };

    // The IP packet must hold at least a UDP header and must not claim more
    // bytes than were captured.
    if ip.total < ip.header_len + UDP_HEADER_LEN || ip.total > data.len() {
        return None;
    }
    let listen_ip = listen.ip();
    if !listen_ip.is_unspecified() && ip.dst != listen_ip {
        return None;
    }
    let udp_data = vstd::slice::slice_subrange(data, ip.header_len, ip.total);
    let udp = match read_udp(udp_data) {
        Some(udp) => udp,
        None => return None,
    };
    assert(half_word(udp_data@, 0) == half_word(data@, ip.header_len as int));
    assert(half_word(udp_data@, 2) == half_word(data@, ip.header_len + 2));
    assert(half_word(udp_data@, 4) == half_word(data@, ip.header_len + 4));
    if udp.destination != listen.port() {
        return None;
    }

    // The UDP length covers header + payload and must fit within the IP packet.
    let udp_len: usize = udp.length as usize;
    if udp_len < UDP_HEADER_LEN {
        return None;
    }
    let end: usize = ip.header_len + udp_len;
    if end > ip.total {
        return None;
    }
    proof {
        law_ipv4_header_is_read_at_its_places(data@);
    }
    Some(
        Datagram {
            src: SocketAddr::new(ip.src, udp.source),
            payload: vstd::slice::slice_subrange(data, ip.header_len + UDP_HEADER_LEN, end),
        },
    )
}

/// What becomes of one captured packet: the datagram it is forwarded as, if it
/// is. A packet cut short by its buffer, captured on another interface than a
/// scoped listen address names, or holding no UDP datagram for the listen
/// address is rejected.
pub open spec fn accepts(listen: SocketAddr, packet: Arrival) -> Option<(SocketAddr, Seq<u8>)> {
    let ifindex = spec_capture_ifindex(packet.addr);
    if packet.truncated || !scope_admits(listen, ifindex) {
        None
    } else {
        match captured(packet.data, listen) {
            Some((src, payload)) => Some((scoped(src, ifindex), payload)),
            None => None,
        }
    }
}

/// The datagrams that a series of captured packets is forwarded as, in order.
pub open spec fn accepted(listen: SocketAddr, packets: Seq<Arrival>) -> Seq<(SocketAddr, Seq<u8>)>
    decreases packets.len(),
{
    if packets.len() == 0 {
        Seq::empty()
    } else {
        let before = accepted(listen, packets.drop_last());
        match accepts(listen, packets.last()) {
            Some(datagram) => before.push(datagram),
            None => before,
        }
    }
}

/// A rejection worth telling the operator of.
#[derive(Clone, Copy, Debug, PartialEq, Eq, Structural)]
pub enum Rejection {
    /// The packet is longer than its buffer.
    Truncated,
    /// The packet is an IPv4 fragment from this sender.
    Fragment { src: Ipv4Addr },
}

/// The rejection of one captured packet, if it is one worth telling of.
pub open spec fn rejection(listen: SocketAddr, packet: Arrival) -> Option<Rejection> {
    if packet.truncated {
        Some(Rejection::Truncated)
    } else if listen is V6 {
        None
    } else {
        match fragment_source(packet.data) {
            Some(src) => Some(Rejection::Fragment { src }),
            None => None,
        }
    }
}

/// The rejections worth telling of among a series of captured packets, in
/// order.
pub open spec fn rejected(listen: SocketAddr, packets: Seq<Arrival>) -> Seq<Rejection>
    decreases packets.len(),
{
    if packets.len() == 0 {
        Seq::empty()
    } else {
        let before = rejected(listen, packets.drop_last());
        match rejection(listen, packets.last()) {
            Some(r) => before.push(r),
            None => before,
        }
    }
}

/// What a capture socket is set up with.
#[derive(Debug)]
pub struct CapturePlan {
    /// The EtherType to capture, in host byte order.
    pub ethertype: u16,
    /// The filter that drops non-matching packets in the kernel.
    pub filter: Vec<SockFilter>,
    /// The one interface to capture on; all interfaces where there is none.
    pub interface: Option<String>,
}

impl CapturePlan {
    /// The plan captures packets of one family that pass the filter for a port.
    pub open spec fn captures(self, is_ipv6: bool, port: u16) -> bool {
        &&& self.ethertype == (if is_ipv6 {
            ETH_P_IPV6
        } else {
            ETH_P_IP
        })
        &&& self.filter@ == (if is_ipv6 {
            ipv6_filter(port)
        } else {
            ipv4_filter(port)
        })
    }
}

/// EtherType of IPv4.
pub const ETH_P_IP: u16 = 0x0800;

/// EtherType of IPv6.
pub const ETH_P_IPV6: u16 = 0x86dd;

/// The set-up of a capture socket for UDP to `listen_port`.
///
/// A filter attached to a SOCK_DGRAM packet socket, like the read, sees the
/// packet starting at the IP header on every interface type, which makes the
/// fixed offsets of the filters portable.
pub fn new_capture_socket(is_ipv6: bool, interface: Option<&str>, listen_port: u16) -> (r:
    CapturePlan)
    ensures
        r.captures(is_ipv6, listen_port),
        r.interface is Some <==> interface is Some,
        interface matches Some(name) ==> r.interface.unwrap()@ == name@,
{
    let filter: Vec<SockFilter> = if is_ipv6 {
        let program = create_bpf_filter_ipv6(listen_port);
        vstd::slice::slice_to_vec(program.as_slice())
    } else {
        let program = create_bpf_filter_ipv4(listen_port);
        vstd::slice::slice_to_vec(program.as_slice())
    };
    CapturePlan {
        ethertype: if is_ipv6 {
            ETH_P_IPV6
        } else {
            ETH_P_IP
        },
        filter,
        interface: match interface {
            Some(name) => Some(name.to_owned()),
            None => None,
        },
    }
}

/// The interface scope that a listen address names, if it names one.
pub open spec fn spec_listen_scope(listen: SocketAddr) -> Option<u32> {
    match listen {
        SocketAddr::V6(l) if l.scope_id != 0 => Some(l.scope_id),
        _ => None,
    }
}

/// The interface scope that a listen address names, if it names one. Only then
/// is the index of a chosen interface of interest.
pub fn listen_scope(listen: SocketAddr) -> (r: Option<u32>)
    ensures
        r == spec_listen_scope(listen),
        forall|scope: u32|
            r == Some(scope) <==> (listen matches SocketAddr::V6(l) && l.scope_id == scope && scope
                != 0),
{
    match listen {
        SocketAddr::V6(l) if l.scope_id != 0 => Some(l.scope_id),
        _ => None,
    }
}

/// A scoped IPv6 listen address (`[fe80::1%3]`) names an interface; it must
/// agree with the chosen interface, whose index is `ifindex`. `Err` holds the
/// scope that disagrees.
pub fn check_interface_scope(listen: SocketAddr, ifindex: u32) -> (r: Result<(), u32>)
    ensures
        r == (match spec_listen_scope(listen) {
            Some(scope) if scope != ifindex => Err(scope),
            _ => Ok::<(), u32>(()),
        }),
        r is Err <==> (listen matches SocketAddr::V6(l) && l.scope_id != 0 && l.scope_id
            != ifindex),
{
    match listen_scope(listen) {
        Some(scope) if scope != ifindex => Err(scope),
        _ => Ok(()),
    }
}

/// Captures at the device layer with an AF_PACKET socket and reconstructs the
/// source from the packet headers. Sees traffic regardless of routing or NAT.
#[derive(Debug)]
pub struct SilentSource {
    pub rx: BatchedReceiver,
    pub listen: SocketAddr,
}

impl SilentSource {
    /// A source for `listen` with buffers of `buffer_size` bytes and nothing
    /// captured yet.
    pub fn new(listen: SocketAddr, buffer_size: usize) -> (r: SilentSource)
        ensures
            r.rx.wf(),
            r.rx.fresh(buffer_size),
            r.listen == listen,
    {
        SilentSource { rx: BatchedReceiver::new(buffer_size), listen }
    }

    /// The datagrams accepted from the current batch of captured packets.
    ///
    /// AF_PACKET SOCK_DGRAM delivers each packet starting at the IP header (the
    /// link-layer header is stripped in cooked mode). The BPF filter drops
    /// non-UDP and wrong-port packets in the kernel; the parser here enforces
    /// the listen address, rejects fragments and malformed lengths, and
    /// reconstructs the source (the capture address is the interface, not the
    /// datagram's sender). The batch can be empty if every packet was rejected.
    pub fn recv_batch(&self) -> (r: Vec<Datagram<'_>>)
        requires
            self.rx.wf(),
        ensures
            contents(r@) == accepted(self.listen, self.rx.batch()),
    {
        let received = self.rx.received();
        let ghost packets = self.rx.batch();
        let mut batch: Vec<Datagram<'_>> = Vec::with_capacity(received.len());
        let mut i: usize = 0;
        while i < received.len()
            invariant
                arrivals(received@) == packets,
                i <= received@.len(),
                contents(batch@) == accepted(self.listen, packets.take(i as int)),
            decreases received@.len() - i,
        {
            let packet = received[i];
            proof {
                assert(arrivals(received@)[i as int] == packet@);
                assert(packets.take(i + 1).drop_last() =~= packets.take(i as int));
                assert(packets.take(i + 1).last() == packet@);
            }
            if !packet.truncated {
                let ifindex = capture_ifindex(packet.addr);
                if listen_scope_matches(self.listen, ifindex) {
                    if let Some(parsed) = parse_captured_udp(packet.data, self.listen) {
                        let mut src = parsed.src;
                        attach_link_local_scope(&mut src, ifindex);
                        let ghost before = batch@;
                        let datagram = Datagram { src, payload: parsed.payload };
                        batch.push(datagram);
                        assert(contents(batch@) =~= contents(before).push(datagram@));
                    }
                }
            }
            i += 1;
        }
        assert(packets.take(received@.len() as int) =~= packets);
        batch
    }

    /// The rejections worth telling of in the current batch, in order.
    pub fn rejections(&self) -> (r: Vec<Rejection>)
        requires
            self.rx.wf(),
        ensures
            r@ == rejected(self.listen, self.rx.batch()),
    {
        let received = self.rx.received();
        let ghost packets = self.rx.batch();
        let mut out: Vec<Rejection> = Vec::new();
        let mut i: usize = 0;
        while i < received.len()
            invariant
                arrivals(received@) == packets,
                i <= received@.len(),
                out@ == rejected(self.listen, packets.take(i as int)),
            decreases received@.len() - i,
        {
            let packet = received[i];
            proof {
                assert(arrivals(received@)[i as int] == packet@);
                assert(packets.take(i + 1).drop_last() =~= packets.take(i as int));
                assert(packets.take(i + 1).last() == packet@);
            }
            if packet.truncated {
                out.push(Rejection::Truncated);
            } else if !self.listen.is_ipv6() {
                if let Some(src) = ipv4_fragment_source(packet.data) {
                    out.push(Rejection::Fragment { src });
                }
            }
            i += 1;
        }
        assert(packets.take(received@.len() as int) =~= packets);
        out
    }
}

/// A packet told of as rejected is not forwarded.
pub proof fn law_rejected_packets_are_not_forwarded(listen: SocketAddr, packet: Arrival)
    requires
        rejection(listen, packet) is Some,
    ensures
        accepts(listen, packet) is None,
{
}

/// An IPv4 fragment is never forwarded, whether or not it carries the UDP
/// header.
pub proof fn law_fragments_are_dropped(data: Seq<u8>, listen: SocketAddr)
    requires
        listen is V4,
        is_fragment(data),
    ensures
        captured(data, listen) is None,
{
}

/// An IPv6 packet with an extension header, or any other next header than UDP,
/// is never forwarded.
pub proof fn law_extension_headers_are_dropped(data: Seq<u8>, listen: SocketAddr)
    requires
        listen is V6,
        data[6] != UDP_PROTOCOL,
    ensures
        captured(data, listen) is None,
{
}

/// Link-layer padding is never read: whatever bytes follow the IP packet, the
/// result is that of the packet alone.
pub proof fn law_padding_is_never_read(
    data: Seq<u8>,
    padding: Seq<u8>,
    listen: SocketAddr,
)
    requires
        envelope(data, listen) matches Some(ip) && ip.total <= data.len(),
    ensures
        captured(data + padding, listen) == captured(data, listen),
{
    let long = data + padding;
    let ip = envelope(data, listen).unwrap();
    assert(long.subrange(12, 16) =~= data.subrange(12, 16));
    assert(long.subrange(16, 20) =~= data.subrange(16, 20));
    if listen is V6 {
        assert(long.subrange(8, 24) =~= data.subrange(8, 24));
        assert(long.subrange(24, 40) =~= data.subrange(24, 40));
    }
    assert(envelope(long, listen) == Some(ip));
    if ip.header_len + UDP_HEADER_LEN <= ip.total {
        assert(delivers(long, ip, listen) == delivers(data, ip, listen));
        if delivers(data, ip, listen) {
            let start = ip.header_len + UDP_HEADER_LEN;
            let end = ip.header_len + udp_length(data, ip);
            assert(long.subrange(start, end) =~= data.subrange(start, end));
        }
    }
}

/// The kernel filter rejects nothing that the parser accepts for `listen`: such
/// a packet is kept, up to 65,535 bytes, which is all of an IPv4 packet and all
/// of an IPv6 packet that is no longer than that.
pub proof fn law_filter_passes_what_the_parser_accepts(data: Seq<u8>, listen: SocketAddr)
    requires
        captured(data, listen) is Some,
    ensures
        listen is V4 ==> kept(ipv4_filter(listen.spec_port()), data) == KEEP_ALL,
        listen is V4 ==> envelope(data, listen).unwrap().total <= kept(
            ipv4_filter(listen.spec_port()),
            data,
        ),
        listen is V6 ==> kept(ipv6_filter(listen.spec_port()), data) == KEEP_ALL,
        listen is V6 && envelope(data, listen).unwrap().total <= 65_535 ==> envelope(
            data,
            listen,
        ).unwrap().total <= kept(ipv6_filter(listen.spec_port()), data),
{
    law_ipv4_filter_keeps_udp_to_port(data, listen.spec_port());
    law_ipv6_filter_keeps_udp_to_port(data, listen.spec_port());
}

/// What of `data` reaches the reader through a filter that keeps `kept` bytes.
pub open spec fn delivered(data: Seq<u8>, kept: int) -> Seq<u8> {
    if data.len() <= kept {
        data
    } else {
        data.take(kept)
    }
}

/// What the filter keeps of a packet is parsed as the packet itself would be,
/// where the IP packet is no longer than 65,535 bytes; an IPv4 packet never is.
pub proof fn law_filtered_packet_parses_alike(data: Seq<u8>, listen: SocketAddr)
    requires
        captured(data, listen) is Some,
        envelope(data, listen).unwrap().total <= 65_535,
    ensures
        listen is V4 ==> captured(
            delivered(data, kept(ipv4_filter(listen.spec_port()), data)),
            listen,
        ) == captured(data, listen),
        listen is V6 ==> captured(
            delivered(data, kept(ipv6_filter(listen.spec_port()), data)),
            listen,
        ) == captured(data, listen),
{
    law_filter_passes_what_the_parser_accepts(data, listen);
    if data.len() > KEEP_ALL {
        let front = data.take(KEEP_ALL as int);
        let rest = data.skip(KEEP_ALL as int);
        assert(front + rest =~= data);
        assert(front.subrange(12, 16) =~= data.subrange(12, 16));
        assert(front.subrange(16, 20) =~= data.subrange(16, 20));
        assert(front.subrange(8, 24) =~= data.subrange(8, 24));
        assert(front.subrange(24, 40) =~= data.subrange(24, 40));
        assert(envelope(front, listen) == envelope(data, listen));
        law_padding_is_never_read(front, rest, listen);
    }
}

/// A forwarded payload is the part of the IP packet behind its UDP header, no
/// longer than what the IP header declares.
pub proof fn law_payload_lies_within_the_ip_packet(data: Seq<u8>, listen: SocketAddr)
    requires
        captured(data, listen) is Some,
    ensures
        ({
            let ip = envelope(data, listen).unwrap();
            let start = ip.header_len + UDP_HEADER_LEN;
            let payload = captured(data, listen).unwrap().1;
            &&& start + payload.len() <= ip.total <= data.len()
            &&& payload == data.subrange(start, start + payload.len())
        }),
{
}

/// Attaching a scope never changes the sender's IP or port, nor a scope that
/// is already there.
pub proof fn law_scope_is_all_that_is_attached(src: SocketAddr, capture_ifindex: Option<u32>)
    ensures
        scoped(src, capture_ifindex).spec_ip() == src.spec_ip(),
        scoped(src, capture_ifindex).spec_port() == src.spec_port(),
        src is V4 ==> scoped(src, capture_ifindex) == src,
        src matches SocketAddr::V6(a) ==> (!link_local(a.ip) || a.scope_id != 0 ==> scoped(
            src,
            capture_ifindex,
        ) == src),
{
}

/// What is forwarded of a batch followed by another is what is forwarded of
/// each: packets are judged one by one, and order is kept.
pub proof fn law_packets_are_judged_one_by_one(
    listen: SocketAddr,
    first: Seq<Arrival>,
    second: Seq<Arrival>,
)
    ensures
        accepted(listen, first + second) == accepted(listen, first) + accepted(listen, second),
    decreases second.len(),
{
    if second.len() == 0 {
        assert(first + second =~= first);
        assert(accepted(listen, first) + accepted(listen, second) =~= accepted(listen, first));
    } else {
        law_packets_are_judged_one_by_one(listen, first, second.drop_last());
        assert((first + second).drop_last() =~= first + second.drop_last());
        assert((first + second).last() == second.last());
        let a = accepted(listen, first);
        let b = accepted(listen, second.drop_last());
        if let Some(d) = accepts(listen, second.last()) {
            assert((a + b).push(d) =~= a + b.push(d));
        }
    }
}

/// The IPv4 header, byte by byte. It is accepted where the version is four, the
/// header is no shorter than twenty bytes, the protocol is UDP, and neither the
/// More Fragments bit nor any bit of the fragment offset is set. The lengths
/// and the addresses are the numbers at their places, the sender's before the
/// receiver's.
pub proof fn law_ipv4_header_is_read_at_its_places(data: Seq<u8>)
    ensures
        ipv4_envelope(data) is Some <==> {
            &&& data.len() >= 20
            &&& 0x45 <= data[0] <= 0x4f
            &&& data[9] == 17
            &&& data[6] % 64 == 0
            &&& data[7] == 0
        },
        ipv4_envelope(data) matches Some(ip) ==> {
            &&& ip.header_len == 4 * (data[0] - 0x40)
            &&& ip.total == 256 * data[2] + data[3]
            &&& ip.src matches IpAddr::V4(a) && a.bits == 0x100_0000 * data[12] + 0x1_0000
                * data[13] + 0x100 * data[14] + data[15]
            &&& ip.dst matches IpAddr::V4(a) && a.bits == 0x100_0000 * data[16] + 0x1_0000
                * data[17] + 0x100 * data[18] + data[19]
        },
{
    if data.len() >= 20 {
        law_ipv4_address_is_four_bytes(data, 12);
        law_ipv4_address_is_four_bytes(data, 16);
    }
}

/// The IPv6 header, byte by byte. It is accepted where the version is six and
/// UDP is the next header. The length and the addresses are the numbers at
/// their places, the sender's before the receiver's.
pub proof fn law_ipv6_header_is_read_at_its_places(data: Seq<u8>)
    ensures
        ipv6_envelope(data) is Some <==> {
            &&& data.len() >= 40
            &&& 0x60 <= data[0] <= 0x6f
            &&& data[6] == 17
        },
        ipv6_envelope(data) matches Some(ip) ==> {
            let word = |k: int|
                0x100_0000 * data[k] + 0x1_0000 * data[k + 1] + 0x100 * data[k + 2] + data[k + 3];
            &&& ip.header_len == 40
            &&& ip.total == 40 + 256 * data[4] + data[5]
            &&& ip.src matches IpAddr::V6(a) && a.bits == 0x1_0000_0000_0000_0000_0000_0000 * word(
                8,
            ) + 0x1_0000_0000_0000_0000 * word(12) + 0x1_0000_0000 * word(16) + word(20)
            &&& ip.dst matches IpAddr::V6(a) && a.bits == 0x1_0000_0000_0000_0000_0000_0000 * word(
                24,
            ) + 0x1_0000_0000_0000_0000 * word(28) + 0x1_0000_0000 * word(32) + word(36)
        },
{
    if data.len() >= 40 {
        law_ipv6_address_is_sixteen_bytes(data, 8);
        law_ipv6_address_is_sixteen_bytes(data, 24);
    }
}

/// The datagram of an IPv4 capture has the sender that the packet itself names:
/// its IP is spelled by bytes 12 to 15 of the IP header, its port by the first
/// two bytes of the UDP header. Its payload is what follows the UDP header, as
/// long as the UDP length says.
pub proof fn law_ipv4_capture_names_sender_and_payload(data: Seq<u8>, listen: SocketAddrV4)
    requires
        captured(data, SocketAddr::V4(listen)) is Some,
    ensures
        ({
            let (src, payload) = captured(data, SocketAddr::V4(listen)).unwrap();
            let udp = 4 * (data[0] - 0x40);
            &&& src matches SocketAddr::V4(s) && s.ip.bits == 0x100_0000 * data[12] + 0x1_0000
                * data[13] + 0x100 * data[14] + data[15] && s.port == 256 * data[udp] + data[udp
                + 1]
            &&& payload.len() == 256 * data[udp + 4] + data[udp + 5] - 8
            &&& forall|k: int|
                0 <= k < payload.len() ==> #[trigger] payload[k] == data[udp + 8 + k]
        }),
{
    law_ipv4_header_is_read_at_its_places(data);
}

/// The datagram of an IPv6 capture has the sender that the packet itself names:
/// its IP is spelled by bytes 8 to 23 of the IP header, its port by the first
/// two bytes of the UDP header. Its payload is what follows the UDP header, as
/// long as the UDP length says.
pub proof fn law_ipv6_capture_names_sender_and_payload(data: Seq<u8>, listen: SocketAddrV6)
    requires
        captured(data, SocketAddr::V6(listen)) is Some,
    ensures
        ({
            let (src, payload) = captured(data, SocketAddr::V6(listen)).unwrap();
            let word = |k: int|
                0x100_0000 * data[k] + 0x1_0000 * data[k + 1] + 0x100 * data[k + 2] + data[k + 3];
            &&& src matches SocketAddr::V6(s) && s.ip.bits
                == 0x1_0000_0000_0000_0000_0000_0000 * word(8) + 0x1_0000_0000_0000_0000 * word(12)
                + 0x1_0000_0000 * word(16) + word(20) && s.port == 256 * data[40] + data[41]
                && s.flowinfo == 0 && s.scope_id == 0
            &&& payload.len() == 256 * data[44] + data[45] - 8
            &&& forall|k: int| 0 <= k < payload.len() ==> #[trigger] payload[k] == data[48 + k]
        }),
{
    law_ipv6_header_is_read_at_its_places(data);
}

/// When an IPv4 capture is forwarded: exactly where it is an unfragmented UDP
/// packet captured to its end, addressed to the listen port and to the listen
/// IP or any IP for the wildcard, whose UDP length holds at least the header
/// and stays within the IP packet.
pub proof fn law_ipv4_capture_is_forwarded_exactly_when(data: Seq<u8>, listen: SocketAddrV4)
    ensures
        ({
            let udp = 4 * (data[0] - 0x40);
            let total = 256 * data[2] + data[3];
            captured(data, SocketAddr::V4(listen)) is Some <==> {
                &&& data.len() >= 20
                &&& 0x45 <= data[0] <= 0x4f
                &&& data[9] == 17
                &&& data[6] % 64 == 0 && data[7] == 0
                &&& udp + 8 <= total <= data.len()
                &&& listen.ip.bits == 0 || listen.ip.bits == 0x100_0000 * data[16] + 0x1_0000
                    * data[17] + 0x100 * data[18] + data[19]
                &&& listen.port == 256 * data[udp + 2] + data[udp + 3]
                &&& 8 <= 256 * data[udp + 4] + data[udp + 5] <= total - udp
            }
        }),
{
    law_ipv4_header_is_read_at_its_places(data);
}

/// When an IPv6 capture is forwarded: exactly where UDP follows the fixed
/// header directly, the packet was captured to its end, it is addressed to the
/// listen port and to the listen IP or any IP for the wildcard, and its UDP
/// length holds at least the header and stays within the IP packet.
pub proof fn law_ipv6_capture_is_forwarded_exactly_when(data: Seq<u8>, listen: SocketAddrV6)
    ensures
        ({
            let word = |k: int|
                0x100_0000 * data[k] + 0x1_0000 * data[k + 1] + 0x100 * data[k + 2] + data[k + 3];
            let length = 256 * data[4] + data[5];
            captured(data, SocketAddr::V6(listen)) is Some <==> {
                &&& data.len() >= 40
                &&& 0x60 <= data[0] <= 0x6f
                &&& data[6] == 17
                &&& 8 <= length <= data.len() - 40
                &&& listen.ip.bits == 0 || listen.ip.bits
                    == 0x1_0000_0000_0000_0000_0000_0000 * word(24) + 0x1_0000_0000_0000_0000
                    * word(28) + 0x1_0000_0000 * word(32) + word(36)
                &&& listen.port == 256 * data[42] + data[43]
                &&& 8 <= 256 * data[44] + data[45] <= length
            }
        }),
{
    law_ipv6_header_is_read_at_its_places(data);
}

/// The fragments told of: IPv4 UDP packets with the More Fragments bit or any
/// bit of the fragment offset set, by the sender that bytes 12 to 15 spell.
pub proof fn law_fragments_are_told_by_their_sender(data: Seq<u8>)
    ensures
        fragment_source(data) is Some <==> {
            &&& data.len() >= 20
            &&& 0x45 <= data[0] <= 0x4f
            &&& data[9] == 17
            &&& data[6] % 64 != 0 || data[7] != 0
        },
        fragment_source(data) matches Some(src) ==> src.bits == 0x100_0000 * data[12] + 0x1_0000
            * data[13] + 0x100 * data[14] + data[15],
{
    if data.len() >= 20 {
        law_ipv4_address_is_four_bytes(data, 12);
    }
}

/// The capture interface is known exactly from a link-layer address, and is its
/// index, as far as the low 32 bits hold it.
pub proof fn law_capture_interface_is_that_of_the_link(addr: Option<PeerAddr>)
    ensures
        spec_capture_ifindex(addr) is Some <==> (addr matches Some(peer) && peer is Link),
        addr matches Some(PeerAddr::Link { ifindex }) ==> (spec_capture_ifindex(addr) matches Some(
            index,
        ) && (ifindex - index) % 0x1_0000_0000 == 0 && (ifindex <= u32::MAX ==> index == ifindex)),
{
}

/// Link-local addresses are those from `fe80::` up to, but not including,
/// `fec0::`.
pub proof fn law_link_local_range(ip: Ipv6Addr)
    ensures
        link_local(ip) <==> 0xfe80_0000_0000_0000_0000_0000_0000_0000 <= ip.bits
            < 0xfec0_0000_0000_0000_0000_0000_0000_0000,
{
}

/// A sender gets the capture interface as its scope exactly where it needs one:
/// an IPv6 address from `fe80::` up to `fec0::`, without a scope, captured on a
/// known interface. Everything else about it stays.
pub proof fn law_link_local_senders_get_the_capture_scope(
    src: SocketAddr,
    capture_ifindex: Option<u32>,
)
    ensures
        src is V4 ==> scoped(src, capture_ifindex) == src,
        src matches SocketAddr::V6(a) ==> (scoped(src, capture_ifindex) matches SocketAddr::V6(b)
            && b.ip == a.ip && b.port == a.port && b.flowinfo == a.flowinfo && b.scope_id == (if
        0xfe80_0000_0000_0000_0000_0000_0000_0000 <= a.ip.bits
            < 0xfec0_0000_0000_0000_0000_0000_0000_0000 && a.scope_id == 0 && capture_ifindex
            is Some {
            capture_ifindex.unwrap()
        } else {
            a.scope_id
        })),
{
}

/// A listen address turns an interface away only by naming another one, which
/// only a scoped IPv6 address does; the scope it names is its own.
pub proof fn law_only_a_scope_turns_interfaces_away(
    listen: SocketAddr,
    capture_ifindex: Option<u32>,
)
    ensures
        listen is V4 ==> scope_admits(listen, capture_ifindex) && spec_listen_scope(listen) is None,
        listen matches SocketAddr::V6(l) ==> {
            &&& l.scope_id == 0 ==> scope_admits(listen, capture_ifindex) && spec_listen_scope(
                listen,
            ) is None
            &&& l.scope_id != 0 ==> spec_listen_scope(listen) == Some(l.scope_id)
            &&& l.scope_id != 0 ==> (scope_admits(listen, capture_ifindex) <==> capture_ifindex
                == Some(l.scope_id))
        },
{
}

/// A captured packet is forwarded exactly where it is whole, was captured on an
/// interface that the listen address admits, and holds a datagram for it; the
/// payload is that datagram's, and so are the sender's IP and port.
pub proof fn law_whole_packets_for_the_listen_address_are_forwarded(
    listen: SocketAddr,
    packet: Arrival,
)
    ensures
        accepts(listen, packet) is Some <==> {
            &&& !packet.truncated
            &&& listen matches SocketAddr::V6(l) ==> l.scope_id == 0 || spec_capture_ifindex(
                packet.addr,
            ) == Some(l.scope_id)
            &&& captured(packet.data, listen) is Some
        },
        accepts(listen, packet) matches Some((src, payload)) ==> {
            let (named, bytes) = captured(packet.data, listen).unwrap();
            &&& payload == bytes
            &&& src == scoped(named, spec_capture_ifindex(packet.addr))
            &&& named matches SocketAddr::V4(a) ==> src == named
            &&& named matches SocketAddr::V6(a) ==> (src matches SocketAddr::V6(b) && b.ip == a.ip
                && b.port == a.port)
        },
{
}

/// Of one packet, at most one datagram is forwarded: the one it is accepted as.
pub proof fn law_each_packet_is_forwarded_once(listen: SocketAddr, packet: Arrival)
    ensures
        accepted(listen, seq![]) == Seq::<(SocketAddr, Seq<u8>)>::empty(),
        accepts(listen, packet) is None ==> accepted(listen, seq![packet]).len() == 0,
        accepts(listen, packet) matches Some(d) ==> accepted(listen, seq![packet]) == seq![d],
{
    let one = seq![packet];
    assert(one.drop_last() =~= Seq::<Arrival>::empty());
    assert(accepted(listen, one.drop_last()) =~= Seq::<(SocketAddr, Seq<u8>)>::empty());
    if let Some(d) = accepts(listen, packet) {
        assert(accepted(listen, one) =~= seq![d]);
    }
}

/// What is told of one packet: that it was cut short, or else, for an IPv4
/// listener, the sender of a fragment; of every other packet nothing.
pub proof fn law_what_is_told_of_a_packet(listen: SocketAddr, packet: Arrival)
    ensures
        rejection(listen, packet) == Some(Rejection::Truncated) <==> packet.truncated,
        forall|src: Ipv4Addr|
            rejection(listen, packet) == Some(Rejection::Fragment { src }) <==> !packet.truncated
                && listen is V4 && fragment_source(packet.data) == Some(src),
        rejected(listen, seq![]) == Seq::<Rejection>::empty(),
        rejection(listen, packet) is None ==> rejected(listen, seq![packet]).len() == 0,
        rejection(listen, packet) matches Some(r) ==> rejected(listen, seq![packet]) == seq![r],
{
    let one = seq![packet];
    assert(one.drop_last() =~= Seq::<Arrival>::empty());
    assert(rejected(listen, one.drop_last()) =~= Seq::<Rejection>::empty());
    if let Some(r) = rejection(listen, packet) {
        assert(rejected(listen, one) =~= seq![r]);
    }
}

/// What is told of a batch followed by another is what is told of each, in
/// order.
pub proof fn law_rejections_are_told_one_by_one(
    listen: SocketAddr,
    first: Seq<Arrival>,
    second: Seq<Arrival>,
)
    ensures
        rejected(listen, first + second) == rejected(listen, first) + rejected(listen, second),
    decreases second.len(),
{
    if second.len() == 0 {
        assert(first + second =~= first);
        assert(rejected(listen, first) + rejected(listen, second) =~= rejected(listen, first));
    } else {
        law_rejections_are_told_one_by_one(listen, first, second.drop_last());
        assert((first + second).drop_last() =~= first + second.drop_last());
        assert((first + second).last() == second.last());
        let a = rejected(listen, first);
        let b = rejected(listen, second.drop_last());
        if let Some(r) = rejection(listen, second.last()) {
            assert((a + b).push(r) =~= a + b.push(r));
        }
    }
}

/// A capture socket taps the EtherType of its family, and its filter keeps
/// exactly the UDP packets of that family to the listen port.
pub proof fn law_capture_sockets_keep_udp_to_the_port(
    plan: CapturePlan,
    is_ipv6: bool,
    port: u16,
    packet: Seq<u8>,
)
    requires
        plan.captures(is_ipv6, port),
    ensures
        is_ipv6 ==> plan.ethertype == 0x86dd,
        !is_ipv6 ==> plan.ethertype == 0x0800,
        is_ipv6 ==> (kept(plan.filter@, packet) > 0 <==> packet.len() > 43 && packet[6] == 17 && 256
            * packet[42] + packet[43] == port),
        !is_ipv6 ==> ({
            let udp = 4 * (packet[0] as int % 16);
            kept(plan.filter@, packet) > 0 <==> packet.len() > 9 && packet[9] == 17 && packet.len()
                > udp + 3 && 256 * packet[udp + 2] + packet[udp + 3] == port
        }),
{
    law_ipv4_filter_looks_at_protocol_and_port(packet, port);
    law_ipv6_filter_looks_at_next_header_and_port(packet, port);
}

/// Whatever an IPv4 capture is parsed into names the packet's own sender, byte
/// for byte, and carries the packet's own payload.
pub proof fn law_parsed_ipv4_capture_is_from_its_sender<'a>(
    data: &'a [u8],
    listen: SocketAddrV4,
    r: Option<Datagram<'a>>,
)
    requires
        call_ensures(parse_captured_udp, (data, SocketAddr::V4(listen)), r),
        r is Some,
    ensures
        ({
            let d = r.unwrap();
            let udp = 4 * (data@[0] - 0x40);
            &&& d.src matches SocketAddr::V4(s) && s.ip.bits == 0x100_0000 * data@[12] + 0x1_0000
                * data@[13] + 0x100 * data@[14] + data@[15] && s.port == 256 * data@[udp]
                + data@[udp + 1]
            &&& listen.port == 256 * data@[udp + 2] + data@[udp + 3]
            &&& d.payload@.len() == 256 * data@[udp + 4] + data@[udp + 5] - 8
            &&& forall|k: int|
                0 <= k < d.payload@.len() ==> #[trigger] d.payload@[k] == data@[udp + 8 + k]
        }),
{
    law_ipv4_capture_names_sender_and_payload(data@, listen);
    law_ipv4_capture_is_forwarded_exactly_when(data@, listen);
    let d = r.unwrap();
    assert(d@ == captured(data@, SocketAddr::V4(listen)).unwrap());
}

/// Whatever an IPv6 capture is parsed into names the packet's own sender, byte
/// for byte, and carries the packet's own payload.
pub proof fn law_parsed_ipv6_capture_is_from_its_sender<'a>(
    data: &'a [u8],
    listen: SocketAddrV6,
    r: Option<Datagram<'a>>,
)
    requires
        call_ensures(parse_captured_udp, (data, SocketAddr::V6(listen)), r),
        r is Some,
    ensures
        ({
            let d = r.unwrap();
            let word = |k: int|
                0x100_0000 * data@[k] + 0x1_0000 * data@[k + 1] + 0x100 * data@[k + 2] + data@[k
                    + 3];
            &&& d.src matches SocketAddr::V6(s) && s.ip.bits
                == 0x1_0000_0000_0000_0000_0000_0000 * word(8) + 0x1_0000_0000_0000_0000 * word(12)
                + 0x1_0000_0000 * word(16) + word(20) && s.port == 256 * data@[40] + data@[41]
            &&& listen.port == 256 * data@[42] + data@[43]
            &&& d.payload@.len() == 256 * data@[44] + data@[45] - 8
            &&& forall|k: int|
                0 <= k < d.payload@.len() ==> #[trigger] d.payload@[k] == data@[48 + k]
        }),
{
    law_ipv6_capture_names_sender_and_payload(data@, listen);
    law_ipv6_capture_is_forwarded_exactly_when(data@, listen);
    let d = r.unwrap();
    assert(d@ == captured(data@, SocketAddr::V6(listen)).unwrap());
}

/// A packet that is parsed for a bound address is parsed alike for the wildcard
/// of the same port: the listen IP only turns packets away, it never changes
/// what one is forwarded as.
pub proof fn law_wildcard_takes_in_every_address(data: Seq<u8>, listen: SocketAddrV4)
    requires
        captured(data, SocketAddr::V4(listen)) is Some,
    ensures
        captured(
            data,
            SocketAddr::V4(SocketAddrV4 { ip: Ipv4Addr { bits: 0 }, port: listen.port }),
        ) == captured(data, SocketAddr::V4(listen)),
{
}

/// A captured batch is forwarded packet by packet: every datagram of the result
/// is one that some packet of the batch was accepted as.
pub proof fn law_nothing_but_accepted_packets_is_forwarded(
    listen: SocketAddr,
    packets: Seq<Arrival>,
    k: int,
)
    requires
        0 <= k < accepted(listen, packets).len(),
    ensures
        exists|i: int|
            0 <= i < packets.len() && accepts(listen, #[trigger] packets[i]) == Some(
                accepted(listen, packets)[k],
            ),
    decreases packets.len(),
{
    let before = packets.drop_last();
    let last = packets.len() - 1;
    assert(packets[last] == packets.last());
    if k < accepted(listen, before).len() {
        law_nothing_but_accepted_packets_is_forwarded(listen, before, k);
        let i = choose|i: int|
            0 <= i < before.len() && accepts(listen, #[trigger] before[i]) == Some(
                accepted(listen, before)[k],
            );
        assert(packets[i] == before[i]);
    }
}

/// Every packet that is accepted is forwarded as what it was accepted as.
pub proof fn law_every_accepted_packet_is_forwarded(
    listen: SocketAddr,
    packets: Seq<Arrival>,
    i: int,
)
    requires
        0 <= i < packets.len(),
        accepts(listen, packets[i]) is Some,
    ensures
        accepted(listen, packets).contains(accepts(listen, packets[i]).unwrap()),
    decreases packets.len(),
{
    let before = packets.drop_last();
    let d = accepts(listen, packets[i]).unwrap();
    if i < before.len() {
        law_every_accepted_packet_is_forwarded(listen, before, i);
        let k = accepted(listen, before).index_of(d);
        assert(accepted(listen, packets)[k] == d);
    } else {
        assert(accepted(listen, packets)[accepted(listen, before).len() as int] == d);
    }
}

/// What a capturing source hands on are accepted packets of the current batch:
/// datagram `k` is what some packet of it was accepted as.
pub proof fn law_silent_receive_hands_on_accepted_packets<'a>(
    source: &'a SilentSource,
    r: Vec<Datagram<'a>>,
    k: int,
)
    requires
        source.rx.wf(),
        call_ensures(SilentSource::recv_batch, (source,), r),
        0 <= k < r@.len(),
    ensures
        exists|i: int|
            {
                &&& 0 <= i < source.rx.batch().len()
                &&& accepts(source.listen, #[trigger] source.rx.batch()[i]) == Some(
                    (r@[k].src, r@[k].payload@),
                )
            },
{
    law_contents_are_senders_and_payloads(r@, k);
    law_nothing_but_accepted_packets_is_forwarded(source.listen, source.rx.batch(), k);
}

} // verus!
