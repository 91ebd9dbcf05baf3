//! The fields of IP and UDP headers, read by `pnet_packet`.

use pnet_packet::ipv4::Ipv4Packet;
use pnet_packet::ipv6::Ipv6Packet;
use pnet_packet::udp::UdpPacket;
use vstd::prelude::*;

use crate::addr::{Ipv4Addr, Ipv6Addr};

verus! {

/// Shortest IPv4 header.
pub const IPV4_MIN_HEADER_LEN: usize = 20;

/// Fixed IPv6 header length (no extension headers).
pub const IPV6_HEADER_LEN: usize = 40;

/// UDP header length.
pub const UDP_HEADER_LEN: usize = 8;

/// The protocol number of UDP, in IPv4 and IPv6 alike.
pub const UDP_PROTOCOL: u8 = 17;

/// The More Fragments bit of the three IPv4 flags.
pub const MORE_FRAGMENTS: u8 = 1;

/// The number that bytes spell, most significant byte first.
pub open spec fn big_endian(bytes: Seq<u8>) -> nat
    decreases bytes.len(),
{
    if bytes.len() == 0 {
        0
    } else {
        256 * big_endian(bytes.drop_last()) + bytes.last() as nat
    }
}

/// The 16-bit number at offset `i`, most significant byte first.
pub open spec fn half_word(data: Seq<u8>, i: int) -> int {
    256 * data[i] + data[i + 1]
}

/// The IPv4 address at offset `i`.
pub open spec fn ipv4_at(data: Seq<u8>, i: int) -> Ipv4Addr {
    Ipv4Addr { bits: big_endian(data.subrange(i, i + 4)) as u32 }
}

/// The IPv6 address at offset `i`.
pub open spec fn ipv6_at(data: Seq<u8>, i: int) -> Ipv6Addr {
    Ipv6Addr { bits: big_endian(data.subrange(i, i + 16)) as u128 }
}

/// The fields of an IPv4 header that tell what it carries.
#[derive(Clone, Copy, Debug)]
pub struct Ipv4Header {
    pub version: u8,
    /// In units of four bytes.
    pub header_length: u8,
    pub total_length: u16,
    /// The three flag bits.
    pub flags: u8,
    /// In units of eight bytes.
    pub fragment_offset: u16,
    pub protocol: u8,
    pub source: Ipv4Addr,
    pub destination: Ipv4Addr,
}

/// The fields of an IPv6 header that tell what it carries.
#[derive(Clone, Copy, Debug)]
pub struct Ipv6Header {
    pub version: u8,
    pub payload_length: u16,
    pub next_header: u8,
    pub source: Ipv6Addr,
    pub destination: Ipv6Addr,
}

/// The fields of a UDP header, without its checksum.
#[derive(Clone, Copy, Debug)]
pub struct UdpHeader {
    pub source: u16,
    pub destination: u16,
    /// Header and payload together.
    pub length: u16,
}

/// Reads an IPv4 header with `pnet_packet::ipv4::Ipv4Packet::new` and its
/// getters.
///
/// Taken on trust: `new` refuses data shorter than the 20 bytes of the fixed
/// fields and nothing else, and each getter returns the bits at its field's
/// place, in network order. The lengths that the fields state are not checked
/// against the data.
#[verifier::external_body]
pub(crate) fn read_ipv4(data: &[u8]) -> (r: Option<Ipv4Header>)
    ensures
        r is None <==> data@.len() < 20,
        r matches Some(h) ==> {
            &&& h.version == data@[0] / 16
            &&& h.header_length == data@[0] % 16
            &&& h.total_length == half_word(data@, 2)
            &&& h.flags == data@[6] / 32
            &&& h.fragment_offset == half_word(data@, 6) % 8192
            &&& h.protocol == data@[9]
            &&& h.source == ipv4_at(data@, 12)
            &&& h.destination == ipv4_at(data@, 16)
        },
{
    let ip = Ipv4Packet::new(data)?;
    Some(Ipv4Header {
        version: ip.get_version(),
        header_length: ip.get_header_length(),
        total_length: ip.get_total_length(),
        flags: ip.get_flags(),
        fragment_offset: ip.get_fragment_offset(),
        protocol: ip.get_next_level_protocol().0,
        source: Ipv4Addr { bits: ip.get_source().into() },
        destination: Ipv4Addr { bits: ip.get_destination().into() },
    })
}

/// Reads an IPv6 header with `pnet_packet::ipv6::Ipv6Packet::new` and its
/// getters.
///
/// Taken on trust: `new` refuses data shorter than the 40 bytes of the fixed
/// header and nothing else, and each getter returns the bits at its field's
/// place, in network order. The payload length is not checked against the
/// data.
#[verifier::external_body]
pub(crate) fn read_ipv6(data: &[u8]) -> (r: Option<Ipv6Header>)
    ensures
        r is None <==> data@.len() < 40,
        r matches Some(h) ==> {
            &&& h.version == data@[0] / 16
            &&& h.payload_length == half_word(data@, 4)
            &&& h.next_header == data@[6]
            &&& h.source == ipv6_at(data@, 8)
            &&& h.destination == ipv6_at(data@, 24)
        },
{
    let ip = Ipv6Packet::new(data)?;
    Some(Ipv6Header {
        version: ip.get_version(),
        payload_length: ip.get_payload_length(),
        next_header: ip.get_next_header().0,
        source: Ipv6Addr { bits: ip.get_source().into() },
        destination: Ipv6Addr { bits: ip.get_destination().into() },
    })
}

/// Reads a UDP header with `pnet_packet::udp::UdpPacket::new` and its getters.
///
/// Taken on trust: `new` refuses data shorter than the 8 bytes of the header
/// and nothing else, and each getter returns the 16 bits at its field's place,
/// in network order. The length field is not checked against the data.
#[verifier::external_body]
pub(crate) fn read_udp(data: &[u8]) -> (r: Option<UdpHeader>)
    ensures
        r is None <==> data@.len() < 8,
        r matches Some(h) ==> {
            &&& h.source == half_word(data@, 0)
            &&& h.destination == half_word(data@, 2)
            &&& h.length == half_word(data@, 4)
        },
{
    let udp = UdpPacket::new(data)?;
    Some(UdpHeader {
        source: udp.get_source(),
        destination: udp.get_destination(),
        length: udp.get_length(),
    })
}

/// One more byte moves the number up by one byte and fills in the lowest.
proof fn lemma_one_more_byte(data: Seq<u8>, i: int, j: int)
    requires
        0 <= i <= j < data.len(),
    ensures
        big_endian(data.subrange(i, j + 1)) == 256 * big_endian(data.subrange(i, j)) + data[j],
        big_endian(data.subrange(i, i)) == 0,
{
    assert(data.subrange(i, j + 1).drop_last() =~= data.subrange(i, j));
    assert(data.subrange(i, i) =~= Seq::<u8>::empty());
}

/// An IPv4 address is its four bytes in network order.
pub proof fn law_ipv4_address_is_four_bytes(data: Seq<u8>, i: int)
    requires
        0 <= i,
        i + 4 <= data.len(),
    ensures
        ipv4_at(data, i).bits == 0x100_0000 * data[i] + 0x1_0000 * data[i + 1] + 0x100 * data[i + 2]
            + data[i + 3],
{
    lemma_one_more_byte(data, i, i);
    lemma_one_more_byte(data, i, i + 1);
    lemma_one_more_byte(data, i, i + 2);
    lemma_one_more_byte(data, i, i + 3);
}

/// An IPv6 address is its sixteen bytes in network order: four words of four
/// bytes, the first of them the highest.
pub proof fn law_ipv6_address_is_sixteen_bytes(data: Seq<u8>, i: int)
    requires
        0 <= i,
        i + 16 <= data.len(),
    ensures
        ({
            let word = |k: int|
                0x100_0000 * data[k] + 0x1_0000 * data[k + 1] + 0x100 * data[k + 2] + data[k + 3];
            ipv6_at(data, i).bits == 0x1_0000_0000_0000_0000_0000_0000 * word(i)
                + 0x1_0000_0000_0000_0000 * word(i + 4) + 0x1_0000_0000 * word(i + 8) + word(
                i + 12,
            )
        }),
{
    lemma_one_more_byte(data, i, i);
    lemma_one_more_byte(data, i, i + 1);
    lemma_one_more_byte(data, i, i + 2);
    lemma_one_more_byte(data, i, i + 3);
    lemma_one_more_byte(data, i, i + 4);
    lemma_one_more_byte(data, i, i + 5);
    lemma_one_more_byte(data, i, i + 6);
    lemma_one_more_byte(data, i, i + 7);
    lemma_one_more_byte(data, i, i + 8);
    lemma_one_more_byte(data, i, i + 9);
    lemma_one_more_byte(data, i, i + 10);
    lemma_one_more_byte(data, i, i + 11);
    lemma_one_more_byte(data, i, i + 12);
    lemma_one_more_byte(data, i, i + 13);
    lemma_one_more_byte(data, i, i + 14);
    lemma_one_more_byte(data, i, i + 15);
}

} // verus!
