//! The in-kernel filters of a capture socket, as classic BPF programs.

use vstd::prelude::*;

use crate::worker::source::wire::{half_word, IPV6_HEADER_LEN};

verus! {

/// A classic BPF instruction (`struct sock_filter`).
#[derive(Clone, Copy, Debug, PartialEq, Eq, Structural)]
pub struct SockFilter {
    pub code: u16,
    pub jt: u8,
    pub jf: u8,
    pub k: u32,
}

/// Load the byte at offset `k` into the accumulator.
pub const LOAD_BYTE: u16 = 0x30;

/// Load the half-word at offset `k` into the accumulator.
pub const LOAD_HALF: u16 = 0x28;

/// Load the half-word at offset `k` past the index register.
pub const LOAD_HALF_INDEXED: u16 = 0x48;

/// Set the index register to four times the low nibble of the byte at `k`.
pub const LOAD_HEADER_LEN: u16 = 0xb1;

/// Skip `jt` instructions if the accumulator equals `k`, else `jf`.
pub const JUMP_IF_EQUAL: u16 = 0x15;

/// Keep `k` bytes of the packet; zero rejects it.
pub const RETURN: u16 = 0x06;

/// The bytes a filter keeps of a packet it accepts.
pub const KEEP_ALL: u32 = 0xffff;

/// How many bytes of `packet` a program keeps when it goes on at instruction
/// `pc` with accumulator `a` and index register `x`; zero rejects the packet.
///
/// This is classic BPF cut down to the instructions named above. A load past
/// the end of the packet rejects it. So does leaving the program or an
/// instruction not named here; the kernel refuses to attach such programs.
pub open spec fn kept_from(
    program: Seq<SockFilter>,
    packet: Seq<u8>,
    pc: int,
    a: int,
    x: int,
) -> int
    decreases (if pc < program.len() { program.len() - pc } else { 0 }),
{
    if pc < 0 || pc >= program.len() {
        0
    } else {
        let op = program[pc];
        if op.code == LOAD_BYTE {
            if op.k < packet.len() {
                kept_from(program, packet, pc + 1, packet[op.k as int] as int, x)
            } else {
                0
            }
        } else if op.code == LOAD_HALF {
            if op.k + 1 < packet.len() {
                kept_from(program, packet, pc + 1, half_word(packet, op.k as int), x)
            } else {
                0
            }
        } else if op.code == LOAD_HALF_INDEXED {
            if x + op.k + 1 < packet.len() {
                kept_from(program, packet, pc + 1, half_word(packet, x + op.k), x)
            } else {
                0
            }
        } else if op.code == LOAD_HEADER_LEN {
            if op.k < packet.len() {
                kept_from(program, packet, pc + 1, a, 4 * (packet[op.k as int] as int % 16))
            } else {
                0
            }
        } else if op.code == JUMP_IF_EQUAL {
            kept_from(program, packet, pc + 1 + (if a == op.k { op.jt } else { op.jf }), a, x)
        } else if op.code == RETURN {
            op.k as int
        } else {
            0
        }
    }
}

/// How many bytes of `packet` a filter keeps; zero rejects the packet.
pub open spec fn kept(program: Seq<SockFilter>, packet: Seq<u8>) -> int {
    kept_from(program, packet, 0, 0, 0)
}

/// The packet's IPv4 protocol field says UDP, and the half-word where the
/// header length field puts the UDP destination port is `port`.
pub open spec fn ipv4_udp_to_port(packet: Seq<u8>, port: u16) -> bool {
    let udp = 4 * (packet[0] as int % 16);
    &&& packet.len() > 9
    &&& packet[9] == 17
    &&& packet.len() > udp + 3
    &&& half_word(packet, udp + 2) == port
}

/// The packet's IPv6 next header field says UDP, and the half-word of the UDP
/// destination port after the fixed header is `port`.
pub open spec fn ipv6_udp_to_port(packet: Seq<u8>, port: u16) -> bool {
    &&& packet.len() > IPV6_HEADER_LEN + 3
    &&& packet[6] == 17
    &&& half_word(packet, IPV6_HEADER_LEN + 2) == port
}

/// The filter for IPv4 packets.
pub open spec fn ipv4_filter(port: u16) -> Seq<SockFilter> {
    seq![
        SockFilter { code: LOAD_BYTE, jt: 0, jf: 0, k: 9 },
        SockFilter { code: JUMP_IF_EQUAL, jt: 0, jf: 4, k: 17 },
        SockFilter { code: LOAD_HEADER_LEN, jt: 0, jf: 0, k: 0 },
        SockFilter { code: LOAD_HALF_INDEXED, jt: 0, jf: 0, k: 2 },
        SockFilter { code: JUMP_IF_EQUAL, jt: 0, jf: 1, k: port as u32 },
        SockFilter { code: RETURN, jt: 0, jf: 0, k: KEEP_ALL },
        SockFilter { code: RETURN, jt: 0, jf: 0, k: 0 },
    ]
}

/// The filter for IPv6 packets.
pub open spec fn ipv6_filter(port: u16) -> Seq<SockFilter> {
    seq![
        SockFilter { code: LOAD_BYTE, jt: 0, jf: 0, k: 6 },
        SockFilter { code: JUMP_IF_EQUAL, jt: 0, jf: 3, k: 17 },
        SockFilter { code: LOAD_HALF, jt: 0, jf: 0, k: 42 },
        SockFilter { code: JUMP_IF_EQUAL, jt: 0, jf: 1, k: port as u32 },
        SockFilter { code: RETURN, jt: 0, jf: 0, k: KEEP_ALL },
        SockFilter { code: RETURN, jt: 0, jf: 0, k: 0 },
    ]
}

/// The IPv4 filter keeps exactly the packets that look like UDP to `port`, up
/// to 65,535 bytes of each.
pub proof fn law_ipv4_filter_keeps_udp_to_port(packet: Seq<u8>, port: u16)
    ensures
        kept(ipv4_filter(port), packet) == if ipv4_udp_to_port(packet, port) {
            KEEP_ALL as int
        } else {
            0
        },
{
    reveal_with_fuel(kept_from, 8);
}

/// The IPv6 filter keeps exactly the packets that look like UDP to `port` with
/// no extension header, up to 65,535 bytes of each.
pub proof fn law_ipv6_filter_keeps_udp_to_port(packet: Seq<u8>, port: u16)
    ensures
        kept(ipv6_filter(port), packet) == if ipv6_udp_to_port(packet, port) {
            KEEP_ALL as int
        } else {
            0
        },
{
    reveal_with_fuel(kept_from, 7);
}

/// Classic BPF that accepts UDP datagrams with destination `port`, assuming the
/// data starts at the IPv4 header. Valid for AF_PACKET SOCK_DGRAM, which
/// delivers cooked (link-layer-stripped) frames, so this works on any
/// interface.
pub fn create_bpf_filter_ipv4(port: u16) -> (r: [SockFilter; 7])
    ensures
        r@ == ipv4_filter(port),
        forall|packet: Seq<u8>| #[trigger]
            kept(r@, packet) == if ipv4_udp_to_port(packet, port) {
                KEEP_ALL as int
            } else {
                0
            },
{
    let filter = [
        // Load byte at offset 9 (IPv4 protocol field).
        SockFilter { code: LOAD_BYTE, jt: 0, jf: 0, k: 9 },
        // If protocol != UDP (17), reject.
        SockFilter { code: JUMP_IF_EQUAL, jt: 0, jf: 4, k: 17 },
        // X = IPv4 header length (4 * (byte0 & 0xf)).
        SockFilter { code: LOAD_HEADER_LEN, jt: 0, jf: 0, k: 0 },
        // Load half-word at X+2 (UDP destination port).
        SockFilter { code: LOAD_HALF_INDEXED, jt: 0, jf: 0, k: 2 },
        // If port matches, accept; else reject.
        SockFilter { code: JUMP_IF_EQUAL, jt: 0, jf: 1, k: port as u32 },
        // Accept (an IPv4 packet is no longer than what is kept).
        SockFilter { code: RETURN, jt: 0, jf: 0, k: KEEP_ALL },
        // Reject.
        SockFilter { code: RETURN, jt: 0, jf: 0, k: 0 },
    ];
    proof {
        assert(filter@ =~= ipv4_filter(port));
        assert forall|packet: Seq<u8>| #[trigger]
            kept(filter@, packet) == if ipv4_udp_to_port(packet, port) {
                KEEP_ALL as int
            } else {
                0
            } by {
            law_ipv4_filter_keeps_udp_to_port(packet, port);
        }
    }
    filter
}

/// Classic BPF that accepts UDP datagrams with destination `port`, assuming the
/// data starts at a 40-byte IPv6 header with no extension headers. Packets with
/// extension headers have a non-UDP next-header value, so they are dropped in
/// the kernel and never delivered (silent mode does not reassemble them).
pub fn create_bpf_filter_ipv6(port: u16) -> (r: [SockFilter; 6])
    ensures
        r@ == ipv6_filter(port),
        forall|packet: Seq<u8>| #[trigger]
            kept(r@, packet) == if ipv6_udp_to_port(packet, port) {
                KEEP_ALL as int
            } else {
                0
            },
{
    let filter = [
        // Load byte at offset 6 (IPv6 Next Header field).
        SockFilter { code: LOAD_BYTE, jt: 0, jf: 0, k: 6 },
        // If next header != UDP (17), reject.
        SockFilter { code: JUMP_IF_EQUAL, jt: 0, jf: 3, k: 17 },
        // Load half-word at offset 42 (UDP destination port after the 40-byte
        // IPv6 header).
        SockFilter { code: LOAD_HALF, jt: 0, jf: 0, k: (IPV6_HEADER_LEN + 2) as u32 },
        // If port matches, accept; else reject.
        SockFilter { code: JUMP_IF_EQUAL, jt: 0, jf: 1, k: port as u32 },
        // Accept.
        SockFilter { code: RETURN, jt: 0, jf: 0, k: KEEP_ALL },
        // Reject.
        SockFilter { code: RETURN, jt: 0, jf: 0, k: 0 },
    ];
    proof {
        assert(filter@ =~= ipv6_filter(port));
        assert forall|packet: Seq<u8>| #[trigger]
            kept(filter@, packet) == if ipv6_udp_to_port(packet, port) {
                KEEP_ALL as int
            } else {
                0
            } by {
            law_ipv6_filter_keeps_udp_to_port(packet, port);
        }
    }
    filter
}

/// The kernel's numbers of the instructions, put together from class, size, and
/// mode.
pub proof fn law_instructions_have_the_kernel_numbers()
    ensures
        // Loads (0x00, or 0x01 into the index register) of a byte (0x10) or a
        // half-word (0x08), at a fixed (0x20) or indexed (0x40) place.
        LOAD_BYTE == 0x00 + 0x10 + 0x20,
        LOAD_HALF == 0x00 + 0x08 + 0x20,
        LOAD_HALF_INDEXED == 0x00 + 0x08 + 0x40,
        // The header length of the IP packet (0xa0).
        LOAD_HEADER_LEN == 0x01 + 0x10 + 0xa0,
        // A jump (0x05) on equality (0x10).
        JUMP_IF_EQUAL == 0x05 + 0x10,
        RETURN == 0x06,
{
}

/// Byte by byte, the IPv4 filter keeps a packet exactly where the protocol is
/// UDP and the two bytes of the destination port behind the header, however
/// long that is, spell the port.
pub proof fn law_ipv4_filter_looks_at_protocol_and_port(packet: Seq<u8>, port: u16)
    ensures
        ({
            let udp = 4 * (packet[0] as int % 16);
            let udp_to_port = packet.len() > 9 && packet[9] == 17 && packet.len() > udp + 3 && 256
                * packet[udp + 2] + packet[udp + 3] == port;
            &&& udp_to_port ==> kept(ipv4_filter(port), packet) == 65_535
            &&& !udp_to_port ==> kept(ipv4_filter(port), packet) == 0
        }),
{
    law_ipv4_filter_keeps_udp_to_port(packet, port);
}

/// Byte by byte, the IPv6 filter keeps a packet exactly where UDP is the next
/// header and the two bytes of the destination port behind the fixed header
/// spell the port.
pub proof fn law_ipv6_filter_looks_at_next_header_and_port(packet: Seq<u8>, port: u16)
    ensures
        ({
            let udp_to_port = packet.len() > 43 && packet[6] == 17 && 256 * packet[42] + packet[43]
                == port;
            &&& udp_to_port ==> kept(ipv6_filter(port), packet) == 65_535
            &&& !udp_to_port ==> kept(ipv6_filter(port), packet) == 0
        }),
{
    law_ipv6_filter_keeps_udp_to_port(packet, port);
}

/// One instruction does what the kernel does for it: a load within the packet
/// goes on with the bytes at its place and one beyond it rejects the packet, a
/// jump on equality takes the first distance where the accumulator equals the
/// operand and the second elsewhere, and a return keeps so many bytes.
pub proof fn law_instructions_work_as_in_the_kernel(
    program: Seq<SockFilter>,
    packet: Seq<u8>,
    pc: int,
    a: int,
    x: int,
)
    requires
        0 <= pc < program.len(),
        0 <= x,
    ensures
        ({
            let op = program[pc];
            let k = op.k as int;
            let now = kept_from(program, packet, pc, a, x);
            &&& op.code == 0x30 && k < packet.len() ==> now == kept_from(
                program,
                packet,
                pc + 1,
                packet[k] as int,
                x,
            )
            &&& op.code == 0x28 && k + 1 < packet.len() ==> now == kept_from(
                program,
                packet,
                pc + 1,
                256 * packet[k] + packet[k + 1],
                x,
            )
            &&& op.code == 0x48 && x + k + 1 < packet.len() ==> now == kept_from(
                program,
                packet,
                pc + 1,
                256 * packet[x + k] + packet[x + k + 1],
                x,
            )
            &&& op.code == 0xb1 && k < packet.len() ==> now == kept_from(
                program,
                packet,
                pc + 1,
                a,
                4 * (packet[k] as int % 16),
            )
            &&& (op.code == 0x30 || op.code == 0xb1) && k >= packet.len() ==> now == 0
            &&& op.code == 0x28 && k + 1 >= packet.len() ==> now == 0
            &&& op.code == 0x48 && x + k + 1 >= packet.len() ==> now == 0
            &&& op.code == 0x15 && a == k ==> now == kept_from(
                program,
                packet,
                pc + 1 + op.jt,
                a,
                x,
            )
            &&& op.code == 0x15 && a != k ==> now == kept_from(
                program,
                packet,
                pc + 1 + op.jf,
                a,
                x,
            )
            &&& op.code == 0x06 ==> now == k
        }),
{
}

} // verus!
