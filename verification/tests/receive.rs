use udp_forward::addr::{Ipv4Addr, Ipv6Addr, SocketAddr, SocketAddrV4, SocketAddrV6};
use udp_forward::worker::packet::RECV_BATCH_SIZE;
use udp_forward::worker::source::batch::{
    source_addr, BatchedReceiver, Filled, PeerAddr, SourceAddrError,
};
use udp_forward::worker::source::bpf::{
    create_bpf_filter_ipv4, create_bpf_filter_ipv6, SockFilter,
};
use udp_forward::worker::source::normal::NormalSource;
use udp_forward::worker::source::silent::{new_capture_socket, parse_captured_udp};

fn peer(last: u32, port: u16) -> SocketAddrV4 {
    SocketAddrV4 { ip: Ipv4Addr { bits: 0x0a00_0000 + last }, port }
}

fn fill(rx: &mut BatchedReceiver, datagrams: &[(Option<PeerAddr>, &[u8])]) {
    let mut filled = Vec::new();
    for (i, (addr, data)) in datagrams.iter().enumerate() {
        rx.buffers_mut()[i][..data.len()].copy_from_slice(data);
        filled.push(Filled { addr: *addr, len: data.len(), truncated: false });
    }
    rx.refill(filled);
}

/// Runs a classic BPF program over a packet and returns the bytes it keeps.
fn run_filter(program: &[SockFilter], packet: &[u8]) -> u32 {
    let (mut pc, mut a, mut x) = (0usize, 0u32, 0usize);
    loop {
        let op = program[pc];
        let k = op.k as usize;
        pc += 1;
        match op.code {
            0x30 => match packet.get(k) {
                Some(byte) => a = *byte as u32,
                None => return 0,
            },
            0x28 | 0x48 => {
                let at = if op.code == 0x48 { x + k } else { k };
                match packet.get(at..at + 2) {
                    Some(half) => a = u16::from_be_bytes([half[0], half[1]]) as u32,
                    None => return 0,
                }
            }
            0xb1 => match packet.get(k) {
                Some(byte) => x = 4 * (*byte as usize & 0xf),
                None => return 0,
            },
            0x15 => pc += if a == op.k { op.jt } else { op.jf } as usize,
            0x06 => return op.k,
            other => panic!("unexpected instruction {}", other),
        }
    }
}

#[test]
fn buffers_are_a_full_zeroed_set() {
    let mut rx = BatchedReceiver::new(5);
    assert_eq!(rx.buffers_mut().len(), RECV_BATCH_SIZE);
    assert!(rx.buffers_mut().iter().all(|b| b == &vec![0u8; 5]));
    assert!(rx.next().is_none());
    assert!(rx.received().is_empty());
}

#[test]
fn datagrams_drain_in_order() {
    let mut rx = BatchedReceiver::new(8);
    let first = Some(PeerAddr::V4(peer(1, 10)));
    fill(&mut rx, &[(first, b"abc"), (None, b"defgh")]);
    let (addr, data) = rx.next().unwrap();
    assert_eq!((addr, data), (first, &b"abc"[..]));
    assert_eq!(rx.last_slice(1..3), b"bc");
    let (addr, data) = rx.next().unwrap();
    assert_eq!((addr, data), (None, &b"defgh"[..]));
    assert_eq!(rx.last_slice(0..2), b"de");
    assert!(rx.next().is_none());
    // A new batch replaces the old one.
    fill(&mut rx, &[(None, b"x")]);
    let all = rx.received();
    assert_eq!(all.len(), 1);
    assert_eq!(all[0].data, b"x");
    assert_eq!(rx.next().unwrap().1, b"x");
}

#[test]
fn source_addresses_keep_ip_and_port() {
    let four = peer(9, 53);
    assert_eq!(source_addr(Some(PeerAddr::V4(four))), Ok(SocketAddr::V4(four)));
    let six = SocketAddrV6 { ip: Ipv6Addr { bits: 5 }, port: 53, flowinfo: 7, scope_id: 8 };
    assert_eq!(
        source_addr(Some(PeerAddr::V6(six))),
        Ok(SocketAddr::V6(SocketAddrV6 { flowinfo: 0, scope_id: 0, ..six }))
    );
    assert_eq!(source_addr(None), Err(SourceAddrError::Missing));
    assert_eq!(
        source_addr(Some(PeerAddr::Link { ifindex: 1 })),
        Err(SourceAddrError::UnexpectedFamily)
    );
    assert_eq!(source_addr(Some(PeerAddr::Other)), Err(SourceAddrError::UnexpectedFamily));
}

#[test]
fn normal_source_hands_on_every_datagram() {
    let mut source = NormalSource::new(8);
    let (a, b) = (peer(1, 10), peer(2, 20));
    fill(
        &mut source.rx,
        &[(Some(PeerAddr::V4(a)), b"one"), (Some(PeerAddr::V4(b)), b"two")],
    );
    let batch = source.recv_batch().unwrap();
    assert_eq!(batch.len(), 2);
    assert_eq!((batch[0].src, batch[0].payload), (SocketAddr::V4(a), &b"one"[..]));
    assert_eq!((batch[1].src, batch[1].payload), (SocketAddr::V4(b), &b"two"[..]));
    let d = source.next_packet().unwrap().unwrap();
    assert_eq!((d.src, d.payload), (SocketAddr::V4(a), &b"one"[..]));
    let d = source.next_packet().unwrap().unwrap();
    assert_eq!((d.src, d.payload), (SocketAddr::V4(b), &b"two"[..]));
    assert!(source.next_packet().unwrap().is_none());
}

#[test]
fn normal_source_reports_the_first_bad_address() {
    let mut source = NormalSource::new(8);
    fill(
        &mut source.rx,
        &[(Some(PeerAddr::V4(peer(1, 10))), b"a"), (None, b"b"), (Some(PeerAddr::Other), b"c")],
    );
    assert_eq!(source.recv_batch().unwrap_err(), SourceAddrError::Missing);
    assert!(source.next_packet().is_ok());
    assert_eq!(source.next_packet().unwrap_err(), SourceAddrError::Missing);
    assert_eq!(source.next_packet().unwrap_err(), SourceAddrError::UnexpectedFamily);
}

#[test]
fn ipv4_filter_program() {
    let filter = create_bpf_filter_ipv4(4400);
    let op = |code, jt, jf, k| SockFilter { code, jt, jf, k };
    assert_eq!(
        filter,
        [
            op(0x30, 0, 0, 9),
            op(0x15, 0, 4, 17),
            op(0xb1, 0, 0, 0),
            op(0x48, 0, 0, 2),
            op(0x15, 0, 1, 4400),
            op(0x06, 0, 0, 0xffff),
            op(0x06, 0, 0, 0),
        ]
    );
    let mut packet = vec![0u8; 28];
    packet[0] = 0x45;
    packet[9] = 17;
    packet[22..24].copy_from_slice(&4400u16.to_be_bytes());
    assert_eq!(run_filter(&filter, &packet), 0xffff);
    assert_eq!(run_filter(&filter, &packet[..23]), 0);
    packet[23] ^= 1;
    assert_eq!(run_filter(&filter, &packet), 0);
    packet[23] ^= 1;
    packet[9] = 6;
    assert_eq!(run_filter(&filter, &packet), 0);
}

#[test]
fn ipv6_filter_program() {
    let filter = create_bpf_filter_ipv6(4400);
    let op = |code, jt, jf, k| SockFilter { code, jt, jf, k };
    assert_eq!(
        filter,
        [
            op(0x30, 0, 0, 6),
            op(0x15, 0, 3, 17),
            op(0x28, 0, 0, 42),
            op(0x15, 0, 1, 4400),
            op(0x06, 0, 0, 0xffff),
            op(0x06, 0, 0, 0),
        ]
    );
    let mut packet = vec![0u8; 48];
    packet[0] = 0x60;
    packet[6] = 17;
    packet[42..44].copy_from_slice(&4400u16.to_be_bytes());
    assert_eq!(run_filter(&filter, &packet), 0xffff);
    assert_eq!(run_filter(&filter, &packet[..43]), 0);
    packet[6] = 44;
    assert_eq!(run_filter(&filter, &packet), 0);
}

#[test]
fn filter_keeps_what_the_parser_accepts() {
    for words in [5u8, 6, 15] {
        let header = 4 * words as usize;
        let mut packet = vec![0u8; header + 10];
        packet[0] = 0x40 + words;
        packet[2..4].copy_from_slice(&((header + 10) as u16).to_be_bytes());
        packet[9] = 17;
        packet[header + 2..header + 4].copy_from_slice(&4400u16.to_be_bytes());
        packet[header + 4..header + 6].copy_from_slice(&10u16.to_be_bytes());
        let listen = SocketAddr::V4(SocketAddrV4 { ip: Ipv4Addr { bits: 0 }, port: 4400 });
        assert_eq!(parse_captured_udp(&packet, listen).unwrap().payload, [0, 0]);
        let plan = new_capture_socket(false, None, 4400);
        assert_eq!(run_filter(&plan.filter, &packet), 0xffff);
    }
    let mut packet = vec![0u8; 50];
    packet[0] = 0x60;
    packet[5] = 10;
    packet[6] = 17;
    packet[42..44].copy_from_slice(&4400u16.to_be_bytes());
    packet[45] = 10;
    let any = SocketAddrV6 { ip: Ipv6Addr { bits: 0 }, port: 4400, flowinfo: 0, scope_id: 0 };
    assert!(parse_captured_udp(&packet, SocketAddr::V6(any)).is_some());
    let plan = new_capture_socket(true, None, 4400);
    assert_eq!(run_filter(&plan.filter, &packet), 0xffff);
}
