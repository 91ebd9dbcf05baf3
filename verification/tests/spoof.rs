use udp_forward::addr::{Ipv4Addr, Ipv6Addr, SocketAddr, SocketAddrV4, SocketAddrV6};
use udp_forward::socket::{
    listen_socket, make_spoof_socket, new_spoof_socket, send_socket, SocketOption,
};
use udp_forward::worker::packet::{Datagram, SendReport};
use udp_forward::worker::sink::spoof::{
    group_by_source, GroupOutcome, SocketCache, SocketStep, SpoofSink, SpoofStep,
};

fn v4(last: u32, port: u16) -> SocketAddr {
    SocketAddr::V4(SocketAddrV4 { ip: Ipv4Addr { bits: 0x0a00_0000 + last }, port })
}

fn v6(bits: u128, port: u16, flowinfo: u32, scope_id: u32) -> SocketAddr {
    SocketAddr::V6(SocketAddrV6 { ip: Ipv6Addr { bits }, port, flowinfo, scope_id })
}

fn batch() -> Vec<Datagram<'static>> {
    vec![
        Datagram { src: v4(1, 10), payload: b"a" },
        Datagram { src: v4(2, 10), payload: b"b" },
        Datagram { src: v4(1, 10), payload: b"c" },
        Datagram { src: v4(1, 11), payload: b"d" },
    ]
}

#[test]
fn batches_are_grouped_by_source() {
    let groups = group_by_source(&batch());
    assert_eq!(groups.len(), 3);
    assert_eq!(groups[0].src, v4(1, 10));
    assert_eq!(groups[0].payloads, vec![&b"a"[..], &b"c"[..]]);
    assert_eq!(groups[1].src, v4(2, 10));
    assert_eq!(groups[1].payloads, vec![&b"b"[..]]);
    assert_eq!(groups[2].src, v4(1, 11));
    assert_eq!(groups[2].payloads, vec![&b"d"[..]]);
    assert!(group_by_source(&[]).is_empty());
}

#[test]
fn cache_tells_all_sources_apart() {
    let sources = [
        v4(1, 10),
        v4(2, 10),
        v4(1, 11),
        v6(0x0a00_0001, 10, 0, 0),
        v6(0x0a00_0001, 10, 0, 1),
        v6(0x0a00_0001, 10, 1, 0),
        v6(0x0a00_0001, 11, 0, 0),
        v6(u128::MAX, 10, u32::MAX, u32::MAX),
    ];
    let mut cache = SocketCache::new();
    for (i, src) in sources.iter().enumerate() {
        assert_eq!(cache.get(*src), None);
        assert_eq!(cache.insert(*src), i);
        assert_eq!(cache.len(), i + 1);
    }
    for (i, src) in sources.iter().enumerate() {
        assert_eq!(cache.get(*src), Some(i));
    }
    assert_eq!(cache.get(v4(3, 10)), None);
}

#[test]
fn sockets_are_made_once_per_source() {
    let mut sink = SpoofSink::new(&[v4(100, 6000)], 64);
    match sink.socket_for(v4(1, 10)) {
        SocketStep::Make(plan) => assert_eq!(plan.bind, Some(v4(1, 10))),
        other => panic!("unexpected {:?}", other),
    }
    // A socket that could not be made is not remembered.
    assert_eq!(sink.socket_made(v4(1, 10), false), None);
    assert!(matches!(sink.socket_for(v4(1, 10)), SocketStep::Make(_)));
    assert_eq!(sink.socket_made(v4(1, 10), true), Some(0));
    assert!(matches!(sink.socket_for(v4(1, 10)), SocketStep::Cached(0)));
    assert_eq!(sink.socket_made(v4(2, 10), true), Some(1));
    assert!(matches!(sink.socket_for(v4(1, 10)), SocketStep::Cached(0)));
    assert!(matches!(sink.socket_for(v4(2, 10)), SocketStep::Cached(1)));
}

#[test]
fn missing_sockets_drop_every_copy_of_their_group() {
    let sink = SpoofSink::new(&[v4(100, 6000), v4(101, 6000), v4(102, 6000)], 64);
    let datagrams = batch();
    let mut run = sink.send_batch(&datagrams);
    assert_eq!(run.current().unwrap().src, v4(1, 10));
    run.record(GroupOutcome::NoSocket);
    assert_eq!(run.report, SendReport { sent: 0, dropped: 6 });
    assert_eq!(run.current().unwrap().src, v4(2, 10));
    run.record(GroupOutcome::Sent(SendReport { sent: 2, dropped: 1 }));
    assert_eq!(run.current().unwrap().src, v4(1, 11));
    run.record(GroupOutcome::Sent(SendReport { sent: 3, dropped: 0 }));
    assert!(run.current().is_none());
    // Four datagrams to three destinations make twelve copies.
    assert_eq!(run.report, SendReport { sent: 5, dropped: 7 });
}

#[test]
fn an_empty_batch_is_done_at_once() {
    let sink = SpoofSink::new(&[v4(100, 6000)], 64);
    let run = sink.send_batch(&[]);
    assert!(run.current().is_none());
    assert_eq!(run.report, SendReport::default());
}

#[test]
fn socket_plans_follow_the_family() {
    let plan = listen_socket(v4(1, 5000));
    assert_eq!((plan.is_ipv6, plan.bind), (false, Some(v4(1, 5000))));
    assert_eq!(plan.options, vec![SocketOption::ReusePort]);

    let plan = send_socket(false, 64);
    assert_eq!((plan.is_ipv6, plan.bind), (false, None));
    assert_eq!(plan.options, vec![SocketOption::TtlV4(64)]);
    assert_eq!(send_socket(true, 1).options, vec![SocketOption::UnicastHopsV6(1)]);

    let plan = new_spoof_socket(true, 255);
    assert_eq!((plan.is_ipv6, plan.bind), (true, None));
    assert_eq!(
        plan.options,
        vec![
            SocketOption::ReuseAddress,
            SocketOption::ReusePort,
            SocketOption::TransparentV6,
            SocketOption::FreebindV6,
            SocketOption::UnicastHopsV6(255),
        ]
    );

    let plan = make_spoof_socket(v4(7, 7), 3);
    assert_eq!((plan.is_ipv6, plan.bind), (false, Some(v4(7, 7))));
    assert_eq!(
        plan.options,
        vec![
            SocketOption::ReuseAddress,
            SocketOption::ReusePort,
            SocketOption::TransparentV4,
            SocketOption::FreebindV4,
            SocketOption::TtlV4(3),
        ]
    );
}

#[test]
fn a_source_keeps_its_socket() {
    let mut sink = SpoofSink::new(&[v4(100, 6000)], 64);
    assert_eq!(sink.socket_made(v4(1, 10), true), Some(0));
    for port in 20..120 {
        // Every second socket cannot be made.
        let made = port % 2 == 0;
        assert_eq!(sink.socket_made(v4(2, port), made).is_some(), made);
        assert!(matches!(sink.socket_for(v4(1, 10)), SocketStep::Cached(0)));
    }
    assert_eq!(sink.cache.len(), 51);
    assert!(matches!(sink.socket_for(v4(2, 20)), SocketStep::Cached(1)));
    assert!(matches!(sink.socket_for(v4(2, 118)), SocketStep::Cached(50)));
    assert!(matches!(sink.socket_for(v4(2, 21)), SocketStep::Make(_)));
}

#[test]
fn a_batch_asks_for_sockets_then_sends() {
    let mut sink = SpoofSink::new(&[v4(100, 6000), v4(101, 6000)], 64);
    let datagrams = batch();
    let mut run = sink.send_batch(&datagrams);
    match sink.next_step(&run).unwrap() {
        SpoofStep::Make { src, plan } => {
            assert_eq!((src, plan.bind), (v4(1, 10), Some(v4(1, 10))));
            assert_eq!(sink.socket_made(src, true), Some(0));
        }
        other => panic!("unexpected {:?}", other),
    }
    match sink.next_step(&run).unwrap() {
        SpoofStep::Send { slot, send } => assert_eq!((slot, send.total), (0, 4)),
        other => panic!("unexpected {:?}", other),
    }
    run.record(GroupOutcome::Sent(SendReport { sent: 4, dropped: 0 }));
    for src in [v4(2, 10), v4(1, 11)] {
        assert!(matches!(sink.next_step(&run).unwrap(), SpoofStep::Make { src: s, .. } if s == src));
        assert_eq!(sink.socket_made(src, false), None);
        run.record(GroupOutcome::NoSocket);
    }
    match sink.next_step(&run).unwrap() {
        SpoofStep::Done(report) => assert_eq!(report, SendReport { sent: 4, dropped: 4 }),
        other => panic!("unexpected {:?}", other),
    }
}

#[test]
fn room_in_the_report_is_checked() {
    let sink = SpoofSink::new(&[v4(100, 6000), v4(101, 6000)], 64);
    let datagrams = batch();
    let mut run = sink.send_batch(&datagrams);
    assert!(run.has_room(GroupOutcome::NoSocket));
    let full = GroupOutcome::Sent(SendReport { sent: usize::MAX, dropped: usize::MAX - 1 });
    assert!(run.has_room(full));
    run.record(full);
    // The second group has one payload, hence two copies.
    assert!(!run.has_room(GroupOutcome::NoSocket));
    assert!(run.has_room(GroupOutcome::Sent(SendReport { sent: 0, dropped: 1 })));
    assert!(!run.has_room(GroupOutcome::Sent(SendReport { sent: 1, dropped: 0 })));
    assert!(!run.has_room(GroupOutcome::Sent(SendReport { sent: 0, dropped: 2 })));
}

#[test]
fn a_socket_that_fails_drops_its_group() {
    let mut sink = SpoofSink::new(&[v4(100, 6000), v4(101, 6000), v4(102, 6000)], 64);
    let datagrams = batch();
    let mut run = sink.send_batch(&datagrams);
    // Two payloads to three destinations are dropped, and the next group is due.
    assert_eq!(sink.socket_tried(&mut run, false), None);
    assert_eq!(run.report, SendReport { sent: 0, dropped: 6 });
    assert_eq!((run.next, sink.cache.len()), (1, 0));
    // A socket that was made leaves the batch as it was: now it can be sent.
    assert!(matches!(sink.next_step(&run).unwrap(), SpoofStep::Make { src, .. } if src == v4(2, 10)));
    assert_eq!(sink.socket_tried(&mut run, true), Some(0));
    assert_eq!((run.next, sink.cache.get(v4(2, 10))), (1, Some(0)));
    assert_eq!(run.report, SendReport { sent: 0, dropped: 6 });
    assert!(matches!(sink.next_step(&run).unwrap(), SpoofStep::Send { slot: 0, .. }));
}

#[test]
fn a_batch_without_any_socket_ends() {
    let mut sink = SpoofSink::new(&[v4(100, 6000), v4(101, 6000)], 64);
    let datagrams = batch();
    let mut run = sink.send_batch(&datagrams);
    let mut asked = Vec::new();
    while let SpoofStep::Make { src, .. } = sink.next_step(&run).unwrap() {
        asked.push(src);
        assert_eq!(sink.socket_tried(&mut run, false), None);
    }
    assert_eq!(asked, [v4(1, 10), v4(2, 10), v4(1, 11)]);
    match sink.next_step(&run).unwrap() {
        SpoofStep::Done(report) => assert_eq!(report, SendReport { sent: 0, dropped: 8 }),
        other => panic!("unexpected {:?}", other),
    }
}
