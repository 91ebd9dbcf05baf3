use udp_forward::addr::{Ipv4Addr, SocketAddr, SocketAddrV4};
use udp_forward::worker::packet::{Datagram, SendReport};
use udp_forward::worker::sink::batch::{
    chunk_capacity, chunk_outcome, BatchedSender, ChunkOutcome, ErrorNumbers, Route, SendError,
    SendLoop, MAX_MSGS_PER_CALL,
};
use udp_forward::worker::sink::normal::{payloads, NormalSink};

const NUMBERS: ErrorNumbers =
    ErrorNumbers { eintr: libc::EINTR, ebadf: libc::EBADF, enotsock: libc::ENOTSOCK };

type Returned = Result<usize, Option<i32>>;

fn err(code: i32) -> Returned {
    Err(Some(code))
}

/// Drives a loop over `total` messages with `send_chunk` as the send call.
fn run_send_loop<F>(total: usize, mut send_chunk: F) -> Result<SendReport, SendError>
where
    F: FnMut(usize, usize) -> Returned,
{
    let mut send = SendLoop::new(total);
    while let Some((next, end)) = send.chunk() {
        send.record(chunk_outcome(send_chunk(next, end), NUMBERS))?;
    }
    Ok(send.report)
}

fn v4(d: u8, port: u16) -> SocketAddr {
    SocketAddr::V4(SocketAddrV4 { ip: Ipv4Addr { bits: 0xc0a8_0100 + d as u32 }, port })
}

#[test]
fn full_chunks_do_not_skip_the_next_message() {
    // 16 payloads x 65 destinations = 1040 messages: one full 1024 chunk
    // followed by 16. A fully successful chunk must not drop message 1025.
    let mut calls = Vec::new();
    let report = run_send_loop(1040, |next, end| {
        calls.push((next, end));
        Ok(end - next)
    })
    .unwrap();
    assert_eq!(calls, vec![(0, 1024), (1024, 1040)]);
    assert_eq!(report, SendReport { sent: 1040, dropped: 0 });
}

#[test]
fn exact_chunk_boundaries() {
    for total in [0, 1, 1023, 1024, 1025, 2048] {
        let report =
            run_send_loop(total, |next, end| Ok(end - next)).unwrap();
        assert_eq!(report, SendReport { sent: total, dropped: 0 }, "total {}", total);
    }
}

#[test]
fn partial_completion_across_chunks_preserves_every_message() {
    let mut calls = Vec::new();
    let mut accepted = [600, 424, 1].into_iter();
    let report = run_send_loop(1025, |next, end| {
        calls.push((next, end));
        Ok(accepted.next().expect("unexpected extra send"))
    })
    .unwrap();

    assert_eq!(calls, [(0, 1024), (600, 1025), (1024, 1025)]);
    assert_eq!(report, SendReport { sent: 1025, dropped: 0 });
}

#[test]
fn interruption_after_partial_completion_retries_the_same_messages() {
    let mut calls = Vec::new();
    let mut results =
        [Ok(2), err(libc::EINTR), Ok(3)].into_iter();
    let report = run_send_loop(5, |next, end| {
        calls.push((next, end));
        results.next().expect("unexpected extra send")
    })
    .unwrap();

    assert_eq!(calls, [(0, 5), (2, 5), (2, 5)]);
    assert_eq!(report, SendReport { sent: 5, dropped: 0 });
}

#[test]
fn partial_send_retries_then_skips_the_offender() {
    // First call accepts 5 of 10; the retry from message 5 reports its error
    // (EACCES); the rest then succeed.
    let mut calls = 0;
    let report = run_send_loop(10, |next, end| {
        calls += 1;
        match calls {
            1 => Ok(5),
            2 => {
                assert_eq!(next, 5);
                err(libc::EACCES)
            }
            _ => Ok(end - next),
        }
    })
    .unwrap();
    assert_eq!(report, SendReport { sent: 9, dropped: 1 });
}

#[test]
fn eintr_is_retried_without_dropping() {
    let mut calls = 0;
    let report = run_send_loop(3, |next, end| {
        calls += 1;
        if calls == 1 {
            err(libc::EINTR)
        } else {
            Ok(end - next)
        }
    })
    .unwrap();
    assert_eq!(calls, 2);
    assert_eq!(report, SendReport { sent: 3, dropped: 0 });
}

#[test]
fn fatal_socket_error_is_returned() {
    let result = run_send_loop(3, |_, _| err(libc::EBADF));
    assert!(result.is_err());
}

#[test]
fn zero_accepted_still_progresses() {
    let mut calls = 0;
    let report = run_send_loop(2, |next, end| {
        calls += 1;
        if calls == 1 {
            Ok(0)
        } else {
            Ok(end - next)
        }
    })
    .unwrap();
    assert_eq!(report, SendReport { sent: 1, dropped: 1 });
}

#[test]
fn outcomes_go_by_the_numbers_of_the_system() {
    // The number of a descriptor that is no socket differs between systems.
    for enotsock in [libc::ENOTSOCK, 38, 95] {
        let numbers = ErrorNumbers { enotsock, ..NUMBERS };
        assert_eq!(
            chunk_outcome(Err(Some(enotsock)), numbers),
            ChunkOutcome::Unusable { code: enotsock }
        );
        assert_eq!(
            chunk_outcome(Err(Some(libc::EBADF)), numbers),
            ChunkOutcome::Unusable { code: libc::EBADF }
        );
        assert_eq!(chunk_outcome(Err(Some(libc::EINTR)), numbers), ChunkOutcome::Interrupted);
        assert_eq!(chunk_outcome(Err(Some(libc::EACCES)), numbers), ChunkOutcome::Failed);
        assert_eq!(chunk_outcome(Err(None), numbers), ChunkOutcome::Failed);
        assert_eq!(chunk_outcome(Ok(3), numbers), ChunkOutcome::Accepted(3));
    }
    let mips = ErrorNumbers { enotsock: 95, ..NUMBERS };
    assert_eq!(chunk_outcome(Err(Some(88)), mips), ChunkOutcome::Failed);
}

#[test]
fn both_fatal_errors_carry_their_number() {
    let bad = run_send_loop(3, |_, _| err(libc::EBADF));
    assert_eq!(bad, Err(SendError::SocketUnusable { code: libc::EBADF }));
    // Messages already sent do not bring back a report.
    let mut calls = 0;
    let not_a_socket = run_send_loop(3, |_, _| {
        calls += 1;
        if calls == 1 {
            Ok(2)
        } else {
            err(libc::ENOTSOCK)
        }
    });
    assert_eq!(calls, 2);
    assert_eq!(not_a_socket, Err(SendError::SocketUnusable { code: libc::ENOTSOCK }));
}

#[test]
fn an_error_without_a_number_drops_one_message() {
    let mut calls = 0;
    let report = run_send_loop(4, |next, end| {
        calls += 1;
        if calls == 1 {
            Err(None)
        } else {
            assert_eq!((next, end), (1, 4));
            Ok(end - next)
        }
    });
    assert_eq!(report, Ok(SendReport { sent: 3, dropped: 1 }));
}

#[test]
fn every_failing_message_is_dropped_once() {
    let report = run_send_loop(2500, |_, _| err(libc::EPERM));
    assert_eq!(report, Ok(SendReport { sent: 0, dropped: 2500 }));
}

#[test]
fn chunk_scratch_is_bounded() {
    assert_eq!(chunk_capacity(0), 0);
    assert_eq!(chunk_capacity(1), 16);
    assert_eq!(chunk_capacity(63), 1008);
    assert_eq!(chunk_capacity(64), MAX_MSGS_PER_CALL);
    assert_eq!(chunk_capacity(65), 1024);
    assert_eq!(chunk_capacity(usize::MAX), 1024);
}

#[test]
fn chunks_route_every_payload_to_every_destination() {
    let mut sender = BatchedSender::new(&[v4(1, 6000), v4(2, 6000), v4(3, 6000)]);
    assert_eq!(sender.destination_count(), 3);
    let send = sender.send(2).unwrap();
    assert_eq!(send.chunk(), Some((0, 6)));
    sender.build_chunk(2, 0, 6);
    let expected: Vec<Route> = vec![
        Route { payload: 0, dest: 0 },
        Route { payload: 0, dest: 1 },
        Route { payload: 0, dest: 2 },
        Route { payload: 1, dest: 0 },
        Route { payload: 1, dest: 1 },
        Route { payload: 1, dest: 2 },
    ];
    assert_eq!(sender.routes, expected);
    // A chunk that starts in the middle holds the same routes from there on.
    sender.build_chunk(2, 2, 5);
    assert_eq!(sender.routes, expected[2..5].to_vec());
}

#[test]
fn nothing_to_send_is_over_at_once() {
    let sender = BatchedSender::new(&[]);
    assert_eq!(sender.send(5).unwrap().chunk(), None);
    let sender = BatchedSender::new(&[v4(1, 6000)]);
    assert_eq!(sender.send(0).unwrap().chunk(), None);
    assert_eq!(sender.send(0).unwrap().report, SendReport::default());
}

#[test]
fn too_many_messages_are_refused() {
    let sender = BatchedSender::new(&[v4(1, 6000), v4(2, 6000)]);
    assert_eq!(sender.send(usize::MAX), Err(SendError::CountOverflow));
    assert_eq!(sender.send(usize::MAX / 2).unwrap().total, usize::MAX - 1);
}

#[test]
fn normal_sink_sends_payloads_in_order() {
    let batch = [
        Datagram { src: v4(9, 1), payload: b"one" },
        Datagram { src: v4(8, 2), payload: b"two" },
    ];
    assert_eq!(payloads(&batch), vec![&b"one"[..], &b"two"[..]]);
    let sink = NormalSink::new(&[v4(1, 6000), v4(2, 6000)]);
    let (sent, send) = sink.send_batch(&batch).unwrap();
    assert_eq!(sent, vec![&b"one"[..], &b"two"[..]]);
    assert_eq!(send.total, 4);
    let (none, over) = sink.send_batch(&[]).unwrap();
    assert!(none.is_empty());
    assert_eq!(over.chunk(), None);
}

#[test]
fn reports_add_up() {
    let mut report = SendReport { sent: 3, dropped: 1 };
    report.merge(SendReport { sent: 4, dropped: 2 });
    assert_eq!(report, SendReport { sent: 7, dropped: 3 });
    assert_eq!(report.summary(), Some((7, 3)));
    assert_eq!(SendReport { sent: 7, dropped: 0 }.summary(), None);
}

#[test]
fn each_datagram_goes_to_each_destination() {
    let batch = [
        Datagram { src: v4(9, 1), payload: b"one" },
        Datagram { src: v4(8, 2), payload: b"two" },
        Datagram { src: v4(9, 1), payload: b"three" },
    ];
    let mut sink = NormalSink::new(&[v4(1, 6000), v4(2, 6000)]);
    let (sent, mut send) = sink.send_batch(&batch).unwrap();
    let mut messages = Vec::new();
    while let Some((next, end)) = send.chunk() {
        sink.sender.build_chunk(sent.len(), next, end);
        // The kernel takes four messages per call at most.
        let taken = (end - next).min(4);
        for route in &sink.sender.routes[..taken] {
            messages.push((sink.sender.dests[route.dest], sent[route.payload]));
        }
        send.record(ChunkOutcome::Accepted(taken)).unwrap();
    }
    assert_eq!(send.report, SendReport { sent: 6, dropped: 0 });
    for (i, datagram) in batch.iter().enumerate() {
        assert_eq!(messages[2 * i], (v4(1, 6000), datagram.payload));
        assert_eq!(messages[2 * i + 1], (v4(2, 6000), datagram.payload));
    }
}
