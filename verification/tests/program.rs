use udp_forward::addr::{Ipv4Addr, Ipv6Addr, SocketAddr, SocketAddrV4, SocketAddrV6};
use udp_forward::cli::{
    check_families, family_name, nonzero, parse_nonzero_usize, worker_count, Args,
};
use udp_forward::socket::SocketOption;
use udp_forward::supervisor::{exit_cause, panic_message, Exit};
use udp_forward::worker::packet::SendReport;
use udp_forward::worker::{
    run_step, setup_step, sink_setup, source_setup, Event, SetupEvent, SetupStep, Sink, SinkSetup,
    Source, SourceSetup, Step, Worker,
};

fn v4(last: u32, port: u16) -> SocketAddr {
    SocketAddr::V4(SocketAddrV4 { ip: Ipv4Addr { bits: 0x7f00_0000 + last }, port })
}

fn v6(bits: u128, port: u16) -> SocketAddr {
    SocketAddr::V6(SocketAddrV6 { ip: Ipv6Addr { bits }, port, flowinfo: 0, scope_id: 0 })
}

fn args(listen: SocketAddr, spoof: bool, silent: bool) -> Args {
    Args {
        listen,
        spoof,
        silent,
        interface: Some("lo".to_string()),
        ttl: 64,
        workers: 1,
        buffer_size: 32,
        destinations: vec![v4(1, 5001), v4(1, 5002)],
    }
}

#[test]
fn counts_must_be_positive_numbers() {
    assert_eq!(parse_nonzero_usize("1"), Ok(1));
    assert_eq!(parse_nonzero_usize("+65536"), Ok(65536));
    assert_eq!(parse_nonzero_usize("007"), Ok(7));
    assert_eq!(parse_nonzero_usize(&usize::MAX.to_string()), Ok(usize::MAX));
    assert_eq!(parse_nonzero_usize("0"), Err("must be greater than 0".to_string()));
    for text in ["", "+", "-1", " 1", "1 ", "x", "99999999999999999999999"] {
        let refusal = text.parse::<usize>().unwrap_err().to_string();
        assert_eq!(parse_nonzero_usize(text), Err(refusal));
    }
}

#[test]
fn only_zero_is_turned_into_an_error() {
    assert_eq!(nonzero(Ok(0)), Err("must be greater than 0".to_string()));
    assert_eq!(nonzero(Ok(9)), Ok(9));
    assert_eq!(nonzero(Err("no".to_string())), Err("no".to_string()));
}

#[test]
fn families_must_not_be_mixed() {
    assert_eq!(check_families(v4(1, 1), &[v4(2, 2), v4(3, 3)]), Ok(()));
    assert_eq!(check_families(v6(1, 1), &[v6(2, 2)]), Ok(()));
    assert_eq!(check_families(v4(1, 1), &[]), Ok(()));
    assert_eq!(check_families(v4(1, 1), &[v4(2, 2), v6(3, 3), v6(4, 4)]), Err(1));
    assert_eq!(check_families(v6(1, 1), &[v4(2, 2)]), Err(0));
    assert_eq!((family_name(false), family_name(true)), ("IPv4", "IPv6"));
}

#[test]
fn silent_mode_uses_one_worker() {
    assert_eq!(worker_count(true, 8), (1, true));
    assert_eq!(worker_count(true, 1), (1, false));
    assert_eq!(worker_count(false, 8), (8, false));
}

#[test]
fn panic_payloads_become_text() {
    assert_eq!(panic_message(Some("slice"), None), "slice");
    assert_eq!(panic_message(None, Some("owned")), "owned");
    assert_eq!(panic_message(Some("slice"), Some("owned")), "slice");
    assert_eq!(panic_message(None, None), "unknown panic payload");
}

#[test]
fn any_worker_exit_is_fatal() {
    assert_eq!(exit_cause(Some((2, false))), Exit::Unexpected { worker: 2 });
    assert_eq!(exit_cause(Some((3, true))), Exit::Failed { worker: 3 });
    assert_eq!(exit_cause(None), Exit::Silent);
}

#[test]
fn modes_are_selected_independently() {
    for spoof in [false, true] {
        for silent in [false, true] {
            let worker = Worker::new(&args(v4(1, 4001), spoof, silent));
            match worker.source {
                Source::Silent(source) => {
                    assert!(silent);
                    assert_eq!(source.listen, v4(1, 4001));
                }
                Source::Normal(mut source) => {
                    assert!(!silent);
                    assert_eq!(source.rx.buffers_mut()[0].len(), 32);
                }
            }
            match worker.sink {
                Sink::Spoof(sink) => {
                    assert!(spoof);
                    assert_eq!((sink.ttl, sink.cache.len()), (64, 0));
                    assert_eq!(sink.sender.destination_count(), 2);
                }
                Sink::Normal(sink) => {
                    assert!(!spoof);
                    assert_eq!(sink.sender.dests, vec![v4(1, 5001), v4(1, 5002)]);
                }
            }
        }
    }
}

#[test]
fn setups_match_the_modes() {
    match source_setup(&args(v6(1, 4001), false, true)) {
        SourceSetup::Capture(plan) => {
            assert_eq!(plan.filter.len(), 6);
            assert_eq!(plan.interface.as_deref(), Some("lo"));
        }
        other => panic!("unexpected {:?}", other),
    }
    match source_setup(&args(v6(1, 4001), false, false)) {
        SourceSetup::Listen(plan) => assert_eq!(plan.bind, Some(v6(1, 4001))),
        other => panic!("unexpected {:?}", other),
    }
    match sink_setup(&args(v4(1, 4001), true, false)) {
        SinkSetup::Probe(plan) => assert_eq!((plan.options.len(), plan.bind), (5, None)),
        other => panic!("unexpected {:?}", other),
    }
    match sink_setup(&args(v4(1, 4001), false, false)) {
        SinkSetup::Send(plan) => assert_eq!(plan.options, vec![SocketOption::TtlV4(64)]),
        other => panic!("unexpected {:?}", other),
    }
}

fn scoped(scope_id: u32) -> SocketAddr {
    SocketAddr::V6(SocketAddrV6 {
        ip: Ipv6Addr { bits: 0xfe80_0000_0000_0000_0000_0000_0000_0001 },
        port: 4001,
        flowinfo: 0,
        scope_id,
    })
}

/// Sets a worker up and returns what was done, in order. The interface has the
/// index `ifindex`, and the step named `failing` fails.
fn set_up(args: &Args, ifindex: u32, failing: &str) -> Vec<String> {
    let mut done = Vec::new();
    let mut event: SetupEvent<String> = SetupEvent::Started;
    loop {
        let (name, success) = match setup_step(args, event) {
            SetupStep::LookUp { interface } => {
                (format!("look up {}", interface), SetupEvent::InterfaceFound(ifindex))
            }
            SetupStep::OpenSource(SourceSetup::Capture(_)) => {
                ("capture".to_string(), SetupEvent::SourceOpened)
            }
            SetupStep::OpenSource(SourceSetup::Listen(_)) => {
                ("listen".to_string(), SetupEvent::SourceOpened)
            }
            SetupStep::OpenSink(SinkSetup::Probe(_)) => {
                ("probe".to_string(), SetupEvent::SinkOpened)
            }
            SetupStep::OpenSink(SinkSetup::Send(_)) => {
                ("send".to_string(), SetupEvent::SinkOpened)
            }
            SetupStep::Ready => {
                done.push("ready".to_string());
                return done;
            }
            SetupStep::ScopeMismatch { scope } => {
                done.push(format!("mismatch {}", scope));
                return done;
            }
            SetupStep::Stop(error) => {
                done.push(format!("stop {}", error));
                return done;
            }
        };
        event = if name == failing { SetupEvent::Failed(name.clone()) } else { success };
        done.push(name);
    }
}

#[test]
fn the_source_is_opened_before_the_sink() {
    let normal = args(v4(1, 4001), false, false);
    assert_eq!(set_up(&normal, 3, ""), ["listen", "send", "ready"]);
    let both = args(v4(1, 4001), true, true);
    assert_eq!(set_up(&both, 3, ""), ["capture", "probe", "ready"]);
}

#[test]
fn a_scoped_listen_address_is_checked_before_any_socket() {
    let silent = args(scoped(3), true, true);
    assert_eq!(set_up(&silent, 3, ""), ["look up lo", "capture", "probe", "ready"]);
    assert_eq!(set_up(&silent, 4, ""), ["look up lo", "mismatch 3"]);
}

#[test]
fn the_interface_is_looked_up_only_where_it_matters() {
    // Without capture, without a scope, without an interface.
    assert_eq!(set_up(&args(scoped(3), false, false), 4, ""), ["listen", "send", "ready"]);
    assert_eq!(set_up(&args(scoped(0), false, true), 4, ""), ["capture", "send", "ready"]);
    let mut anywhere = args(scoped(3), false, true);
    anywhere.interface = None;
    assert_eq!(set_up(&anywhere, 4, ""), ["capture", "send", "ready"]);
}

#[test]
fn the_first_failure_ends_the_set_up() {
    let silent = args(scoped(3), true, true);
    assert_eq!(set_up(&silent, 3, "look up lo"), ["look up lo", "stop look up lo"]);
    assert_eq!(set_up(&silent, 3, "capture"), ["look up lo", "capture", "stop capture"]);
    assert_eq!(set_up(&silent, 3, "probe"), ["look up lo", "capture", "probe", "stop probe"]);
}

fn next(event: Event<Vec<u8>, &'static str>) -> Step<Vec<u8>, &'static str> {
    run_step(event)
}

#[test]
fn a_worker_runs_until_something_fails() {
    assert!(matches!(next(Event::Started), Step::Receive));
    assert!(matches!(next(Event::Received(vec![1, 2])), Step::Send(b) if b == vec![1, 2]));
    assert!(matches!(next(Event::Received(vec![])), Step::Send(b) if b.is_empty()));
    let clean = SendReport { sent: 4, dropped: 0 };
    assert!(matches!(next(Event::Sent(clean)), Step::Receive));
    let lossy = SendReport { sent: 4, dropped: 2 };
    assert!(matches!(next(Event::Sent(lossy)), Step::Warn { sent: 4, dropped: 2 }));
    assert!(matches!(next(Event::Warned), Step::Receive));
    assert!(matches!(next(Event::Failed("first")), Step::Stop("first")));
}

#[test]
fn a_run_sends_each_batch_once_and_ends_with_the_first_error() {
    let mut arriving = vec![vec![1u8], vec![], vec![2, 3]].into_iter();
    let mut calls = Vec::new();
    let mut event = Event::Started;
    let error = loop {
        event = match next(event) {
            Step::Receive => {
                calls.push("receive".to_string());
                match arriving.next() {
                    Some(batch) => Event::Received(batch),
                    None => Event::Failed("source closed"),
                }
            }
            Step::Send(batch) => {
                calls.push(format!("send {:?}", batch));
                Event::Sent(SendReport { sent: 0, dropped: batch.len() })
            }
            Step::Warn { dropped, .. } => {
                calls.push(format!("warn {}", dropped));
                Event::Warned
            }
            Step::Stop(error) => break error,
        };
    };
    assert_eq!(error, "source closed");
    assert_eq!(
        calls,
        [
            "receive", "send [1]", "warn 1", "receive", "send []", "receive", "send [2, 3]",
            "warn 2", "receive"
        ]
    );
}
