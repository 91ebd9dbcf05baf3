//! Connects a packet source to a sink and forwards borrowed datagrams in
//! batches. Receive mode (UDP socket or capture) and send mode (normal or
//! spoofed) are selected independently.

pub mod packet;
pub mod sink;
pub mod source;

use vstd::prelude::*;

use crate::addr::SocketAddr;
use crate::cli::Args;
use crate::socket::{
    listen_socket, new_spoof_socket, send_socket, spec_hop_limit, spoof_options, SocketOption,
    SocketPlan,
};
use crate::worker::packet::{contents, Datagram, SendReport};
use crate::worker::sink::batch::{
    fan_out, law_fan_out_copies_every_payload_to_every_destination,
};
use crate::worker::sink::normal::NormalSink;
use crate::worker::sink::spoof::{
    law_each_payload_keeps_its_sender, lemma_group_is_no_larger_than_batch, payloads_from, sources,
    SpoofSink,
};
use crate::worker::source::batch::{Arrival, BatchedReceiver, PeerAddr, SourceAddrError};
use crate::worker::source::bpf::kept;
use crate::worker::source::normal::{
    law_batch_is_handed_on_whole, law_received_datagrams_keep_their_sender, senders, NormalSource,
};
use crate::worker::source::silent::{
    accepted, check_interface_scope, law_capture_sockets_keep_udp_to_the_port, listen_scope,
    new_capture_socket, spec_listen_scope, CapturePlan, SilentSource,
};

verus! {

/// Supplies datagrams with their original sender addresses.
#[derive(Debug)]
pub enum Source {
    Silent(SilentSource),
    Normal(NormalSource),
}

impl Source {
    /// The receive buffers.
    pub open spec fn receiver(self) -> BatchedReceiver {
        match self {
            Source::Silent(source) => source.rx,
            Source::Normal(source) => source.rx,
        }
    }

    /// The datagrams that the packets of a batch are handed on as.
    pub open spec fn reads(self, packets: Seq<Arrival>) -> Result<
        Seq<(SocketAddr, Seq<u8>)>,
        SourceAddrError,
    > {
        match self {
            Source::Silent(source) => Ok(accepted(source.listen, packets)),
            Source::Normal(_) => senders(packets),
        }
    }

    /// The accepted datagrams of the current batch, borrowing its buffers. The
    /// batch can be empty if every received packet was rejected.
    pub fn recv_batch(&self) -> (r: Result<Vec<Datagram<'_>>, SourceAddrError>)
        requires
            self.receiver().wf(),
        ensures
            match self.reads(self.receiver().batch()) {
                Ok(datagrams) => r matches Ok(batch) && contents(batch@) == datagrams,
                Err(e) => r matches Err(got) && got == e,
            },
            self matches Source::Silent(source) ==> (r matches Ok(batch) && contents(batch@)
                == accepted(source.listen, source.rx.batch())),
            self matches Source::Normal(source) ==> match senders(source.rx.batch()) {
                Ok(datagrams) => r matches Ok(batch) && contents(batch@) == datagrams,
                Err(e) => r matches Err(got) && got == e,
            },
    {
        match self {
            Source::Silent(source) => Ok(source.recv_batch()),
            Source::Normal(source) => source.recv_batch(),
        }
    }
}

/// Forwards batches and reports output counts. Recoverable failures are counted
/// as drops; fatal errors stop the worker and return no partial report.
pub enum Sink {
    Spoof(SpoofSink),
    Normal(NormalSink),
}

/// What a worker does next; `B` is a batch of datagrams and `E` an error.
#[derive(Debug)]
pub enum Step<B, E> {
    /// Wait for a batch.
    Receive,
    /// Send this batch.
    Send(B),
    /// Log how many messages of a batch were sent and how many dropped.
    Warn { sent: usize, dropped: usize },
    /// End with this error.
    Stop(E),
}

/// What happened to a worker; `B` is a batch of datagrams and `E` an error.
#[derive(Debug)]
pub enum Event<B, E> {
    Started,
    /// The source returned this batch.
    Received(B),
    /// The sink sent a batch, with this report.
    Sent(SendReport),
    /// The log line was written.
    Warned,
    /// The source or the sink returned this error.
    Failed(E),
}

/// The socket that a source receives on.
#[derive(Debug)]
pub enum SourceSetup {
    /// A capture socket.
    Capture(CapturePlan),
    /// A bound UDP socket.
    Listen(SocketPlan),
}

/// The socket that a sink needs at the start.
#[derive(Debug)]
pub enum SinkSetup {
    /// A transparent socket, made only to learn early whether the required
    /// options can be set.
    Probe(SocketPlan),
    /// The one socket to send on.
    Send(SocketPlan),
}

impl SourceSetup {
    /// This is the socket of the source that `args` ask for.
    pub open spec fn suits(self, args: Args) -> bool {
        &&& self is Capture <==> args.silent
        &&& self matches SourceSetup::Capture(plan) ==> {
            &&& plan.captures(args.listen is V6, args.listen.spec_port())
            &&& plan.interface is Some <==> args.interface is Some
            &&& args.interface matches Some(name) ==> plan.interface.unwrap()@ == name@
        }
        &&& self matches SourceSetup::Listen(plan) ==> plan.is(
            args.listen is V6,
            seq![SocketOption::ReusePort],
            Some(args.listen),
        )
    }
}

impl SinkSetup {
    /// This is the socket of the sink that `args` ask for.
    pub open spec fn suits(self, args: Args) -> bool {
        &&& self is Probe <==> args.spoof
        &&& self matches SinkSetup::Probe(plan) ==> plan.is(
            args.listen is V6,
            spoof_options(args.listen is V6, args.ttl),
            None,
        )
        &&& self matches SinkSetup::Send(plan) ==> plan.is(
            args.listen is V6,
            seq![spec_hop_limit(args.listen is V6, args.ttl)],
            None,
        )
    }
}

/// The socket of the source that `args` ask for.
pub fn source_setup(args: &Args) -> (r: SourceSetup)
    ensures
        r.suits(*args),
{
    if args.silent {
        let interface: Option<&str> = match &args.interface {
            Some(name) => Some(name.as_str()),
            None => None,
        };
        SourceSetup::Capture(
            new_capture_socket(args.listen.is_ipv6(), interface, args.listen.port()),
        )
    } else {
        SourceSetup::Listen(listen_socket(args.listen))
    }
}

/// The socket of the sink that `args` ask for.
pub fn sink_setup(args: &Args) -> (r: SinkSetup)
    ensures
        r.suits(*args),
{
    let is_ipv6 = args.listen.is_ipv6();
    if args.spoof {
        SinkSetup::Probe(new_spoof_socket(is_ipv6, args.ttl))
    } else {
        SinkSetup::Send(send_socket(is_ipv6, args.ttl))
    }
}

/// What happened while a worker is set up; `E` is an error.
#[derive(Debug)]
pub enum SetupEvent<E> {
    Started,
    /// The chosen interface has this index.
    InterfaceFound(u32),
    /// The socket of the source is open.
    SourceOpened,
    /// The socket that the sink needs is open.
    SinkOpened,
    /// The look-up or the opening of a socket returned this error.
    Failed(E),
}

/// What the set-up of a worker does next; `E` is an error.
#[derive(Debug)]
pub enum SetupStep<E> {
    /// Look up the index of this interface.
    LookUp { interface: String },
    /// Open the socket of the source.
    OpenSource(SourceSetup),
    /// Open the socket that the sink needs.
    OpenSink(SinkSetup),
    /// Everything is there: the worker can run.
    Ready,
    /// End: the listen address names another interface than the chosen one.
    ScopeMismatch { scope: u32 },
    /// End with this error.
    Stop(E),
}

/// The set-up has to learn the index of the chosen interface: it is to capture
/// on one interface, and its listen address names one too.
pub open spec fn needs_look_up(args: Args) -> bool {
    args.silent && args.interface is Some && spec_listen_scope(args.listen) is Some
}

/// The order of the set-up. A scoped listen address is held against the chosen
/// interface before any socket is opened, the socket of the source is opened
/// before that of the sink, and the first failure ends the set-up.
pub open spec fn sets_up<E>(args: Args, event: SetupEvent<E>, step: SetupStep<E>) -> bool {
    match event {
        SetupEvent::Started => if needs_look_up(args) {
            step matches SetupStep::LookUp { interface } && interface@ == args.interface.unwrap()@
        } else {
            step matches SetupStep::OpenSource(setup) && setup.suits(args)
        },
        SetupEvent::InterfaceFound(ifindex) => match spec_listen_scope(args.listen) {
            Some(scope) if scope != ifindex => step == (SetupStep::<E>::ScopeMismatch { scope }),
            _ => step matches SetupStep::OpenSource(setup) && setup.suits(args),
        },
        SetupEvent::SourceOpened => step matches SetupStep::OpenSink(setup) && setup.suits(args),
        SetupEvent::SinkOpened => step == SetupStep::<E>::Ready,
        SetupEvent::Failed(error) => step == SetupStep::<E>::Stop(error),
    }
}

/// One step of setting up a worker.
pub fn setup_step<E>(args: &Args, event: SetupEvent<E>) -> (r: SetupStep<E>)
    ensures
        sets_up(*args, event, r),
{
    match event {
        SetupEvent::Started => {
            if let (true, Some(name)) = (args.silent, &args.interface) {
                if listen_scope(args.listen).is_some() {
                    return SetupStep::LookUp { interface: name.clone() };
                }
            }
            SetupStep::OpenSource(source_setup(args))
        },
        SetupEvent::InterfaceFound(ifindex) => match check_interface_scope(args.listen, ifindex) {
            Ok(()) => SetupStep::OpenSource(source_setup(args)),
            Err(scope) => SetupStep::ScopeMismatch { scope },
        },
        SetupEvent::SourceOpened => SetupStep::OpenSink(sink_setup(args)),
        SetupEvent::SinkOpened => SetupStep::Ready,
        SetupEvent::Failed(error) => SetupStep::Stop(error),
    }
}

/// What can happen when a step of the set-up is carried out: it succeeds or
/// fails. Nothing happens once the set-up is ready or has ended.
pub open spec fn setup_answers<E>(step: SetupStep<E>, event: SetupEvent<E>) -> bool {
    match step {
        SetupStep::LookUp { .. } => event is InterfaceFound || event is Failed,
        SetupStep::OpenSource(_) => event is SourceOpened || event is Failed,
        SetupStep::OpenSink(_) => event is SinkOpened || event is Failed,
        _ => false,
    }
}

/// A set-up so far: it starts, each step is the one due after its event, and
/// each further event answers the step before it.
pub open spec fn is_setup<E>(
    args: Args,
    events: Seq<SetupEvent<E>>,
    steps: Seq<SetupStep<E>>,
) -> bool {
    &&& events.len() > 0
    &&& events.len() == steps.len()
    &&& events[0] == SetupEvent::<E>::Started
    &&& forall|i: int| 0 <= i < events.len() ==> sets_up(args, #[trigger] events[i], steps[i])
    &&& forall|i: int| 1 <= i < events.len() ==> setup_answers(steps[i - 1], #[trigger] events[i])
}

/// A set-up goes in order. The index of the interface is the first thing
/// learned, where it is needed at all; the socket of the source comes next and
/// that of the sink last; each comes at most once. A failure or an interface
/// that disagrees is the last event, so no socket is opened after it. The
/// set-up is ready exactly when both sockets are open.
pub proof fn law_setup_goes_in_order<E>(
    args: Args,
    events: Seq<SetupEvent<E>>,
    steps: Seq<SetupStep<E>>,
    i: int,
)
    requires
        is_setup(args, events, steps),
        0 <= i < events.len(),
    ensures
        ({
            let first: int = if needs_look_up(args) {
                2
            } else {
                1
            };
            &&& events[i] is InterfaceFound ==> i == 1 && needs_look_up(args)
            &&& i == 1 && needs_look_up(args) ==> events[i] is InterfaceFound || events[i] is Failed
            &&& events[i] is SourceOpened ==> i == first
            &&& events[i] is SinkOpened ==> i == first + 1 && events[first] is SourceOpened
            &&& events[i] is Failed ==> i == events.len() - 1
            &&& steps[i] is ScopeMismatch <==> (events[i] matches SetupEvent::InterfaceFound(found)
                && spec_listen_scope(args.listen) != Some(found))
            &&& steps[i] is ScopeMismatch ==> i == 1 && i == events.len() - 1
            &&& steps[i] is Stop <==> events[i] is Failed
            &&& events[i] matches SetupEvent::Failed(error) ==> steps[i] == SetupStep::<E>::Stop(
                error,
            )
            &&& steps[i] is Ready <==> events[i] is SinkOpened
            &&& events.len() <= first + 2
        }),
{
    let n = events.len() as int;
    assert(sets_up(args, events[0], steps[0]));
    if n > 1 {
        assert(sets_up(args, events[1], steps[1]) && setup_answers(steps[0], events[1]));
    }
    if n > 2 {
        assert(sets_up(args, events[2], steps[2]) && setup_answers(steps[1], events[2]));
    }
    if n > 3 {
        assert(sets_up(args, events[3], steps[3]) && setup_answers(steps[2], events[3]));
    }
    if n > 4 {
        assert(setup_answers(steps[3], events[4]));
    }
}

/// A packet source and a sink.
pub struct Worker {
    pub source: Source,
    pub sink: Sink,
}

impl Worker {
    /// Selects the source and the sink that `args` ask for. Nothing is received
    /// and no socket is cached yet.
    pub fn new(args: &Args) -> (r: Worker)
        ensures
            r.source is Silent <==> args.silent,
            r.source matches Source::Silent(source) ==> source.listen == args.listen,
            r.source.receiver().wf(),
            r.source.receiver().fresh(args.buffer_size),
            r.source matches Source::Silent(source) ==> source.rx.wf() && source.rx.fresh(
                args.buffer_size,
            ),
            r.source matches Source::Normal(source) ==> source.rx.wf() && source.rx.fresh(
                args.buffer_size,
            ),
            r.sink is Spoof <==> args.spoof,
            r.sink matches Sink::Spoof(sink) ==> {
                &&& sink.sender.dests@ == args.destinations@
                &&& sink.ttl == args.ttl
                &&& sink.cache.wf()
                &&& sink.cache@.len() == 0
            },
            r.sink matches Sink::Normal(sink) ==> sink.sender.dests@ == args.destinations@,
    {
        let source = if args.silent {
            Source::Silent(SilentSource::new(args.listen, args.buffer_size))
        } else {
            Source::Normal(NormalSource::new(args.buffer_size))
        };
        let sink = if args.spoof {
            Sink::Spoof(SpoofSink::new(args.destinations.as_slice(), args.ttl))
        } else {
            Sink::Normal(NormalSink::new(args.destinations.as_slice()))
        };
        Worker { source, sink }
    }
}

/// What follows an event: receive, send, receive again, with a log line in
/// between when a completed batch includes dropped output messages, until the
/// source or the sink returns an error.
pub open spec fn follows<B, E>(event: Event<B, E>) -> Step<B, E> {
    match event {
        Event::Started => Step::Receive,
        Event::Received(batch) => Step::Send(batch),
        Event::Sent(report) => if report.dropped > 0 {
            Step::Warn { sent: report.sent, dropped: report.dropped }
        } else {
            Step::Receive
        },
        Event::Warned => Step::Receive,
        Event::Failed(error) => Step::Stop(error),
    }
}

/// One step of a running worker. What a worker does is [`run_step`] of what
/// happened last, over and over, until it stops.
pub fn run_step<B, E>(event: Event<B, E>) -> (r: Step<B, E>)
    ensures
        r == follows(event),
        event is Started || event is Warned ==> r is Receive,
        event matches Event::Received(batch) ==> r == Step::<B, E>::Send(batch),
        event matches Event::Failed(error) ==> r == Step::<B, E>::Stop(error),
        event matches Event::Sent(report) ==> (if report.dropped == 0 {
            r is Receive
        } else {
            r matches Step::Warn { sent, dropped } && sent == report.sent && dropped
                == report.dropped
        }),
{
    match event {
        Event::Started => Step::Receive,
        Event::Received(batch) => Step::Send(batch),
        Event::Sent(report) => match report.summary() {
            Some((sent, dropped)) => Step::Warn { sent, dropped },
            None => Step::Receive,
        },
        Event::Warned => Step::Receive,
        Event::Failed(error) => Step::Stop(error),
    }
}

/// What can happen when a step is carried out: a receive brings a batch or
/// fails, a send ends in a report or fails, a log line is written. Nothing
/// happens after a stop.
pub open spec fn answers<B, E>(step: Step<B, E>, event: Event<B, E>) -> bool {
    match step {
        Step::Receive => event is Received || event is Failed,
        Step::Send(_) => event is Sent || event is Failed,
        Step::Warn { .. } => event is Warned,
        Step::Stop(_) => false,
    }
}

/// The events of a run so far: it starts, and each further event answers the
/// step that follows the one before it.
pub open spec fn is_run<B, E>(events: Seq<Event<B, E>>) -> bool {
    &&& events.len() > 0
    &&& events[0] == Event::<B, E>::Started
    &&& forall|i: int|
        1 <= i < events.len() ==> answers(follows(events[i - 1]), #[trigger] events[i])
}

/// The batches that the source returned, in order.
pub open spec fn received<B, E>(events: Seq<Event<B, E>>) -> Seq<B>
    decreases events.len(),
{
    if events.len() == 0 {
        Seq::empty()
    } else {
        let before = received(events.drop_last());
        match events.last() {
            Event::Received(batch) => before.push(batch),
            _ => before,
        }
    }
}

/// The batches whose sending came to an end, with a report or an error, in
/// order: each is the batch of the send step that the event answers.
pub open spec fn sent<B, E>(events: Seq<Event<B, E>>) -> Seq<B>
    decreases events.len(),
{
    if events.len() < 2 {
        Seq::empty()
    } else {
        let before = sent(events.drop_last());
        match follows(events[events.len() - 2]) {
            Step::Send(batch) => before.push(batch),
            _ => before,
        }
    }
}

/// Part of a run is a run.
proof fn lemma_run_without_last<B, E>(events: Seq<Event<B, E>>)
    requires
        is_run(events),
        events.len() > 1,
    ensures
        is_run(events.drop_last()),
        answers(follows(events.drop_last().last()), events.last()),
{
    let before = events.drop_last();
    assert forall|i: int| 1 <= i < before.len() implies answers(
        follows(before[i - 1]),
        #[trigger] before[i],
    ) by {
        assert(before[i] == events[i]);
    }
    assert(events[events.len() - 1] == events.last());
}

/// Over a whole run, receiving and sending alternate: every batch that the
/// source returned, an empty one too, is passed on unchanged, in order and
/// exactly once. At each point only the batch received last can still be
/// waiting, and none is whenever the worker turns to the source again.
pub proof fn law_each_batch_is_sent_once_before_the_next_receive<B, E>(events: Seq<Event<B, E>>)
    requires
        is_run(events),
    ensures
        match follows(events.last()) {
            Step::Send(batch) => received(events) == sent(events).push(batch),
            _ => received(events) == sent(events),
        },
    decreases events.len(),
{
    if events.len() > 1 {
        let before = events.drop_last();
        lemma_run_without_last(events);
        law_each_batch_is_sent_once_before_the_next_receive(before);
        assert(events[events.len() - 2] == before.last());
    } else {
        assert(received(events.drop_last()) =~= Seq::<B>::empty());
        assert(events.last() == events[0]);
    }
}

/// The first failure ends a run: it is the last event, its error is what the
/// worker ends with, and no call is made after it. Nothing else ends a run, so
/// a worker never ends without an error.
pub proof fn law_first_failure_ends_the_run<B, E>(events: Seq<Event<B, E>>, i: int)
    requires
        is_run(events),
        0 <= i < events.len(),
    ensures
        events[i] is Failed ==> i == events.len() - 1,
        forall|error: E| #[trigger]
            follows(events[i]) == Step::<B, E>::Stop(error) <==> events[i] == Event::<
                B,
                E,
            >::Failed(error),
        forall|further: Event<B, E>|
            events.last() is Failed ==> !is_run(#[trigger] events.push(further)),
{
    if i + 1 < events.len() {
        assert(answers(follows(events[i]), events[i + 1]));
    }
    assert forall|further: Event<B, E>| events.last() is Failed implies !is_run(
        #[trigger] events.push(further),
    ) by {
        let longer = events.push(further);
        let n = events.len() as int;
        assert(longer[n] == further && longer[n - 1] == events.last());
        assert(!answers(follows(longer[n - 1]), longer[n]));
    }
}

/// Dropped messages do not end a run: after a report the worker goes back to
/// the source, at once or after a log line with the counts of that report.
pub proof fn law_dropped_messages_do_not_end_a_run<B, E>(events: Seq<Event<B, E>>, i: int)
    requires
        is_run(events),
        0 <= i < events.len(),
        events[i] is Sent,
    ensures
        events[i]->Sent_0.dropped == 0 ==> follows(events[i]) == Step::<B, E>::Receive,
        events[i]->Sent_0.dropped > 0 ==> follows(events[i]) == (Step::<B, E>::Warn {
            sent: events[i]->Sent_0.sent,
            dropped: events[i]->Sent_0.dropped,
        }),
        events[i]->Sent_0.dropped > 0 && i + 1 < events.len() ==> follows(events[i + 1])
            == Step::<B, E>::Receive,
{
    if i + 1 < events.len() {
        assert(answers(follows(events[i]), events[i + 1]));
    }
}

/// Normal forwarding sends a copy of each received datagram, byte for byte, to
/// each destination: datagram `i` for destination `d` is message
/// `i * dests.len() + d` of the batch's fan-out.
pub proof fn law_each_datagram_goes_to_each_destination(
    packets: Seq<Arrival>,
    dests: Seq<SocketAddr>,
    i: int,
    d: int,
)
    requires
        senders(packets) is Ok,
        packets.len() <= usize::MAX,
        dests.len() <= usize::MAX,
        0 <= i < packets.len(),
        0 <= d < dests.len(),
    ensures
        ({
            let batch = senders(packets)->Ok_0;
            let messages = fan_out(Seq::new(batch.len(), |k: int| batch[k].1), dests);
            &&& messages.len() == packets.len() * dests.len()
            &&& 0 <= i * dests.len() + d < messages.len()
            &&& messages[i * dests.len() + d] == (dests[d], packets[i].data)
        }),
{
    law_batch_is_handed_on_whole(packets);
    let batch = senders(packets)->Ok_0;
    let payloads = Seq::new(batch.len(), |k: int| batch[k].1);
    law_fan_out_copies_every_payload_to_every_destination(payloads, dests, i, d);
    assert(payloads[i] == packets[i].data);
}

/// Spoofed forwarding keeps each sender: every datagram of a batch is among the
/// payloads of the group of its own sender, which go out of the socket bound to
/// that sender, and each of them goes to each destination.
pub proof fn law_spoofed_datagrams_keep_their_sender(
    batch: Seq<(SocketAddr, Seq<u8>)>,
    dests: Seq<SocketAddr>,
    i: int,
    d: int,
)
    requires
        batch.len() <= usize::MAX,
        dests.len() <= usize::MAX,
        0 <= i < batch.len(),
        0 <= d < dests.len(),
    ensures
        sources(batch).contains(batch[i].0),
        fan_out(payloads_from(batch, batch[i].0), dests).contains((dests[d], batch[i].1)),
{
    law_each_payload_keeps_its_sender(batch, i);
    let payloads = payloads_from(batch, batch[i].0);
    lemma_group_is_no_larger_than_batch(batch, batch[i].0);
    let p = payloads.index_of(batch[i].1);
    law_fan_out_copies_every_payload_to_every_destination(payloads, dests, p, d);
}

/// The worker turns to its source whenever nothing else is due: at the start,
/// after a log line, and after a report without drops. Nothing but a batch is
/// sent, and nothing but a report with drops is logged.
pub proof fn law_worker_turns_to_its_source<B, E>(event: Event<B, E>)
    ensures
        follows(event) is Receive <==> event is Started || event is Warned || (
        event matches Event::Sent(report) && report.dropped == 0),
        forall|batch: B| #[trigger]
            follows(event) == Step::<B, E>::Send(batch) <==> event == Event::<B, E>::Received(
                batch,
            ),
        follows(event) matches Step::Warn { sent, dropped } ==> (
        event matches Event::Sent(report) && report.sent == sent && report.dropped == dropped
            && dropped > 0),
{
}

/// The source reads its own buffers in its own way: captured packets for its
/// listen address, or datagrams with the senders that the kernel reported.
pub proof fn law_sources_read_their_own_packets(source: Source, packets: Seq<Arrival>)
    ensures
        source matches Source::Silent(s) ==> source.receiver() == s.rx && source.reads(packets)
            == Ok::<Seq<(SocketAddr, Seq<u8>)>, SourceAddrError>(accepted(s.listen, packets)),
        source matches Source::Normal(s) ==> source.receiver() == s.rx && source.reads(packets)
            == senders(packets),
{
}

/// The socket of a source is one for the listen address: a bound one has that
/// address and shares its port; a capturing one taps the family's EtherType,
/// keeps the UDP packets to the listen port, and watches the chosen interface.
pub proof fn law_source_socket_is_for_the_listen_address(
    setup: SourceSetup,
    args: Args,
    packet: Seq<u8>,
)
    requires
        setup.suits(args),
    ensures
        args.silent <==> setup is Capture,
        setup matches SourceSetup::Listen(plan) ==> {
            &&& plan.bind == Some(args.listen)
            &&& plan.is_ipv6 == (args.listen is V6)
            &&& plan.options@ == seq![SocketOption::ReusePort]
        },
        setup matches SourceSetup::Capture(plan) ==> {
            &&& args.interface is Some <==> plan.interface is Some
            &&& args.interface matches Some(name) ==> plan.interface.unwrap()@ == name@
            &&& args.listen matches SocketAddr::V6(l) ==> plan.ethertype == 0x86dd && (kept(
                plan.filter@,
                packet,
            ) > 0 <==> packet.len() > 43 && packet[6] == 17 && 256 * packet[42] + packet[43]
                == l.port)
            &&& args.listen matches SocketAddr::V4(l) ==> plan.ethertype == 0x0800 && ({
                let udp = 4 * (packet[0] as int % 16);
                kept(plan.filter@, packet) > 0 <==> packet.len() > 9 && packet[9] == 17
                    && packet.len() > udp + 3 && 256 * packet[udp + 2] + packet[udp + 3] == l.port
            })
        },
{
    if let SourceSetup::Capture(plan) = setup {
        let is_ipv6 = args.listen is V6;
        law_capture_sockets_keep_udp_to_the_port(plan, is_ipv6, args.listen.spec_port(), packet);
    }
}

/// The socket of a sink sends with the TTL asked for, in the family of the
/// listen address, and is bound to no address at the start; it is a transparent
/// one exactly where senders are to be preserved.
pub proof fn law_sink_socket_sends_with_the_ttl(setup: SinkSetup, args: Args)
    requires
        setup.suits(args),
    ensures
        args.spoof <==> setup is Probe,
        ({
            let plan = match setup {
                SinkSetup::Probe(plan) => plan,
                SinkSetup::Send(plan) => plan,
            };
            &&& plan.bind is None
            &&& plan.is_ipv6 == (args.listen is V6)
            &&& plan.options@.len() == if args.spoof {
                5int
            } else {
                1
            }
            &&& args.listen is V6 ==> (plan.options@.last() matches SocketOption::UnicastHopsV6(n)
                && n == args.ttl)
            &&& args.listen is V4 ==> (plan.options@.last() matches SocketOption::TtlV4(n) && n
                == args.ttl)
            &&& args.spoof ==> (plan.options@[2] is TransparentV6 || plan.options@[2]
                is TransparentV4)
        }),
{
}

/// Why a step of the set-up is taken. The chosen interface is looked up, by its
/// name, exactly at the start of a capture whose listen address has a scope; a
/// mismatch is found exactly where the scope is not the index looked up.
pub proof fn law_setup_steps_have_their_reasons<E>(
    args: Args,
    event: SetupEvent<E>,
    step: SetupStep<E>,
)
    requires
        sets_up(args, event, step),
    ensures
        step is LookUp <==> event is Started && args.silent && args.interface is Some && (
        args.listen matches SocketAddr::V6(l) && l.scope_id != 0),
        step matches SetupStep::LookUp { interface } ==> interface@ == args.interface.unwrap()@,
        step is ScopeMismatch <==> (event matches SetupEvent::InterfaceFound(found)
            && args.listen matches SocketAddr::V6(l) && l.scope_id != 0 && l.scope_id != found),
        step matches SetupStep::ScopeMismatch { scope } ==> (args.listen matches SocketAddr::V6(l)
            && l.scope_id == scope),
        step is OpenSource ==> event is Started || event is InterfaceFound,
        step is OpenSink <==> event is SourceOpened,
        step is Ready <==> event is SinkOpened,
        step matches SetupStep::OpenSource(setup) ==> setup.suits(args),
        step matches SetupStep::OpenSink(setup) ==> setup.suits(args),
{
}

/// With senders preserved, a datagram goes out under the IP and the port that
/// the kernel reported for it: the group it is sent in is that sender's, and
/// every destination gets it from there.
pub proof fn law_destinations_see_the_original_sender(
    packets: Seq<Arrival>,
    dests: Seq<SocketAddr>,
    i: int,
    d: int,
)
    requires
        senders(packets) is Ok,
        packets.len() <= usize::MAX,
        dests.len() <= usize::MAX,
        0 <= i < packets.len(),
        0 <= d < dests.len(),
    ensures
        ({
            let batch = senders(packets)->Ok_0;
            let src = batch[i].0;
            &&& packets[i].addr matches Some(PeerAddr::V4(a)) ==> (src matches SocketAddr::V4(s)
                && s.ip == a.ip && s.port == a.port)
            &&& packets[i].addr matches Some(PeerAddr::V6(a)) ==> (src matches SocketAddr::V6(s)
                && s.ip == a.ip && s.port == a.port)
            &&& sources(batch).contains(src)
            &&& fan_out(payloads_from(batch, src), dests).contains((dests[d], packets[i].data))
        }),
{
    law_received_datagrams_keep_their_sender(packets, i);
    law_spoofed_datagrams_keep_their_sender(senders(packets)->Ok_0, dests, i, d);
}

/// What a worker does next is decided by what happened last: it sends exactly
/// the batch it was given, logs exactly the counts of a report with drops, ends
/// exactly with the error it was given, and receives otherwise.
pub proof fn law_run_step_passes_on_what_it_is_given<B, E>(event: Event<B, E>, r: Step<B, E>)
    requires
        call_ensures(run_step::<B, E>, (event,), r),
    ensures
        match r {
            Step::Send(batch) => event == Event::<B, E>::Received(batch),
            Step::Stop(error) => event == Event::<B, E>::Failed(error),
            Step::Warn { sent, dropped } => event matches Event::Sent(report) && report.sent == sent
                && report.dropped == dropped && dropped > 0,
            Step::Receive => event is Started || event is Warned || (
            event matches Event::Sent(report) && report.dropped == 0),
        },
{
}

/// The sockets of a worker follow its settings: the source's socket is for the
/// listen address, the sink's sends with the TTL.
pub proof fn law_setups_follow_the_settings(
    args: &Args,
    source: SourceSetup,
    sink: SinkSetup,
)
    requires
        call_ensures(source_setup, (args,), source),
        call_ensures(sink_setup, (args,), sink),
    ensures
        source is Capture <==> args.silent,
        source matches SourceSetup::Listen(plan) ==> plan.bind == Some(args.listen)
            && plan.options@.len() == 1 && plan.options@[0] is ReusePort,
        source matches SourceSetup::Capture(plan) ==> plan.ethertype == (if args.listen is V6 {
            0x86ddu16
        } else {
            0x0800u16
        }),
        sink is Probe <==> args.spoof,
        ({
            let plan = match sink {
                SinkSetup::Probe(plan) => plan,
                SinkSetup::Send(plan) => plan,
            };
            &&& args.listen is V6 ==> (plan.options@.last() matches SocketOption::UnicastHopsV6(n)
                && n == args.ttl)
            &&& args.listen is V4 ==> (plan.options@.last() matches SocketOption::TtlV4(n) && n
                == args.ttl)
        }),
{
    law_source_socket_is_for_the_listen_address(source, *args, Seq::empty());
    law_sink_socket_sends_with_the_ttl(sink, *args);
}

/// A worker is made of the modes, addresses, and sizes in its settings, and
/// holds nothing yet.
pub proof fn law_workers_follow_the_settings(args: &Args, worker: Worker, i: int)
    requires
        call_ensures(Worker::new, (args,), worker),
        0 <= i < 16,
    ensures
        args.silent <==> worker.source is Silent,
        args.spoof <==> worker.sink is Spoof,
        worker.source matches Source::Silent(s) ==> s.listen == args.listen,
        ({
            let rx = match worker.source {
                Source::Silent(s) => s.rx,
                Source::Normal(s) => s.rx,
            };
            &&& rx.buffers().len() == 16
            &&& rx.buffers()[i]@.len() == args.buffer_size
            &&& rx.entries().len() == 0
        }),
        worker.sink matches Sink::Normal(s) ==> s.sender.dests@ == args.destinations@,
        worker.sink matches Sink::Spoof(s) ==> s.sender.dests@ == args.destinations@ && s.ttl
            == args.ttl && s.cache@.len() == 0,
{
}

} // verus!
