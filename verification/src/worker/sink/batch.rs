//! Batched send shared by the sinks: fans a batch of payloads out to every
//! destination on a given socket, in chunks of at most `MAX_MSGS_PER_CALL`
//! messages.
//!
//! The system call itself belongs to the caller. A [`SendLoop`] says which
//! messages the next call covers and takes in what the call returned.

use vstd::prelude::*;

use crate::addr::SocketAddr;
use crate::worker::packet::{SendReport, RECV_BATCH_SIZE};

verus! {

/// Linux caps a single `sendmmsg` at `UIO_MAXIOV` messages.
pub const MAX_MSGS_PER_CALL: usize = 1024;

/// The numbers by which the system reports the errors that the send policy
/// tells apart. They differ between architectures, so the caller supplies them.
#[derive(Clone, Copy, Debug, PartialEq, Eq, Structural)]
pub struct ErrorNumbers {
    /// The system call was interrupted.
    pub eintr: i32,
    /// The descriptor is not open.
    pub ebadf: i32,
    /// The descriptor is not a socket.
    pub enotsock: i32,
}

/// Why a send ended without a report.
#[derive(Clone, Copy, Debug, PartialEq, Eq, Structural)]
pub enum SendError {
    /// Payloads times destinations does not fit a `usize`.
    CountOverflow,
    /// The socket cannot be used any more; `code` is the error number.
    SocketUnusable { code: i32 },
}

/// What one send call came to.
#[derive(Clone, Copy, Debug, PartialEq, Eq, Structural)]
pub enum ChunkOutcome {
    /// The number of leading messages of the chunk that the kernel accepted.
    Accepted(usize),
    /// The call was interrupted before it sent anything.
    Interrupted,
    /// The socket is unusable; `code` is the error number.
    Unusable { code: i32 },
    /// The first message of the chunk cannot be sent.
    Failed,
}

/// What a send call came to that returned `result`: the number of accepted
/// messages, or the error number, where the error has one.
pub open spec fn outcome_of(
    result: Result<usize, Option<i32>>,
    numbers: ErrorNumbers,
) -> ChunkOutcome {
    match result {
        Ok(n) => ChunkOutcome::Accepted(n),
        Err(None) => ChunkOutcome::Failed,
        Err(Some(code)) => if code == numbers.eintr {
            ChunkOutcome::Interrupted
        } else if code == numbers.ebadf || code == numbers.enotsock {
            ChunkOutcome::Unusable { code }
        } else {
            ChunkOutcome::Failed
        },
    }
}

/// Sorts what a send call returned: the number of accepted messages, or the
/// error number, where the error has one.
pub fn chunk_outcome(result: Result<usize, Option<i32>>, numbers: ErrorNumbers) -> (r:
    ChunkOutcome)
    ensures
        r == outcome_of(result, numbers),
        r is Unusable <==> (result matches Err(Some(code)) && code != numbers.eintr && (code
            == numbers.ebadf || code == numbers.enotsock)),
        r is Interrupted <==> result == Err::<usize, Option<i32>>(Some(numbers.eintr)),
        r is Accepted <==> result is Ok,
{
    match result {
        Ok(n) => ChunkOutcome::Accepted(n),
        Err(Some(code)) if code == numbers.eintr => ChunkOutcome::Interrupted,
        Err(Some(code)) if code == numbers.ebadf || code == numbers.enotsock => {
            ChunkOutcome::Unusable { code }
        },
        Err(_) => ChunkOutcome::Failed,
    }
}

/// What became of one message.
#[derive(Clone, Copy, Debug, PartialEq, Eq, Structural)]
pub enum Fate {
    Sent,
    Dropped,
}

impl ChunkOutcome {
    /// The fates that the outcome settles, of the chunk's messages from the
    /// first one on.
    pub open spec fn fates(self) -> Seq<Fate> {
        match self {
            ChunkOutcome::Accepted(0) => seq![Fate::Dropped],
            ChunkOutcome::Accepted(n) => Seq::new(n as nat, |i: int| Fate::Sent),
            ChunkOutcome::Interrupted => Seq::empty(),
            ChunkOutcome::Unusable { .. } => Seq::empty(),
            ChunkOutcome::Failed => seq![Fate::Dropped],
        }
    }
}

/// The number of `kind` among `fates`.
pub open spec fn tally(fates: Seq<Fate>, kind: Fate) -> nat {
    fates.to_multiset().count(kind)
}

/// The fates that a series of outcomes settles, message by message.
pub open spec fn settled(outcomes: Seq<ChunkOutcome>) -> Seq<Fate>
    decreases outcomes.len(),
{
    if outcomes.len() == 0 {
        Seq::empty()
    } else {
        settled(outcomes.drop_last()) + outcomes.last().fates()
    }
}

/// Progress of chunked sends over `total` messages.
///
/// Policy:
/// - interrupted: retry the same chunk;
/// - unusable socket: give up;
/// - any other error: the first message of the chunk cannot be sent; skip it;
/// - partial completion: advance past the accepted messages and go on from the
///   next one, so its error (if any) surfaces on the following call.
#[derive(Clone, Copy, Debug, PartialEq, Eq, Structural)]
pub struct SendLoop {
    pub total: usize,
    pub next: usize,
    pub report: SendReport,
}

impl SendLoop {
    /// Every message passed so far is accounted for in the report.
    pub open spec fn wf(self) -> bool {
        self.report.sent + self.report.dropped == self.next
    }

    /// The state before the first call.
    pub open spec fn start(total: usize) -> SendLoop {
        SendLoop { total, next: 0, report: SendReport { sent: 0, dropped: 0 } }
    }

    /// The end of the chunk that starts at `next`.
    pub open spec fn end(self) -> int {
        if self.total - self.next <= MAX_MSGS_PER_CALL {
            self.total as int
        } else {
            self.next + MAX_MSGS_PER_CALL
        }
    }

    /// The state after a call returned `outcome`.
    pub open spec fn after(self, outcome: ChunkOutcome) -> SendLoop {
        let skipped = SendLoop {
            next: (self.next + 1) as usize,
            report: SendReport { dropped: (self.report.dropped + 1) as usize, ..self.report },
            ..self
        };
        match outcome {
            ChunkOutcome::Accepted(0) => skipped,
            ChunkOutcome::Accepted(n) => SendLoop {
                next: (self.next + n) as usize,
                report: SendReport { sent: (self.report.sent + n) as usize, ..self.report },
                ..self
            },
            ChunkOutcome::Interrupted => self,
            ChunkOutcome::Unusable { .. } => self,
            ChunkOutcome::Failed => skipped,
        }
    }

    /// The state after a series of calls.
    pub open spec fn run(self, outcomes: Seq<ChunkOutcome>) -> SendLoop
        decreases outcomes.len(),
    {
        if outcomes.len() == 0 {
            self
        } else {
            self.run(outcomes.drop_last()).after(outcomes.last())
        }
    }

    /// A call for the chunk that is due can return `outcome`: it accepts no
    /// more messages than it was given.
    pub open spec fn admits(self, outcome: ChunkOutcome) -> bool {
        &&& self.next < self.total
        &&& outcome matches ChunkOutcome::Accepted(n) ==> self.next + n <= self.end()
    }

    /// Each outcome in turn is one that the call made at that point can return,
    /// and none follows a fatal one.
    pub open spec fn admits_all(self, outcomes: Seq<ChunkOutcome>) -> bool
        decreases outcomes.len(),
    {
        outcomes.len() > 0 ==> {
            &&& self.admits_all(outcomes.drop_last())
            &&& outcomes.len() > 1 ==> outcomes[outcomes.len() - 2] !is Unusable
            &&& self.run(outcomes.drop_last()).admits(outcomes.last())
        }
    }

    /// A loop over `total` messages, none of them attempted yet.
    pub fn new(total: usize) -> (r: SendLoop)
        ensures
            r == SendLoop::start(total),
            r.wf(),
            r.total == total,
            r.next == 0,
            r.report.sent == 0,
            r.report.dropped == 0,
    {
        SendLoop { total, next: 0, report: SendReport { sent: 0, dropped: 0 } }
    }

    /// The half-open range of messages for the next call, or `None` once every
    /// message has been passed.
    pub fn chunk(&self) -> (r: Option<(usize, usize)>)
        ensures
            r is None <==> self.next >= self.total,
            r matches Some((next, end)) ==> next == self.next && end == self.end(),
            r matches Some((next, end)) ==> next < end <= self.total && end - next <= 1024 && (end
                == self.total || end - next == 1024),
    {
        if self.next >= self.total {
            return None;
        }
        let left: usize = self.total - self.next;
        let len: usize = if left < MAX_MSGS_PER_CALL {
            left
        } else {
            MAX_MSGS_PER_CALL
        };
        Some((self.next, self.next + len))
    }

    /// Takes in what the call for the current chunk returned. `Err` means the
    /// socket is unusable and the loop is over without a report.
    pub fn record(&mut self, outcome: ChunkOutcome) -> (r: Result<(), SendError>)
        requires
            old(self).wf(),
            old(self).next < old(self).total,
            outcome matches ChunkOutcome::Accepted(n) ==> old(self).next + n <= usize::MAX,
        ensures
            final(self).wf(),
            *final(self) == old(self).after(outcome),
            final(self).total == old(self).total,
            final(self).report.sent + final(self).report.dropped == final(self).next,
            final(self).report.sent == old(self).report.sent + (match outcome {
                ChunkOutcome::Accepted(n) => n as int,
                _ => 0,
            }),
            final(self).report.dropped == old(self).report.dropped + (if outcome is Failed
                || outcome == ChunkOutcome::Accepted(0) {
                1int
            } else {
                0
            }),
            r == (match outcome {
                ChunkOutcome::Unusable { code } => Err(SendError::SocketUnusable { code }),
                _ => Ok::<(), SendError>(()),
            }),
    {
        match outcome {
            ChunkOutcome::Accepted(sent) => {
                self.report.sent += sent;
                self.next += sent;
                if sent == 0 {
                    // The call reported nothing accepted without an error; skip
                    // one message so the loop always progresses.
                    self.report.dropped += 1;
                    self.next += 1;
                }
            },
            ChunkOutcome::Interrupted => {},
            ChunkOutcome::Unusable { code } => {
                return Err(SendError::SocketUnusable { code });
            },
            ChunkOutcome::Failed => {
                self.report.dropped += 1;
                self.next += 1;
            },
        }
        Ok(())
    }
}

/// The payload and the destination of one message, as positions in the
/// payload list and in the destination set.
#[derive(Clone, Copy, Debug, PartialEq, Eq, Structural)]
pub struct Route {
    pub payload: usize,
    pub dest: usize,
}

/// Message `m` of a fan-out carries payload `m / dests` to destination
/// `m % dests`.
pub open spec fn route(m: int, dests: int) -> Route {
    Route { payload: (m / dests) as usize, dest: (m % dests) as usize }
}

/// The routes of messages `[next, end)`.
pub open spec fn routes(next: int, end: int, dests: int) -> Seq<Route> {
    Seq::new((end - next) as nat, |k: int| route(next + k, dests))
}

/// Room for the messages of one receive batch sent to `dests` destinations,
/// but never more than one call takes.
pub open spec fn spec_chunk_capacity(dests: int) -> int {
    if dests * RECV_BATCH_SIZE <= MAX_MSGS_PER_CALL {
        dests * RECV_BATCH_SIZE
    } else {
        MAX_MSGS_PER_CALL as int
    }
}

/// Room for the messages of one receive batch sent to `dests` destinations,
/// but never more than one call takes.
pub fn chunk_capacity(dests: usize) -> (r: usize)
    ensures
        r == spec_chunk_capacity(dests as int),
{
    let wanted: usize = match dests.checked_mul(RECV_BATCH_SIZE) {
        Some(n) => n,
        None => usize::MAX,
    };
    if wanted < MAX_MSGS_PER_CALL {
        wanted
    } else {
        MAX_MSGS_PER_CALL
    }
}

/// Fans payloads out to a fixed destination set. Reused across sends, and
/// across per-source sockets in the spoof sink (the destination set is the
/// same for every source).
#[derive(Debug)]
pub struct BatchedSender {
    pub dests: Vec<SocketAddr>,
    /// The routes of one chunk, refilled per chunk, bounding memory to one
    /// chunk rather than the whole fan-out.
    pub routes: Vec<Route>,
}

impl BatchedSender {
    /// A sender to `destinations`, with no chunk built yet.
    pub fn new(destinations: &[SocketAddr]) -> (r: BatchedSender)
        ensures
            r.dests@ == destinations@,
            r.routes@.len() == 0,
    {
        BatchedSender {
            dests: vstd::slice::slice_to_vec(destinations),
            routes: Vec::with_capacity(chunk_capacity(destinations.len())),
        }
    }

    /// The number of destinations.
    pub fn destination_count(&self) -> (r: usize)
        ensures
            r == self.dests@.len(),
    {
        self.dests.len()
    }

    /// Starts sending `payloads` payloads to every destination. With nothing
    /// to send the loop is over from the start.
    pub fn send(&self, payloads: usize) -> (r: Result<SendLoop, SendError>)
        ensures
            r == (if payloads * self.dests@.len() <= usize::MAX {
                Ok(SendLoop::start((payloads * self.dests@.len()) as usize))
            } else {
                Err(SendError::CountOverflow)
            }),
            r matches Ok(send) ==> send.total == payloads * self.dests@.len() && send.next == 0
                && send.report.sent == 0 && send.report.dropped == 0,
    {
        match payloads.checked_mul(self.dests.len()) {
            Some(total) => Ok(SendLoop::new(total)),
            None => Err(SendError::CountOverflow),
        }
    }

    /// Fills `routes` for messages `[next, end)` of a fan-out of `payloads`
    /// payloads.
    pub fn build_chunk(&mut self, payloads: usize, next: usize, end: usize)
        requires
            next <= end <= payloads * old(self).dests@.len(),
        ensures
            final(self).dests == old(self).dests,
            final(self).routes@ == routes(next as int, end as int, old(self).dests@.len() as int),
            final(self).routes@.len() == end - next,
            forall|k: int|
                0 <= k < end - next ==> (#[trigger] final(self).routes@[k]).payload < payloads
                    && final(self).routes@[k].dest < old(self).dests@.len(),
            forall|k: int|
                0 <= k < end - next ==> (#[trigger] final(self).routes@[k]).payload
                    * old(self).dests@.len() + final(self).routes@[k].dest == next + k,
    {
        let ndests: usize = self.dests.len();
        self.routes.clear();
        let mut m: usize = next;
        while m < end
            invariant
                next <= m <= end <= payloads * ndests,
                ndests == self.dests@.len(),
                self.dests == old(self).dests,
                self.routes@ == routes(next as int, m as int, ndests as int),
                forall|k: int|
                    0 <= k < m - next ==> (#[trigger] self.routes@[k]).payload < payloads
                        && self.routes@[k].dest < ndests,
                self.routes@.len() == m - next,
                forall|k: int|
                    0 <= k < m - next ==> (#[trigger] self.routes@[k]).payload * ndests
                        + self.routes@[k].dest == next + k,
            decreases end - m,
        {
            proof {
                lemma_message_in_range(m as int, payloads as int, ndests as int);
                vstd::arithmetic::div_mod::lemma_fundamental_div_mod(m as int, ndests as int);
                vstd::arithmetic::mul::lemma_mul_is_commutative(
                    ndests as int,
                    m as int / ndests as int,
                );
            }
            self.routes.push(Route { payload: m / ndests, dest: m % ndests });
            m += 1;
            assert(self.routes@ =~= routes(next as int, m as int, ndests as int));
        }
    }
}

/// A message below `payloads * dests` names an existing payload and an
/// existing destination.
proof fn lemma_message_in_range(m: int, payloads: int, dests: int)
    requires
        0 <= m < payloads * dests,
        0 <= payloads,
        0 <= dests,
    ensures
        dests > 0,
        0 <= m / dests < payloads,
        0 <= m % dests < dests,
{
    assert(dests > 0) by (nonlinear_arith)
        requires
            0 <= m < payloads * dests,
            0 <= dests,
    ;
    assert(0 <= m / dests < payloads && 0 <= m % dests < dests) by (nonlinear_arith)
        requires
            0 <= m < payloads * dests,
            dests > 0,
    ;
}

/// Every payload goes to every destination in exactly one message of the
/// fan-out: message `payload * dests + dest`.
pub proof fn law_each_destination_gets_each_payload_once(
    payloads: nat,
    dests: nat,
    payload: nat,
    dest: nat,
    m: int,
)
    requires
        payload < payloads <= usize::MAX,
        dest < dests <= usize::MAX,
    ensures
        0 <= payload * dests + dest < payloads * dests,
        0 <= m < payloads * dests ==> (route(m, dests as int) == (Route {
            payload: payload as usize,
            dest: dest as usize,
        }) <==> m == payload * dests + dest),
{
    let n = dests as int;
    let at: int = (payload * dests + dest) as int;
    assert(0 <= at < payloads * dests) by (nonlinear_arith)
        requires
            at == payload * dests + dest,
            payload < payloads,
            dest < dests,
    ;
    vstd::arithmetic::div_mod::lemma_fundamental_div_mod_converse(
        at,
        n,
        payload as int,
        dest as int,
    );
    if 0 <= m < payloads * dests {
        lemma_message_in_range(m, payloads as int, n);
        vstd::arithmetic::div_mod::lemma_fundamental_div_mod(m, n);
        if route(m, n) == (Route { payload: payload as usize, dest: dest as usize }) {
            assert(m / n == payload && m % n == dest);
            assert(n * (m / n) == payload * dests) by (nonlinear_arith)
                requires
                    m / n == payload,
                    n == dests,
            ;
        }
    }
}

/// The messages of a fan-out: where each goes and what it carries.
pub open spec fn fan_out(payloads: Seq<Seq<u8>>, dests: Seq<SocketAddr>) -> Seq<
    (SocketAddr, Seq<u8>),
> {
    Seq::new(
        payloads.len() * dests.len(),
        |m: int|
            {
                let r = route(m, dests.len() as int);
                (dests[r.dest as int], payloads[r.payload as int])
            },
    )
}

/// A copy of each payload, byte for byte, goes to each destination: message
/// `p * dests.len() + d` of the fan-out is payload `p` for destination `d`.
pub proof fn law_fan_out_copies_every_payload_to_every_destination(
    payloads: Seq<Seq<u8>>,
    dests: Seq<SocketAddr>,
    p: int,
    d: int,
)
    requires
        payloads.len() <= usize::MAX,
        dests.len() <= usize::MAX,
        0 <= p < payloads.len(),
        0 <= d < dests.len(),
    ensures
        fan_out(payloads, dests).len() == payloads.len() * dests.len(),
        0 <= p * dests.len() + d < fan_out(payloads, dests).len(),
        fan_out(payloads, dests)[p * dests.len() + d] == (dests[d], payloads[p]),
{
    law_each_destination_gets_each_payload_once(
        payloads.len(),
        dests.len(),
        p as nat,
        d as nat,
        p * dests.len() + d,
    );
}

/// Consecutive chunks add up: the routes of `[next, mid)` followed by those of
/// `[mid, end)` are the routes of `[next, end)`.
pub proof fn law_chunks_join(next: int, mid: int, end: int, dests: int)
    requires
        next <= mid <= end,
    ensures
        routes(next, mid, dests) + routes(mid, end, dests) == routes(next, end, dests),
{
    assert(routes(next, mid, dests) + routes(mid, end, dests) =~= routes(next, end, dests));
}

/// The fates of `n` accepted messages hold `n` times `Sent`.
proof fn lemma_tally_sent(n: nat)
    ensures
        tally(Seq::new(n, |i: int| Fate::Sent), Fate::Sent) == n,
        tally(Seq::new(n, |i: int| Fate::Sent), Fate::Dropped) == 0,
    decreases n,
{
    broadcast use vstd::multiset::group_multiset_axioms;
    broadcast use vstd::seq_lib::group_to_multiset_ensures;

    let all = Seq::new(n, |i: int| Fate::Sent);
    if n > 0 {
        let fewer = Seq::new((n - 1) as nat, |i: int| Fate::Sent);
        lemma_tally_sent((n - 1) as nat);
        assert(all =~= fewer.push(Fate::Sent));
    } else {
        assert(all =~= Seq::<Fate>::empty());
    }
}

/// What one outcome adds to the state is what its fates say.
proof fn lemma_after_matches_fates(state: SendLoop, outcome: ChunkOutcome)
    requires
        state.wf(),
        state.admits(outcome),
    ensures
        state.after(outcome).wf(),
        state.after(outcome).total == state.total,
        state.after(outcome).next == state.next + outcome.fates().len(),
        state.after(outcome).next <= state.total,
        state.after(outcome).report.sent == state.report.sent + tally(outcome.fates(), Fate::Sent),
        state.after(outcome).report.dropped == state.report.dropped + tally(
            outcome.fates(),
            Fate::Dropped,
        ),
{
    broadcast use vstd::multiset::group_multiset_axioms;
    broadcast use vstd::seq_lib::group_to_multiset_ensures;

    let skip = seq![Fate::Dropped];
    assert(skip =~= Seq::<Fate>::empty().push(Fate::Dropped));
    if let ChunkOutcome::Accepted(n) = outcome {
        lemma_tally_sent(n as nat);
    }
}

/// Every message passed has exactly one fate, settled in message order: the
/// loop stands at message `settled(outcomes).len()`, never past the last, and
/// the report counts those fates.
pub proof fn law_every_message_is_accounted_for(total: usize, outcomes: Seq<ChunkOutcome>)
    requires
        SendLoop::start(total).admits_all(outcomes),
    ensures
        SendLoop::start(total).run(outcomes).wf(),
        SendLoop::start(total).run(outcomes).total == total,
        SendLoop::start(total).run(outcomes).next == settled(outcomes).len() <= total,
        SendLoop::start(total).run(outcomes).report.sent == tally(settled(outcomes), Fate::Sent),
        SendLoop::start(total).run(outcomes).report.dropped == tally(
            settled(outcomes),
            Fate::Dropped,
        ),
    decreases outcomes.len(),
{
    broadcast use vstd::multiset::group_multiset_axioms;
    broadcast use vstd::seq_lib::group_to_multiset_ensures;

    if outcomes.len() > 0 {
        let before = outcomes.drop_last();
        law_every_message_is_accounted_for(total, before);
        let state = SendLoop::start(total).run(before);
        lemma_after_matches_fates(state, outcomes.last());
        vstd::seq_lib::lemma_multiset_commutative(settled(before), outcomes.last().fates());
    }
}

/// An outcome concerns the messages from the loop's position on and no others:
/// a failed call drops the first message of its chunk, an accepted count
/// settles that many messages as sent, and earlier fates stay as they are.
pub proof fn law_outcome_settles_messages_at_position(
    total: usize,
    outcomes: Seq<ChunkOutcome>,
    outcome: ChunkOutcome,
)
    requires
        SendLoop::start(total).admits_all(outcomes),
    ensures
        SendLoop::start(total).run(outcomes.push(outcome)) == SendLoop::start(total).run(
            outcomes,
        ).after(outcome),
        settled(outcomes.push(outcome)) == settled(outcomes) + outcome.fates(),
        settled(outcomes).len() == SendLoop::start(total).run(outcomes).next,
{
    assert(outcomes.push(outcome).drop_last() =~= outcomes);
    law_every_message_is_accounted_for(total, outcomes);
}

/// A fatal error ends the loop before its last message: no report is due and
/// no further call is made.
pub proof fn law_fatal_error_ends_the_loop(
    total: usize,
    outcomes: Seq<ChunkOutcome>,
    further: ChunkOutcome,
)
    requires
        SendLoop::start(total).admits_all(outcomes),
        outcomes.len() > 0,
        outcomes.last() is Unusable,
    ensures
        SendLoop::start(total).run(outcomes).next < total,
        !SendLoop::start(total).admits_all(outcomes.push(further)),
{
    law_every_message_is_accounted_for(total, outcomes.drop_last());
    assert(outcomes.push(further)[outcomes.len() - 1] == outcomes.last());
}

/// A finished loop reports each of its messages once: sent plus dropped is the
/// total.
pub proof fn law_finished_report_covers_total(total: usize, outcomes: Seq<ChunkOutcome>)
    requires
        SendLoop::start(total).admits_all(outcomes),
        SendLoop::start(total).run(outcomes).next >= total,
    ensures
        SendLoop::start(total).run(outcomes).report.copies() == total,
{
    law_every_message_is_accounted_for(total, outcomes);
}

/// Where every call accepts at least one message, however few, nothing is
/// dropped.
pub proof fn law_partial_completion_drops_nothing(total: usize, outcomes: Seq<ChunkOutcome>)
    requires
        SendLoop::start(total).admits_all(outcomes),
        forall|i: int|
            0 <= i < outcomes.len() ==> (#[trigger] outcomes[i] matches ChunkOutcome::Accepted(n)
                && n > 0),
    ensures
        SendLoop::start(total).run(outcomes).report.dropped == 0,
    decreases outcomes.len(),
{
    if outcomes.len() > 0 {
        let before = outcomes.drop_last();
        assert forall|i: int| 0 <= i < before.len() implies (
        #[trigger] before[i] matches ChunkOutcome::Accepted(n) && n > 0) by {
            assert(before[i] == outcomes[i]);
        }
        law_partial_completion_drops_nothing(total, before);
        assert(outcomes[outcomes.len() - 1] == outcomes.last());
    }
}

/// Interruptions change nothing: the loop ends up where the other outcomes
/// alone would have brought it.
pub proof fn law_interruptions_are_retried(start: SendLoop, outcomes: Seq<ChunkOutcome>)
    ensures
        start.run(outcomes) == start.run(outcomes.filter(|o: ChunkOutcome| !(o is Interrupted))),
    decreases outcomes.len(),
{
    reveal(Seq::filter);
    let kept = |o: ChunkOutcome| !(o is Interrupted);
    if outcomes.len() > 0 {
        law_interruptions_are_retried(start, outcomes.drop_last());
        let before = outcomes.drop_last().filter(kept);
        if kept(outcomes.last()) {
            assert(outcomes.filter(kept) =~= before.push(outcomes.last()));
            assert(before.push(outcomes.last()).drop_last() =~= before);
        }
    }
}

/// Each call that is neither interrupted nor fatal passes at least one
/// message, so at most `total` of them are made.
pub proof fn law_every_other_call_makes_progress(total: usize, outcomes: Seq<ChunkOutcome>)
    requires
        SendLoop::start(total).admits_all(outcomes),
    ensures
        outcomes.filter(|o: ChunkOutcome| !(o is Interrupted) && !(o is Unusable)).len()
            <= SendLoop::start(total).run(outcomes).next <= total,
    decreases outcomes.len(),
{
    reveal(Seq::filter);
    if outcomes.len() > 0 {
        law_every_other_call_makes_progress(total, outcomes.drop_last());
    }
    law_every_message_is_accounted_for(total, outcomes);
    if outcomes.len() > 0 {
        law_every_message_is_accounted_for(total, outcomes.drop_last());
        lemma_after_matches_fates(
            SendLoop::start(total).run(outcomes.drop_last()),
            outcomes.last(),
        );
    }
}

/// A chunk that is due is never empty and never longer than one call takes.
pub proof fn law_chunks_fit_one_call(state: SendLoop)
    requires
        state.next < state.total,
    ensures
        state.next < state.end() <= state.total,
        state.end() - state.next <= MAX_MSGS_PER_CALL,
        state.end() < state.total ==> state.end() - state.next == 1024,
        state.end() - state.next <= 1024,
{
}

/// The error number alone decides what an error comes to. Only an unusable
/// socket, one that is not open or not a socket, ends the sending; an
/// interruption is told apart first; every other error, with or without a
/// number, concerns the one message that could not be sent.
pub proof fn law_only_an_unusable_socket_is_fatal(
    result: Result<usize, Option<i32>>,
    numbers: ErrorNumbers,
)
    ensures
        forall|n: usize|
            outcome_of(result, numbers) == ChunkOutcome::Accepted(n) <==> result == Ok::<
                usize,
                Option<i32>,
            >(n),
        outcome_of(result, numbers) is Interrupted <==> (result matches Err(Some(code)) && code
            == numbers.eintr),
        forall|code: i32|
            outcome_of(result, numbers) == (ChunkOutcome::Unusable { code }) <==> result == Err::<
                usize,
                Option<i32>,
            >(Some(code)) && code != numbers.eintr && (code == numbers.ebadf || code
                == numbers.enotsock),
        outcome_of(result, numbers) is Failed <==> (result matches Err(e) && (e matches Some(code)
            ==> code != numbers.eintr && code != numbers.ebadf && code != numbers.enotsock)),
{
}

/// A message that cannot be sent never ends the sending: an error with any
/// other number passes that one message, counts it as dropped, and leaves the
/// rest of the fan-out to go on.
pub proof fn law_unsendable_message_is_skipped(
    state: SendLoop,
    code: i32,
    numbers: ErrorNumbers,
)
    requires
        state.next < state.total,
        state.report.dropped < usize::MAX,
        code != numbers.eintr,
        code != numbers.ebadf,
        code != numbers.enotsock,
    ensures
        ({
            let later = state.after(outcome_of(Err(Some(code)), numbers));
            &&& outcome_of(Err(Some(code)), numbers) !is Unusable
            &&& later.total == state.total
            &&& later.next == state.next + 1
            &&& later.report.sent == state.report.sent
            &&& later.report.dropped == state.report.dropped + 1
        }),
{
}

/// What one call does to the loop, in numbers: accepted messages are passed and
/// counted as sent; a call that failed or accepted nothing passes one message,
/// counted as dropped; an interrupted or fatal call changes nothing.
pub proof fn law_each_call_moves_the_loop(state: SendLoop, outcome: ChunkOutcome)
    requires
        state.report.sent + state.report.dropped == state.next,
        state.next < state.total,
        outcome matches ChunkOutcome::Accepted(n) ==> state.next + n <= state.total,
    ensures
        state.after(outcome).total == state.total,
        outcome matches ChunkOutcome::Accepted(n) ==> state.after(outcome).report.sent
            == state.report.sent + n,
        outcome matches ChunkOutcome::Accepted(n) ==> (n > 0 ==> state.after(outcome).next
            == state.next + n && state.after(outcome).report.dropped == state.report.dropped),
        outcome == ChunkOutcome::Accepted(0) || outcome is Failed ==> {
            &&& state.after(outcome).next == state.next + 1
            &&& state.after(outcome).report.dropped == state.report.dropped + 1
            &&& state.after(outcome).report.sent == state.report.sent
        },
        outcome is Interrupted || outcome is Unusable ==> state.after(outcome) == state,
{
}

/// It does not matter how the kernel splits what it accepts: taking some
/// messages in one call and more in the next comes to the same as taking them
/// all at once.
pub proof fn law_partial_completions_add_up(state: SendLoop, first: usize, second: usize)
    requires
        state.report.sent + state.report.dropped == state.next,
        first > 0,
        second > 0,
        state.next + first + second <= state.total,
    ensures
        state.after(ChunkOutcome::Accepted(first)).after(ChunkOutcome::Accepted(second))
            == state.after(ChunkOutcome::Accepted((first + second) as usize)),
{
}

/// The fate of message `i` of the chunk: sent where the call accepted more than
/// `i` messages; dropped where it is the first one of a call that failed or
/// accepted nothing; open otherwise.
pub proof fn law_each_message_has_its_own_fate(outcome: ChunkOutcome, i: int)
    requires
        0 <= i,
    ensures
        i < outcome.fates().len() && outcome.fates()[i] == Fate::Sent <==> (
        outcome matches ChunkOutcome::Accepted(n) && i < n),
        i < outcome.fates().len() && outcome.fates()[i] == Fate::Dropped <==> i == 0 && (outcome
            == ChunkOutcome::Accepted(0) || outcome is Failed),
{
}

/// A loop starts before its first message with nothing counted, has so many
/// messages ahead as it is to send, and stays there until a call is made.
pub proof fn law_loop_starts_with_everything_ahead(total: usize)
    ensures
        SendLoop::start(total).total == total,
        SendLoop::start(total).next == 0,
        SendLoop::start(total).report.sent == 0,
        SendLoop::start(total).report.dropped == 0,
        SendLoop::start(total).run(Seq::empty()) == SendLoop::start(total),
        settled(Seq::empty()).len() == 0,
{
}

/// The routes of a chunk count through the fan-out without a gap: the messages
/// of one payload, one per destination, stand side by side, so a route's
/// payload times the number of destinations plus its destination is the number
/// of its message.
pub proof fn law_routes_number_the_messages(next: int, end: int, dests: int, k: int)
    requires
        0 <= next <= end <= usize::MAX,
        0 < dests <= usize::MAX,
        0 <= k < end - next,
    ensures
        routes(next, end, dests).len() == end - next,
        routes(next, end, dests)[k].dest < dests,
        routes(next, end, dests)[k].payload * dests + routes(next, end, dests)[k].dest == next + k,
{
    let m = next + k;
    vstd::arithmetic::div_mod::lemma_fundamental_div_mod(m, dests);
    vstd::arithmetic::mul::lemma_mul_is_commutative(dests, m / dests);
    assert(0 <= m / dests <= m && 0 <= m % dests < dests) by (nonlinear_arith)
        requires
            0 <= m,
            0 < dests,
    ;
}

/// The next route is the next destination of the same payload, or the first
/// destination of the next payload once every destination has had its copy.
pub proof fn law_routes_visit_every_destination_in_turn(next: int, end: int, dests: int, k: int)
    requires
        0 <= next <= end <= usize::MAX,
        0 < dests <= usize::MAX,
        0 <= k,
        k + 1 < end - next,
    ensures
        ({
            let this = routes(next, end, dests)[k];
            let following = routes(next, end, dests)[k + 1];
            if this.dest + 1 < dests {
                following.payload == this.payload && following.dest == this.dest + 1
            } else {
                following.payload == this.payload + 1 && following.dest == 0
            }
        }),
{
    law_routes_number_the_messages(next, end, dests, k);
    law_routes_number_the_messages(next, end, dests, k + 1);
    let this = routes(next, end, dests)[k];
    let following = routes(next, end, dests)[k + 1];
    let (p, d, q, e) = (
        this.payload as int,
        this.dest as int,
        following.payload as int,
        following.dest as int,
    );
    assert(if d + 1 < dests {
        q == p && e == d + 1
    } else {
        q == p + 1 && e == 0
    }) by (nonlinear_arith)
        requires
            q * dests + e == p * dests + d + 1,
            0 <= d < dests,
            0 <= e < dests,
    ;
}

/// Resolved against the payloads and the destinations, the routes of any chunk
/// are the messages of the fan-out at the same place.
pub proof fn law_chunks_carry_the_fan_out(
    payloads: Seq<Seq<u8>>,
    dests: Seq<SocketAddr>,
    next: int,
    end: int,
    k: int,
)
    requires
        payloads.len() * dests.len() <= usize::MAX,
        0 <= next <= end <= payloads.len() * dests.len(),
        0 <= k < end - next,
    ensures
        ({
            let r = routes(next, end, dests.len() as int)[k];
            &&& r.payload < payloads.len()
            &&& r.dest < dests.len()
            &&& fan_out(payloads, dests)[next + k] == (
                dests[r.dest as int],
                payloads[r.payload as int],
            )
        }),
{
    let n = dests.len() as int;
    lemma_message_in_range(next + k, payloads.len() as int, n);
    assert(dests.len() <= usize::MAX && payloads.len() <= usize::MAX) by (nonlinear_arith)
        requires
            payloads.len() * dests.len() <= usize::MAX,
            0 <= next + k < payloads.len() * dests.len(),
    ;
    law_routes_number_the_messages(next, end, n, k);
    let r = routes(next, end, n)[k];
    assert(r.payload < payloads.len()) by (nonlinear_arith)
        requires
            r.payload * n + r.dest == next + k,
            next + k < payloads.len() * n,
            n > 0,
    ;
    law_fan_out_copies_every_payload_to_every_destination(
        payloads,
        dests,
        r.payload as int,
        r.dest as int,
    );
}

/// The room set aside is the smaller of one receive batch for every destination
/// and one full call.
pub proof fn law_capacity_is_one_batch_or_one_call(dests: int)
    requires
        0 <= dests,
    ensures
        spec_chunk_capacity(dests) <= 16 * dests,
        spec_chunk_capacity(dests) <= 1024,
        spec_chunk_capacity(dests) == 16 * dests || spec_chunk_capacity(dests) == 1024,
{
}

/// What a send call returned decides alone what it comes to: how many messages
/// were accepted, or one of the three numbers that are told apart. Two errors
/// with other numbers come to the same, and neither ends the sending.
pub proof fn law_send_errors_are_sorted_by_their_numbers(
    result: Result<usize, Option<i32>>,
    other: Result<usize, Option<i32>>,
    numbers: ErrorNumbers,
    r: ChunkOutcome,
    s: ChunkOutcome,
)
    requires
        call_ensures(chunk_outcome, (result, numbers), r),
        call_ensures(chunk_outcome, (other, numbers), s),
    ensures
        result matches Ok(n) ==> r == ChunkOutcome::Accepted(n),
        result is Err ==> (r is Interrupted || r is Unusable || r is Failed),
        r is Interrupted <==> (result matches Err(Some(code)) && code == numbers.eintr),
        r matches ChunkOutcome::Unusable { code } ==> result == Err::<usize, Option<i32>>(
            Some(code),
        ),
        r is Unusable <==> (result matches Err(Some(code)) && code != numbers.eintr && (code
            == numbers.ebadf || code == numbers.enotsock)),
        result matches Err(Some(a)) && other matches Err(Some(b)) && a != numbers.eintr && a
            != numbers.ebadf && a != numbers.enotsock && b != numbers.eintr && b != numbers.ebadf
            && b != numbers.enotsock ==> r == s && r is Failed,
{
}

/// A send covers every payload for every destination, from the first message
/// on, and is refused only where their number cannot be counted.
pub proof fn law_sends_cover_the_whole_fan_out(
    sender: &BatchedSender,
    payloads: usize,
    r: Result<SendLoop, SendError>,
)
    requires
        call_ensures(BatchedSender::send, (sender, payloads), r),
    ensures
        r is Ok <==> payloads * sender.dests@.len() <= usize::MAX,
        r matches Ok(send) ==> send.total == payloads * sender.dests@.len() && send.next == 0
            && send.report.sent == 0 && send.report.dropped == 0,
        r matches Err(e) ==> e is CountOverflow,
{
}

/// A call is due as long as messages are ahead. It takes them from the loop's
/// position on, as many as are left but never more than 1024.
pub proof fn law_calls_take_what_is_left(state: &SendLoop, r: Option<(usize, usize)>)
    requires
        call_ensures(SendLoop::chunk, (state,), r),
    ensures
        r is Some <==> state.next < state.total,
        r matches Some((next, end)) ==> next == state.next && end <= state.total && end - next
            <= 1024 && (end == state.total || end - next == 1024),
{
}

} // verus!
