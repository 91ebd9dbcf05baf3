//! Preserves sender IPs and ports with UDP sockets bound to the original
//! sources.

use std::collections::HashMap;

use vstd::prelude::*;

use crate::addr::SocketAddr;
use crate::socket::{make_spoof_socket, spoof_options, SocketOption, SocketPlan};
use crate::worker::packet::{bytes_of, contents, Datagram, SendReport};
use crate::worker::sink::batch::{BatchedSender, SendError, SendLoop};

verus! {

/// The payloads that one sender contributed to a batch.
#[derive(Debug)]
pub struct SourceGroup<'a> {
    pub src: SocketAddr,
    pub payloads: Vec<&'a [u8]>,
}

/// The senders of a batch, each once, in the order of their first datagrams.
pub open spec fn sources(batch: Seq<(SocketAddr, Seq<u8>)>) -> Seq<SocketAddr>
    decreases batch.len(),
{
    if batch.len() == 0 {
        Seq::empty()
    } else {
        let before = sources(batch.drop_last());
        if before.contains(batch.last().0) {
            before
        } else {
            before.push(batch.last().0)
        }
    }
}

/// The payloads of one sender, in batch order.
pub open spec fn payloads_from(batch: Seq<(SocketAddr, Seq<u8>)>, src: SocketAddr) -> Seq<Seq<u8>>
    decreases batch.len(),
{
    if batch.len() == 0 {
        Seq::empty()
    } else {
        let before = payloads_from(batch.drop_last(), src);
        if batch.last().0 == src {
            before.push(batch.last().1)
        } else {
            before
        }
    }
}

/// The groups hold a batch: one group per sender, in the order of their first
/// datagrams, each with that sender's payloads in batch order.
pub open spec fn grouped(groups: Seq<SourceGroup>, batch: Seq<(SocketAddr, Seq<u8>)>) -> bool {
    &&& groups.len() == sources(batch).len()
    &&& forall|i: int|
        0 <= i < groups.len() ==> {
            &&& (#[trigger] groups[i]).src == sources(batch)[i]
            &&& bytes_of(groups[i].payloads@) == payloads_from(batch, groups[i].src)
        }
}

/// The position of the group of `src`, if it has one.
fn find_group(groups: &Vec<SourceGroup<'_>>, src: SocketAddr) -> (r: Option<usize>)
    ensures
        match r {
            Some(k) => k < groups@.len() && groups@[k as int].src == src,
            None => forall|j: int| 0 <= j < groups@.len() ==> (#[trigger] groups@[j]).src != src,
        },
{
    let mut i: usize = 0;
    while i < groups.len()
        invariant
            i <= groups@.len(),
            forall|j: int| 0 <= j < i ==> (#[trigger] groups@[j]).src != src,
        decreases groups@.len() - i,
    {
        if groups[i].src == src {
            return Some(i);
        }
        i += 1;
    }
    None
}

/// Each source's packets go out its own socket, so group a batch by source.
pub fn group_by_source<'a>(batch: &[Datagram<'a>]) -> (r: Vec<SourceGroup<'a>>)
    ensures
        grouped(r@, contents(batch@)),
{
    let ghost all = contents(batch@);
    let mut groups: Vec<SourceGroup<'a>> = Vec::new();
    let mut i: usize = 0;
    while i < batch.len()
        invariant
            all == contents(batch@),
            i <= batch@.len(),
            grouped(groups@, all.take(i as int)),
        decreases batch@.len() - i,
    {
        let d = batch[i];
        let ghost seen = all.take(i as int);
        let ghost before = groups@;
        proof {
            assert(all.take(i + 1).drop_last() =~= seen);
            assert(all.take(i + 1).last() == d@);
            law_sources_are_distinct(seen);
        }
        match find_group(&groups, d.src) {
            Some(k) => {
                groups[k].payloads.push(d.payload);
                proof {
                    assert(bytes_of(groups@[k as int].payloads@) =~= bytes_of(
                        before[k as int].payloads@,
                    ).push(d.payload@));
                    assert(sources(seen)[k as int] == d.src);
                }
            },
            None => {
                let mut payloads: Vec<&'a [u8]> = Vec::new();
                payloads.push(d.payload);
                proof {
                    if sources(seen).contains(d.src) {
                        let j = sources(seen).index_of(d.src);
                        assert(before[j].src == sources(seen)[j]);
                    }
                    lemma_absent_source(seen, d.src);
                    assert(bytes_of(payloads@) =~= payloads_from(seen, d.src).push(d.payload@));
                }
                groups.push(SourceGroup { src: d.src, payloads });
            },
        }
        assert forall|j: int| 0 <= j < groups@.len() implies {
            &&& (#[trigger] groups@[j]).src == sources(all.take(i + 1))[j]
            &&& bytes_of(groups@[j].payloads@) == payloads_from(all.take(i + 1), groups@[j].src)
        } by {
            if j < before.len() {
                assert(before[j].src == sources(seen)[j]);
            }
        }
        i += 1;
    }
    assert(all.take(batch@.len() as int) =~= all);
    groups
}

/// A sender without a group has contributed no payload.
proof fn lemma_absent_source(batch: Seq<(SocketAddr, Seq<u8>)>, src: SocketAddr)
    ensures
        sources(batch).contains(src) || payloads_from(batch, src).len() == 0,
    decreases batch.len(),
{
    if batch.len() > 0 {
        lemma_absent_source(batch.drop_last(), src);
        let before = sources(batch.drop_last());
        let last = batch.last().0;
        if !before.contains(last) {
            assert(before.push(last)[before.len() as int] == last);
        }
        if before.contains(src) {
            let j = before.index_of(src);
            assert(sources(batch)[j] == src);
        }
    }
}

/// A sender contributed no more payloads than the batch has datagrams.
pub(crate) proof fn lemma_group_is_no_larger_than_batch(
    batch: Seq<(SocketAddr, Seq<u8>)>,
    src: SocketAddr,
)
    ensures
        payloads_from(batch, src).len() <= batch.len(),
    decreases batch.len(),
{
    if batch.len() > 0 {
        lemma_group_is_no_larger_than_batch(batch.drop_last(), src);
    }
}

/// No sender has two groups.
pub proof fn law_sources_are_distinct(batch: Seq<(SocketAddr, Seq<u8>)>)
    ensures
        sources(batch).no_duplicates(),
    decreases batch.len(),
{
    if batch.len() > 0 {
        law_sources_are_distinct(batch.drop_last());
    }
}

/// The number of payloads that `senders` contributed to a batch.
pub open spec fn payload_count(
    batch: Seq<(SocketAddr, Seq<u8>)>,
    senders: Seq<SocketAddr>,
) -> nat
    decreases senders.len(),
{
    if senders.len() == 0 {
        0
    } else {
        payload_count(batch, senders.drop_last()) + payloads_from(batch, senders.last()).len()
    }
}

/// One more datagram adds one payload to its sender's count and none to that
/// of others.
proof fn lemma_count_grows(
    batch: Seq<(SocketAddr, Seq<u8>)>,
    datagram: (SocketAddr, Seq<u8>),
    senders: Seq<SocketAddr>,
)
    requires
        senders.no_duplicates(),
    ensures
        payload_count(batch.push(datagram), senders) == payload_count(batch, senders) + (
        if senders.contains(datagram.0) {
            1nat
        } else {
            0nat
        }),
    decreases senders.len(),
{
    assert(batch.push(datagram).drop_last() =~= batch);
    if senders.len() > 0 {
        let fewer = senders.drop_last();
        lemma_count_grows(batch, datagram, fewer);
        if senders.contains(datagram.0) {
            let j = senders.index_of(datagram.0);
            if j < fewer.len() {
                assert(fewer[j] == datagram.0);
            } else {
                assert(!fewer.contains(datagram.0));
            }
        } else {
            assert(senders[senders.len() - 1] != datagram.0);
            assert forall|j: int| 0 <= j < fewer.len() implies fewer[j] != datagram.0 by {
                assert(senders[j] != datagram.0);
            }
        }
    }
}

/// Grouping loses and adds nothing: the groups together hold as many payloads
/// as the batch has datagrams.
pub proof fn law_groups_hold_the_whole_batch(batch: Seq<(SocketAddr, Seq<u8>)>)
    ensures
        payload_count(batch, sources(batch)) == batch.len(),
    decreases batch.len(),
{
    if batch.len() > 0 {
        let before = batch.drop_last();
        let last = batch.last();
        law_groups_hold_the_whole_batch(before);
        law_sources_are_distinct(before);
        assert(before.push(last) =~= batch);
        lemma_count_grows(before, last, sources(before));
        if !sources(before).contains(last.0) {
            lemma_absent_source(before, last.0);
            assert(sources(batch).drop_last() =~= sources(before));
        }
    }
}

/// Every datagram of a batch is in the group of its own sender.
pub proof fn law_each_payload_keeps_its_sender(batch: Seq<(SocketAddr, Seq<u8>)>, i: int)
    requires
        0 <= i < batch.len(),
    ensures
        sources(batch).contains(batch[i].0),
        payloads_from(batch, batch[i].0).contains(batch[i].1),
    decreases batch.len(),
{
    let before = batch.drop_last();
    let src = batch[i].0;
    if i < before.len() {
        law_each_payload_keeps_its_sender(before, i);
        let j = sources(before).index_of(src);
        assert(sources(batch)[j] == src);
        let k = payloads_from(before, src).index_of(batch[i].1);
        assert(payloads_from(batch, src)[k] == batch[i].1);
    } else {
        if !sources(before).contains(src) {
            assert(sources(batch)[sources(before).len() as int] == src);
        }
        assert(payloads_from(batch, src)[payloads_from(before, src).len() as int] == batch[i].1);
    }
}

/// The position of `src` among the sources that have a socket.
pub open spec fn position(bound: Seq<SocketAddr>, src: SocketAddr) -> Option<int> {
    if bound.contains(src) {
        Some(bound.index_of(src))
    } else {
        None
    }
}

/// A request for the socket of a source, with whether a socket could be made
/// for it at that time, should one be needed.
pub struct Request {
    pub src: SocketAddr,
    pub made: bool,
}

/// The position of the socket that a request gets, if it gets one.
pub open spec fn answer(bound: Seq<SocketAddr>, request: Request) -> Option<int> {
    if bound.contains(request.src) {
        position(bound, request.src)
    } else if request.made {
        Some(bound.len() as int)
    } else {
        None
    }
}

/// The sources that have a socket after a request.
pub open spec fn after_request(bound: Seq<SocketAddr>, request: Request) -> Seq<SocketAddr> {
    if bound.contains(request.src) || !request.made {
        bound
    } else {
        bound.push(request.src)
    }
}

/// The sources that have a socket after a series of requests.
pub open spec fn after_requests(bound: Seq<SocketAddr>, requests: Seq<Request>) -> Seq<SocketAddr>
    decreases requests.len(),
{
    if requests.len() == 0 {
        bound
    } else {
        after_request(after_requests(bound, requests.drop_last()), requests.last())
    }
}

/// The part of an address that picks a table: its IP.
pub open spec fn ip_key(src: SocketAddr) -> u128 {
    match src {
        SocketAddr::V4(a) => a.ip.bits as u128,
        SocketAddr::V6(a) => a.ip.bits,
    }
}

/// The part of an address that tells it from others of the same IP number:
/// its family, port, flow label, and scope.
pub open spec fn rest_key(src: SocketAddr) -> int {
    match src {
        SocketAddr::V4(a) => a.port as int,
        SocketAddr::V6(a) => a.port + 0x1_0000 + a.scope_id * 0x2_0000 + a.flowinfo
            * 0x2_0000_0000_0000,
    }
}

/// The two parts together tell any two addresses apart.
proof fn lemma_keys_identify(a: SocketAddr, b: SocketAddr)
    ensures
        0 <= rest_key(a) <= u128::MAX,
        ip_key(a) == ip_key(b) && rest_key(a) == rest_key(b) ==> a == b,
{
}

/// The sources for which a transparent socket exists, each known by the
/// position of its socket in the order of their making. A socket is bound to
/// its source and retained for the lifetime of the sink.
pub struct SocketCache {
    // Keyed by the two parts of an address.
    slots: HashMap<u128, HashMap<u128, usize>>,
    count: usize,
    bound: Ghost<Seq<SocketAddr>>,
}

impl SocketCache {
    /// The sources of the sockets, in the order of their making.
    pub closed spec fn view(&self) -> Seq<SocketAddr> {
        self.bound@
    }

    /// The tables hold position `i` for `src`.
    closed spec fn holds(self, src: SocketAddr, i: int) -> bool {
        &&& self.slots@.contains_key(ip_key(src))
        &&& self.slots@[ip_key(src)]@.contains_key(rest_key(src) as u128)
        &&& self.slots@[ip_key(src)]@[rest_key(src) as u128] == i
    }

    /// The tables know exactly the sources bound, each once.
    pub closed spec fn wf(self) -> bool {
        &&& self.count == self@.len()
        &&& self@.no_duplicates()
        &&& forall|src: SocketAddr, i: int| #[trigger]
            self.holds(src, i) <==> 0 <= i < self@.len() && self@[i] == src
    }

    /// A cache without sockets.
    pub fn new() -> (r: SocketCache)
        ensures
            r.wf(),
            r@.len() == 0,
    {
        SocketCache { slots: HashMap::new(), count: 0, bound: Ghost(Seq::empty()) }
    }

    /// The number of sockets.
    pub fn len(&self) -> (r: usize)
        requires
            self.wf(),
        ensures
            r == self@.len(),
    {
        self.count
    }

    /// The position of the socket bound to `src`, if there is one.
    pub fn get(&self, src: SocketAddr) -> (r: Option<usize>)
        requires
            self.wf(),
        ensures
            r is Some <==> self@.contains(src),
            r matches Some(i) ==> i < self@.len() && self@[i as int] == src,
            r matches Some(i) ==> position(self@, src) == Some(i as int),
    {
        let (ip, rest) = keys(src);
        let r: Option<usize> = match self.slots.get(&ip) {
            Some(table) => match table.get(&rest) {
                Some(i) => Some(*i),
                None => None,
            },
            None => None,
        };
        proof {
            if let Some(i) = r {
                assert(self.holds(src, i as int));
                assert(self@[i as int] == src);
            } else if self@.contains(src) {
                let i = self@.index_of(src);
                assert(self.holds(src, i));
            }
        }
        r
    }

    /// Enters a new socket, bound to `src`, and returns its position.
    pub fn insert(&mut self, src: SocketAddr) -> (r: usize)
        requires
            old(self).wf(),
            !old(self)@.contains(src),
            old(self)@.len() < usize::MAX,
        ensures
            final(self).wf(),
            final(self)@ == old(self)@.push(src),
            r == old(self)@.len(),
    {
        let (ip, rest) = keys(src);
        let slot: usize = self.count;
        let mut table: HashMap<u128, usize> = match self.slots.remove(&ip) {
            Some(table) => table,
            None => HashMap::new(),
        };
        table.insert(rest, slot);
        self.slots.insert(ip, table);
        self.count = slot + 1;
        self.bound = Ghost(self.bound@.push(src));
        proof {
            assert forall|other: SocketAddr, i: int| #[trigger] self.holds(other, i) <==> 0 <= i
                < self@.len() && self@[i] == other by {
                lemma_keys_identify(other, src);
                if other == src {
                    if 0 <= i < old(self)@.len() && old(self)@[i] == src {
                        assert(old(self)@.contains(src));
                    }
                } else {
                    assert(self.holds(other, i) == old(self).holds(other, i));
                }
            }
        }
        slot
    }
}

/// The two parts of an address that the cache is keyed by.
fn keys(src: SocketAddr) -> (r: (u128, u128))
    ensures
        r.0 == ip_key(src),
        r.1 == rest_key(src),
{
    match src {
        SocketAddr::V4(a) => (a.ip.bits as u128, a.port as u128),
        SocketAddr::V6(a) => (
            a.ip.bits,
            a.port as u128 + 0x1_0000 + a.scope_id as u128 * 0x2_0000 + a.flowinfo as u128
                * 0x2_0000_0000_0000,
        ),
    }
}

impl SocketCache {
    /// No source has two sockets, and no socket two sources.
    pub proof fn law_each_source_has_one_socket(&self)
        requires
            self.wf(),
        ensures
            self@.no_duplicates(),
    {
    }
}

/// Requests keep every socket where it is: no source gains a second one, and a
/// position once given out names the same source ever after.
pub proof fn law_sockets_keep_their_positions(bound: Seq<SocketAddr>, requests: Seq<Request>)
    requires
        bound.no_duplicates(),
    ensures
        after_requests(bound, requests).no_duplicates(),
        bound.len() <= after_requests(bound, requests).len(),
        forall|i: int|
            0 <= i < bound.len() ==> #[trigger] after_requests(bound, requests)[i] == bound[i],
    decreases requests.len(),
{
    if requests.len() > 0 {
        law_sockets_keep_their_positions(bound, requests.drop_last());
    }
}

/// A source once cached is found at the same position after any further
/// requests, and no further socket is made for it.
pub proof fn law_source_keeps_its_socket(
    bound: Seq<SocketAddr>,
    first: Request,
    between: Seq<Request>,
    again: Request,
)
    requires
        bound.no_duplicates(),
        answer(bound, first) is Some,
        again.src == first.src,
    ensures
        ({
            let later = after_requests(after_request(bound, first), between);
            &&& answer(later, again) == answer(bound, first)
            &&& after_request(later, again) == later
        }),
{
    let once = after_request(bound, first);
    law_sockets_keep_their_positions(bound, seq![first]);
    assert(seq![first].drop_last() =~= Seq::<Request>::empty());
    assert(after_requests(bound, Seq::empty()) == bound);
    assert(after_requests(bound, seq![first]) == once);
    law_sockets_keep_their_positions(once, between);
    let later = after_requests(once, between);
    let i = answer(bound, first).unwrap();
    assert(once[i] == first.src);
    assert(later[i] == first.src);
    assert(later.contains(first.src));
    assert(later.index_of(first.src) == i);
}

/// A source whose socket could not be made is not cached: it stays without one
/// until a request for it succeeds, so each request until then tries anew.
pub proof fn law_failed_source_is_tried_again(
    bound: Seq<SocketAddr>,
    first: Request,
    between: Seq<Request>,
)
    requires
        answer(bound, first) is None,
        forall|i: int|
            0 <= i < between.len() ==> (#[trigger] between[i]).src != first.src || !between[i].made,
    ensures
        after_request(bound, first) == bound,
        !after_requests(bound, between).contains(first.src),
    decreases between.len(),
{
    if between.len() > 0 {
        let fewer = between.drop_last();
        assert forall|i: int| 0 <= i < fewer.len() implies (#[trigger] fewer[i]).src != first.src
            || !fewer[i].made by {
            assert(fewer[i] == between[i]);
        }
        law_failed_source_is_tried_again(bound, first, fewer);
        assert(between[between.len() - 1] == between.last());
    }
}

/// Where the socket of a source comes from.
#[derive(Debug)]
pub enum SocketStep {
    /// The socket at this position is bound to the source.
    Cached(usize),
    /// There is none yet; this is how to make it.
    Make(SocketPlan),
}

/// What a batch needs next.
#[derive(Debug)]
pub enum SpoofStep {
    /// Nothing: this is the report.
    Done(SendReport),
    /// A socket for this source, made in this way.
    Make { src: SocketAddr, plan: SocketPlan },
    /// The payloads of the group that is due, sent from the socket at position
    /// `slot`.
    Send { slot: usize, send: SendLoop },
}

/// What became of one group of payloads.
#[derive(Clone, Copy, Debug, PartialEq, Eq, Structural)]
pub enum GroupOutcome {
    /// No socket could be set up for the source.
    NoSocket,
    /// The group was sent, with this report.
    Sent(SendReport),
}

/// What the outcome of a group of `payloads` payloads adds to the report of a
/// batch sent to `dests` destinations.
pub open spec fn group_counts(outcome: GroupOutcome, payloads: nat, dests: nat) -> (nat, nat) {
    match outcome {
        GroupOutcome::NoSocket => (0, payloads * dests),
        GroupOutcome::Sent(report) => (report.sent as nat, report.dropped as nat),
    }
}

/// Progress of a batch that goes out group by group.
#[derive(Debug)]
pub struct SpoofBatch<'a> {
    pub groups: Vec<SourceGroup<'a>>,
    pub next: usize,
    pub dests: usize,
    pub report: SendReport,
}

impl<'a> SpoofBatch<'a> {
    /// The position among the groups is valid.
    pub open spec fn wf(self) -> bool {
        self.next <= self.groups@.len()
    }

    /// The groups' numbers of payloads.
    pub open spec fn sizes(self) -> Seq<nat> {
        Seq::new(self.groups@.len(), |i: int| self.groups@[i].payloads@.len())
    }

    /// The batch has come to where these outcomes of its first groups bring it.
    pub open spec fn reached(self, outcomes: Seq<GroupOutcome>) -> bool {
        let counts = batch_counts(outcomes, self.sizes(), self.dests as nat);
        &&& self.next == outcomes.len() <= self.groups@.len()
        &&& self.report.sent == counts.0
        &&& self.report.dropped == counts.1
    }

    /// There is room in the report for the outcome of the group that is due.
    pub open spec fn has_room_for(self, outcome: GroupOutcome) -> bool {
        let counts = group_counts(outcome, self.sizes()[self.next as int], self.dests as nat);
        &&& self.report.sent + counts.0 <= usize::MAX
        &&& self.report.dropped + counts.1 <= usize::MAX
    }

    /// `later` is this batch once the group that is due came to `outcome`.
    pub open spec fn advances_to(self, later: SpoofBatch<'a>, outcome: GroupOutcome) -> bool {
        let counts = group_counts(outcome, self.sizes()[self.next as int], self.dests as nat);
        &&& later.wf()
        &&& later.groups == self.groups
        &&& later.dests == self.dests
        &&& later.next == self.next + 1
        &&& later.report.sent == self.report.sent + counts.0
        &&& later.report.dropped == self.report.dropped + counts.1
    }

    /// The group that is due, or `None` once every group went out or was
    /// dropped.
    pub fn current(&self) -> (r: Option<&SourceGroup<'a>>)
        requires
            self.wf(),
        ensures
            r is None <==> self.next == self.groups@.len(),
            r matches Some(group) ==> *group == self.groups@[self.next as int],
    {
        if self.next < self.groups.len() {
            Some(&self.groups[self.next])
        } else {
            None
        }
    }

    /// Whether there is room in the report for the outcome of the group that is
    /// due.
    pub fn has_room(&self, outcome: GroupOutcome) -> (r: bool)
        requires
            self.wf(),
            self.next < self.groups@.len(),
        ensures
            r == self.has_room_for(outcome),
    {
        let payloads: usize = self.groups[self.next].payloads.len();
        assert(self.sizes()[self.next as int] == payloads);
        match outcome {
            GroupOutcome::NoSocket => match payloads.checked_mul(self.dests) {
                Some(copies) => copies <= usize::MAX - self.report.dropped,
                None => false,
            },
            GroupOutcome::Sent(report) => {
                report.sent <= usize::MAX - self.report.sent && report.dropped <= usize::MAX
                    - self.report.dropped
            },
        }
    }

    /// Takes in what became of the group that is due. Without a socket, every
    /// copy of every payload of the group is dropped.
    pub fn record(&mut self, outcome: GroupOutcome)
        requires
            old(self).wf(),
            old(self).next < old(self).groups@.len(),
            old(self).has_room_for(outcome),
        ensures
            old(self).advances_to(*final(self), outcome),
            final(self).groups == old(self).groups,
            final(self).dests == old(self).dests,
            final(self).next == old(self).next + 1,
            outcome is NoSocket ==> {
                &&& final(self).report.sent == old(self).report.sent
                &&& final(self).report.dropped == old(self).report.dropped
                    + old(self).groups@[old(self).next as int].payloads@.len() * old(self).dests
            },
            outcome matches GroupOutcome::Sent(report) ==> {
                &&& final(self).report.sent == old(self).report.sent + report.sent
                &&& final(self).report.dropped == old(self).report.dropped + report.dropped
            },
            forall|outcomes: Seq<GroupOutcome>| #[trigger]
                old(self).reached(outcomes) ==> final(self).reached(outcomes.push(outcome)),
    {
        match outcome {
            GroupOutcome::NoSocket => {
                let payloads: usize = self.groups[self.next].payloads.len();
                let copies: usize = payloads * self.dests;
                self.report.dropped += copies;
            },
            GroupOutcome::Sent(report) => {
                self.report.merge(report);
            },
        }
        assert(self.groups.len() == self.groups@.len());
        self.next += 1;
        proof {
            assert forall|outcomes: Seq<GroupOutcome>| #[trigger]
                old(self).reached(outcomes) implies self.reached(outcomes.push(outcome)) by {
                assert(outcomes.push(outcome).drop_last() =~= outcomes);
                assert(self.sizes() =~= old(self).sizes());
            }
        }
    }
}

/// A source that a batch has passed, sent or dropped, is not due again in that
/// batch: a socket that could not be made is not asked for a second time.
pub proof fn law_each_source_is_due_once(
    state: SpoofBatch,
    later: SpoofBatch,
    batch: Seq<(SocketAddr, Seq<u8>)>,
)
    requires
        grouped(state.groups@, batch),
        later.groups == state.groups,
        state.next < later.next < later.groups@.len(),
    ensures
        later.groups@[later.next as int].src != state.groups@[state.next as int].src,
{
    law_sources_are_distinct(batch);
    assert(state.groups@[later.next as int].src == sources(batch)[later.next as int]);
    assert(state.groups@[state.next as int].src == sources(batch)[state.next as int]);
}

/// A cache of transparent sockets sharing one destination set.
pub struct SpoofSink {
    pub cache: SocketCache,
    pub sender: BatchedSender,
    pub ttl: u8,
}

impl SpoofSink {
    /// A sink to `destinations` without sockets.
    pub fn new(destinations: &[SocketAddr], ttl: u8) -> (r: SpoofSink)
        ensures
            r.cache.wf(),
            r.cache@.len() == 0,
            r.sender.dests@ == destinations@,
            r.ttl == ttl,
    {
        SpoofSink { cache: SocketCache::new(), sender: BatchedSender::new(destinations), ttl }
    }

    /// Finds the socket for `src`, or says how to make it.
    pub fn socket_for(&self, src: SocketAddr) -> (r: SocketStep)
        requires
            self.cache.wf(),
        ensures
            self.cache@.contains(src) ==> (r matches SocketStep::Cached(i) && i < self.cache@.len()
                && self.cache@[i as int] == src && position(self.cache@, src) == Some(i as int)),
            !self.cache@.contains(src) ==> (r matches SocketStep::Make(plan) && plan.is(
                src is V6,
                spoof_options(src is V6, self.ttl),
                Some(src),
            ) && plan.bind == Some(src)),
    {
        match self.cache.get(src) {
            Some(i) => SocketStep::Cached(i),
            None => SocketStep::Make(make_spoof_socket(src, self.ttl)),
        }
    }

    /// What a batch needs next: first a socket for the source of the group that
    /// is due, then the sending of that group, and the report in the end.
    pub fn next_step(&self, batch: &SpoofBatch<'_>) -> (r: Result<SpoofStep, SendError>)
        requires
            self.cache.wf(),
            batch.wf(),
        ensures
            batch.next == batch.groups@.len() ==> (r matches Ok(SpoofStep::Done(report)) && report
                == batch.report),
            batch.next < batch.groups@.len() ==> {
                let group = batch.groups@[batch.next as int];
                let copies = group.payloads@.len() * self.sender.dests@.len();
                if !self.cache@.contains(group.src) {
                    r matches Ok(SpoofStep::Make { src, plan }) && src == group.src && plan.is(
                        src is V6,
                        spoof_options(src is V6, self.ttl),
                        Some(src),
                    ) && plan.bind == Some(group.src)
                } else if copies > usize::MAX {
                    r matches Err(e) && e == SendError::CountOverflow
                } else {
                    r matches Ok(SpoofStep::Send { slot, send }) && position(self.cache@, group.src)
                        == Some(slot as int) && send == SendLoop::start(copies as usize)
                        && slot < self.cache@.len() && self.cache@[slot as int] == group.src
                        && send.total == copies && send.next == 0
                }
            },
    {
        match batch.current() {
            None => Ok(SpoofStep::Done(batch.report)),
            Some(group) => match self.socket_for(group.src) {
                SocketStep::Make(plan) => Ok(SpoofStep::Make { src: group.src, plan }),
                SocketStep::Cached(slot) => match self.sender.send(group.payloads.len()) {
                    Ok(send) => Ok(SpoofStep::Send { slot, send }),
                    Err(e) => Err(e),
                },
            },
        }
    }

    /// Takes in whether the socket for `src` could be made, and returns its
    /// position if so. A source whose socket failed is tried again with its
    /// next batch.
    pub fn socket_made(&mut self, src: SocketAddr, made: bool) -> (r: Option<usize>)
        requires
            old(self).cache.wf(),
            !old(self).cache@.contains(src),
            old(self).cache@.len() < usize::MAX,
        ensures
            final(self).cache.wf(),
            final(self).sender == old(self).sender,
            final(self).ttl == old(self).ttl,
            final(self).cache@ == after_request(old(self).cache@, Request { src, made }),
            match answer(old(self).cache@, Request { src, made }) {
                Some(i) => r matches Some(got) && got == i,
                None => r is None,
            },
            made ==> final(self).cache@ == old(self).cache@.push(src),
            !made ==> final(self).cache@ == old(self).cache@,
            made ==> (r matches Some(slot) && slot == old(self).cache@.len()),
            !made ==> r is None,
    {
        if made {
            Some(self.cache.insert(src))
        } else {
            None
        }
    }

    /// Takes in whether the socket that the group due asked for could be made,
    /// and returns its position if so. Without it every copy of the group is
    /// dropped and the batch goes on to the next group.
    pub fn socket_tried(&mut self, batch: &mut SpoofBatch<'_>, made: bool) -> (r: Option<usize>)
        requires
            old(self).cache.wf(),
            old(batch).wf(),
            old(batch).next < old(batch).groups@.len(),
            !old(self).cache@.contains(old(batch).groups@[old(batch).next as int].src),
            old(self).cache@.len() < usize::MAX,
            !made ==> old(batch).has_room_for(GroupOutcome::NoSocket),
        ensures
            final(self).cache.wf(),
            final(self).sender == old(self).sender,
            final(self).ttl == old(self).ttl,
            made ==> {
                &&& r matches Some(slot) && slot == old(self).cache@.len()
                &&& final(self).cache@ == old(self).cache@.push(
                    old(batch).groups@[old(batch).next as int].src,
                )
                &&& final(self).cache@.contains(old(batch).groups@[old(batch).next as int].src)
                &&& *final(batch) == *old(batch)
            },
            !made ==> {
                &&& r is None
                &&& final(self).cache@ == old(self).cache@
                &&& old(batch).advances_to(*final(batch), GroupOutcome::NoSocket)
                &&& forall|outcomes: Seq<GroupOutcome>| #[trigger]
                    old(batch).reached(outcomes) ==> final(batch).reached(
                        outcomes.push(GroupOutcome::NoSocket),
                    )
            },
    {
        let src = batch.groups[batch.next].src;
        let slot = self.socket_made(src, made);
        if made {
            assert(self.cache@.last() == src);
        } else {
            batch.record(GroupOutcome::NoSocket);
        }
        slot
    }

    /// Starts a batch: its groups by source, none of them sent yet.
    pub fn send_batch<'a>(&self, batch: &[Datagram<'a>]) -> (r: SpoofBatch<'a>)
        ensures
            r.wf(),
            grouped(r.groups@, contents(batch@)),
            r.next == 0,
            r.dests == self.sender.dests@.len(),
            r.report == (SendReport { sent: 0, dropped: 0 }),
            r.reached(Seq::empty()),
    {
        SpoofBatch {
            groups: group_by_source(batch),
            next: 0,
            dests: self.sender.destination_count(),
            report: SendReport { sent: 0, dropped: 0 },
        }
    }
}

/// The counts that the outcomes of the first groups add up to, where `sizes`
/// are the groups' numbers of payloads.
pub open spec fn batch_counts(
    outcomes: Seq<GroupOutcome>,
    sizes: Seq<nat>,
    dests: nat,
) -> (nat, nat)
    decreases outcomes.len(),
{
    if outcomes.len() == 0 {
        (0, 0)
    } else {
        let before = batch_counts(outcomes.drop_last(), sizes, dests);
        let last = group_counts(outcomes.last(), sizes[outcomes.len() - 1], dests);
        (before.0 + last.0, before.1 + last.1)
    }
}

/// Each group that was sent is accounted for copy by copy, as the report of a
/// finished send is.
pub open spec fn each_group_accounted_for(
    outcomes: Seq<GroupOutcome>,
    sizes: Seq<nat>,
    dests: nat,
) -> bool {
    forall|i: int|
        0 <= i < outcomes.len() ==> ((#[trigger] outcomes[i]) matches GroupOutcome::Sent(report)
            ==> report.copies() == sizes[i] * dests)
}

/// The groups of a batch have as many payloads as their senders contributed.
proof fn lemma_group_size(state: SpoofBatch, batch: Seq<(SocketAddr, Seq<u8>)>, i: int)
    requires
        grouped(state.groups@, batch),
        0 <= i < state.groups@.len(),
    ensures
        state.sizes()[i] == payloads_from(batch, sources(batch)[i]).len(),
{
    assert(bytes_of(state.groups@[i].payloads@).len() == state.groups@[i].payloads@.len());
}

/// The counts after the first groups cover every copy of those groups.
proof fn lemma_counts_cover_groups(
    state: SpoofBatch,
    batch: Seq<(SocketAddr, Seq<u8>)>,
    outcomes: Seq<GroupOutcome>,
)
    requires
        grouped(state.groups@, batch),
        outcomes.len() <= state.groups@.len(),
        each_group_accounted_for(outcomes, state.sizes(), state.dests as nat),
    ensures
        ({
            let counts = batch_counts(outcomes, state.sizes(), state.dests as nat);
            counts.0 + counts.1 == payload_count(
                batch,
                sources(batch).take(outcomes.len() as int),
            ) * state.dests
        }),
    decreases outcomes.len(),
{
    let sizes = state.sizes();
    let dests = state.dests as nat;
    let n = outcomes.len();
    if n > 0 {
        let before = outcomes.drop_last();
        assert forall|i: int| 0 <= i < before.len() implies ((
        #[trigger] before[i]) matches GroupOutcome::Sent(report) ==> report.copies() == sizes[i]
            * dests) by {
            assert(before[i] == outcomes[i]);
        }
        lemma_counts_cover_groups(state, batch, before);
        let senders = sources(batch).take(n as int);
        assert(senders.drop_last() =~= sources(batch).take(n - 1));
        let fewer = payload_count(batch, senders.drop_last());
        let size = payloads_from(batch, senders.last()).len();
        lemma_group_size(state, batch, n - 1);
        let last = group_counts(outcomes.last(), size, dests);
        assert(outcomes[n - 1] == outcomes.last());
        assert(last.0 + last.1 == size * dests);
        assert(payload_count(batch, senders) == fewer + size);
        assert((fewer + size) * dests == fewer * dests + size * dests) by (nonlinear_arith);
    } else {
        assert(0 * dests == 0);
    }
}

/// The first senders contributed no more than all of them.
proof fn lemma_prefix_counts_less(
    batch: Seq<(SocketAddr, Seq<u8>)>,
    senders: Seq<SocketAddr>,
    n: int,
)
    requires
        0 <= n <= senders.len(),
    ensures
        payload_count(batch, senders.take(n)) <= payload_count(batch, senders),
    decreases senders.len(),
{
    if n == senders.len() {
        assert(senders.take(n) =~= senders);
    } else {
        lemma_prefix_counts_less(batch, senders.drop_last(), n);
        assert(senders.drop_last().take(n) =~= senders.take(n));
    }
}

/// A batch is reported copy by copy: once every group went out or was dropped,
/// sent plus dropped is the number of datagrams times the number of
/// destinations.
pub proof fn law_batch_report_covers_every_copy(
    state: SpoofBatch,
    batch: Seq<(SocketAddr, Seq<u8>)>,
    outcomes: Seq<GroupOutcome>,
)
    requires
        grouped(state.groups@, batch),
        state.reached(outcomes),
        state.next == state.groups@.len(),
        each_group_accounted_for(outcomes, state.sizes(), state.dests as nat),
    ensures
        state.report.copies() == batch.len() * state.dests,
{
    lemma_counts_cover_groups(state, batch, outcomes);
    law_groups_hold_the_whole_batch(batch);
    assert(sources(batch).take(outcomes.len() as int) =~= sources(batch));
}

/// The counts of a batch never overflow where the number of its copies fits:
/// at every point there is room for the outcome of the group that is due.
pub proof fn law_report_has_room(
    state: SpoofBatch,
    batch: Seq<(SocketAddr, Seq<u8>)>,
    outcomes: Seq<GroupOutcome>,
    outcome: GroupOutcome,
)
    requires
        batch.len() * state.dests <= usize::MAX,
        grouped(state.groups@, batch),
        state.reached(outcomes),
        state.next < state.groups@.len(),
        each_group_accounted_for(outcomes.push(outcome), state.sizes(), state.dests as nat),
    ensures
        state.has_room_for(outcome),
{
    let dests = state.dests as nat;
    let all = outcomes.push(outcome);
    assert(all.drop_last() =~= outcomes);
    lemma_counts_cover_groups(state, batch, all);
    lemma_prefix_counts_less(batch, sources(batch), all.len() as int);
    law_groups_hold_the_whole_batch(batch);
    let some = payload_count(batch, sources(batch).take(all.len() as int));
    assert(some * dests <= batch.len() * dests) by (nonlinear_arith)
        requires
            some <= batch.len(),
    ;
}

/// What one sender contributed is what is left of the batch when every other
/// sender's datagrams are taken out: the same payloads, in the same order.
pub proof fn law_payloads_of_a_sender_keep_their_order(
    batch: Seq<(SocketAddr, Seq<u8>)>,
    src: SocketAddr,
)
    ensures
        payloads_from(batch, src) == batch.filter(
            |d: (SocketAddr, Seq<u8>)| d.0 == src,
        ).map_values(|d: (SocketAddr, Seq<u8>)| d.1),
    decreases batch.len(),
{
    reveal(Seq::filter);
    let own = |d: (SocketAddr, Seq<u8>)| d.0 == src;
    let bytes = |d: (SocketAddr, Seq<u8>)| d.1;
    if batch.len() > 0 {
        let before = batch.drop_last();
        law_payloads_of_a_sender_keep_their_order(before, src);
        if own(batch.last()) {
            assert(before.filter(own).push(batch.last()).map_values(bytes) =~= before.filter(
                own,
            ).map_values(bytes).push(batch.last().1));
        }
    } else {
        assert(batch.filter(own).map_values(bytes) =~= Seq::<Seq<u8>>::empty());
    }
}

/// Every group has a sender that is in the batch.
proof fn lemma_group_has_a_sender(batch: Seq<(SocketAddr, Seq<u8>)>, p: int) -> (i: int)
    requires
        0 <= p < sources(batch).len(),
    ensures
        0 <= i < batch.len(),
        batch[i].0 == sources(batch)[p],
    decreases batch.len(),
{
    let before = batch.drop_last();
    if p < sources(before).len() {
        let i = lemma_group_has_a_sender(before, p);
        assert(before[i] == batch[i]);
        i
    } else {
        batch.len() - 1
    }
}

/// A sender has a group exactly where a datagram of the batch is from it.
pub proof fn law_groups_are_those_of_the_senders(
    batch: Seq<(SocketAddr, Seq<u8>)>,
    src: SocketAddr,
)
    ensures
        sources(batch).contains(src) <==> exists|i: int|
            0 <= i < batch.len() && (#[trigger] batch[i]).0 == src,
{
    if sources(batch).contains(src) {
        let i = lemma_group_has_a_sender(batch, sources(batch).index_of(src));
        assert(batch[i].0 == src);
    }
    if exists|i: int| 0 <= i < batch.len() && (#[trigger] batch[i]).0 == src {
        let i = choose|i: int| 0 <= i < batch.len() && (#[trigger] batch[i]).0 == src;
        law_each_payload_keeps_its_sender(batch, i);
    }
}

/// Groups come in the order of their senders' first datagrams: before any
/// datagram of a later group's sender stands one of every earlier group's.
pub proof fn law_groups_come_in_order_of_arrival(
    batch: Seq<(SocketAddr, Seq<u8>)>,
    p: int,
    q: int,
    j: int,
)
    requires
        0 <= p < q < sources(batch).len(),
        0 <= j < batch.len(),
        batch[j].0 == sources(batch)[q],
    ensures
        exists|i: int| 0 <= i < j && (#[trigger] batch[i]).0 == sources(batch)[p],
    decreases batch.len(),
{
    let before = batch.drop_last();
    law_sources_are_distinct(batch);
    if j < before.len() {
        assert(before[j] == batch[j]);
        law_each_payload_keeps_its_sender(before, j);
        let at = sources(before).index_of(batch[j].0);
        assert(sources(batch)[at] == batch[j].0);
        assert(at == q);
        law_groups_come_in_order_of_arrival(before, p, q, j);
        let i = choose|i: int| 0 <= i < j && (#[trigger] before[i]).0 == sources(before)[p];
        assert(batch[i].0 == sources(batch)[p]);
    } else {
        assert(p < sources(before).len());
        let i = lemma_group_has_a_sender(before, p);
        assert(batch[i].0 == sources(batch)[p]);
    }
}

/// The groups of a batch split it by sender: group `g` holds, byte for byte and
/// in order, exactly the payloads that came from its sender, at least one, and
/// no other group has that sender.
pub proof fn law_groups_split_the_batch(
    groups: Seq<SourceGroup>,
    batch: Seq<(SocketAddr, Seq<u8>)>,
    g: int,
    h: int,
)
    requires
        grouped(groups, batch),
        0 <= g < groups.len(),
        0 <= h < groups.len(),
    ensures
        groups[g].src == groups[h].src ==> g == h,
        groups[g].payloads@.len() > 0,
        ({
            let own = batch.filter(|d: (SocketAddr, Seq<u8>)| d.0 == groups[g].src);
            &&& groups[g].payloads@.len() == own.len()
            &&& forall|k: int| 0 <= k < own.len() ==> (#[trigger] groups[g].payloads@[k])@
                == own[k].1
        }),
{
    let src = groups[g].src;
    let own = batch.filter(|d: (SocketAddr, Seq<u8>)| d.0 == src);
    law_sources_are_distinct(batch);
    assert(groups[g].src == sources(batch)[g]);
    assert(groups[h].src == sources(batch)[h]);
    law_payloads_of_a_sender_keep_their_order(batch, src);
    let i = lemma_group_has_a_sender(batch, g);
    law_each_payload_keeps_its_sender(batch, i);
    let bytes = bytes_of(groups[g].payloads@);
    assert(bytes.len() == groups[g].payloads@.len());
    assert forall|k: int| 0 <= k < own.len() implies (#[trigger] groups[g].payloads@[k])@
        == own[k].1 by {
        assert(bytes[k] == groups[g].payloads@[k]@);
    }
}

/// Every datagram of a batch is in some group, the one of its sender.
pub proof fn law_every_datagram_has_a_group(
    groups: Seq<SourceGroup>,
    batch: Seq<(SocketAddr, Seq<u8>)>,
    i: int,
)
    requires
        grouped(groups, batch),
        0 <= i < batch.len(),
    ensures
        exists|g: int| 0 <= g < groups.len() && (#[trigger] groups[g]).src == batch[i].0,
{
    law_each_payload_keeps_its_sender(batch, i);
    let g = sources(batch).index_of(batch[i].0);
    assert(groups[g].src == batch[i].0);
}

/// A request is granted where its source has a socket or one can be made for
/// it, and what it is granted is a socket of that very source. Only a new
/// socket changes the cache, and it is added behind the others.
pub proof fn law_requests_get_the_socket_of_their_source(bound: Seq<SocketAddr>, request: Request)
    ensures
        answer(bound, request) is Some <==> bound.contains(request.src) || request.made,
        answer(bound, request) matches Some(i) ==> {
            &&& 0 <= i < after_request(bound, request).len()
            &&& after_request(bound, request)[i] == request.src
            &&& i < bound.len() <==> bound.contains(request.src)
        },
        after_request(bound, request).len() == bound.len() + (if request.made && !bound.contains(
            request.src,
        ) {
            1int
        } else {
            0
        }),
        forall|i: int|
            0 <= i < bound.len() ==> #[trigger] after_request(bound, request)[i] == bound[i],
        after_requests(bound, Seq::empty()) == bound,
{
}

/// The position of a source is a place where it stands.
pub proof fn law_position_is_where_the_source_stands(bound: Seq<SocketAddr>, src: SocketAddr)
    ensures
        position(bound, src) is Some <==> bound.contains(src),
        position(bound, src) matches Some(i) ==> 0 <= i < bound.len() && bound[i] == src,
{
}

/// A group without a socket counts as dropped, every copy of it, and not one
/// copy as sent; a group that went out counts as its own report says.
pub proof fn law_missing_socket_drops_the_whole_group(
    report: SendReport,
    payloads: nat,
    dests: nat,
)
    ensures
        group_counts(GroupOutcome::NoSocket, payloads, dests).0 == 0,
        group_counts(GroupOutcome::NoSocket, payloads, dests).1 == payloads * dests,
        group_counts(GroupOutcome::Sent(report), payloads, dests).0 == report.sent,
        group_counts(GroupOutcome::Sent(report), payloads, dests).1 == report.dropped,
{
}

/// A batch's counts start at nothing, and one more group adds what its report
/// says or, without a socket, all of its copies as dropped.
pub proof fn law_counts_of_groups_add_up(
    outcomes: Seq<GroupOutcome>,
    outcome: GroupOutcome,
    sizes: Seq<nat>,
    dests: nat,
)
    requires
        outcomes.len() < sizes.len(),
    ensures
        batch_counts(Seq::empty(), sizes, dests) == (0nat, 0nat),
        ({
            let before = batch_counts(outcomes, sizes, dests);
            let after = batch_counts(outcomes.push(outcome), sizes, dests);
            match outcome {
                GroupOutcome::NoSocket => after.0 == before.0 && after.1 == before.1
                    + sizes[outcomes.len() as int] * dests,
                GroupOutcome::Sent(report) => after.0 == before.0 + report.sent && after.1
                    == before.1 + report.dropped,
            }
        }),
{
    assert(outcomes.push(outcome).drop_last() =~= outcomes);
}

/// A batch that advances does so by one group: the groups and the number of
/// destinations stay, and the report grows by what became of the group that was
/// due, for which there is room exactly where the sums fit.
pub proof fn law_batches_advance_by_one_group(
    state: SpoofBatch,
    later: SpoofBatch,
    outcome: GroupOutcome,
)
    requires
        state.next < state.groups@.len(),
    ensures
        ({
            let lost = state.groups@[state.next as int].payloads@.len() * state.dests;
            let (sent, dropped) = match outcome {
                GroupOutcome::NoSocket => (0int, lost as int),
                GroupOutcome::Sent(report) => (report.sent as int, report.dropped as int),
            };
            &&& state.has_room_for(outcome) <==> state.report.sent + sent <= usize::MAX
                && state.report.dropped + dropped <= usize::MAX
            &&& state.advances_to(later, outcome) ==> {
                &&& later.groups == state.groups
                &&& later.dests == state.dests
                &&& later.next == state.next + 1
                &&& later.report.sent == state.report.sent + sent
                &&& later.report.dropped == state.report.dropped + dropped
            }
        }),
{
}

/// A batch is sent in groups that split it by sender: every payload of a group
/// is one that the group's own sender sent, in order, and none is left out.
pub proof fn law_spoofed_sends_are_grouped_by_sender<'a>(
    sink: &SpoofSink,
    batch: &[Datagram<'a>],
    r: SpoofBatch<'a>,
    g: int,
)
    requires
        call_ensures(SpoofSink::send_batch, (sink, batch), r),
        0 <= g < r.groups@.len(),
    ensures
        r.next == 0,
        r.dests == sink.sender.dests@.len(),
        r.report.sent == 0 && r.report.dropped == 0,
        r.groups@[g].payloads@.len() > 0,
        ({
            let own = contents(batch@).filter(
                |d: (SocketAddr, Seq<u8>)| d.0 == r.groups@[g].src,
            );
            &&& r.groups@[g].payloads@.len() == own.len()
            &&& forall|k: int|
                0 <= k < own.len() ==> (#[trigger] r.groups@[g].payloads@[k])@ == own[k].1
        }),
{
    law_groups_split_the_batch(r.groups@, contents(batch@), g, g);
}

/// A group goes out of a socket of its own sender: one that the cache holds for
/// that very address, or a new one bound to it that sends with the sink's TTL.
pub proof fn law_groups_go_out_of_their_senders_socket(
    sink: &SpoofSink,
    batch: &SpoofBatch<'_>,
    r: Result<SpoofStep, SendError>,
)
    requires
        sink.cache.wf(),
        batch.next < batch.groups@.len(),
        call_ensures(SpoofSink::next_step, (sink, batch), r),
    ensures
        ({
            let group = batch.groups@[batch.next as int];
            &&& !(r matches Ok(SpoofStep::Done(_)))
            &&& r matches Ok(SpoofStep::Send { slot, send }) ==> {
                &&& slot < sink.cache@.len()
                &&& sink.cache@[slot as int] == group.src
                &&& send.total == group.payloads@.len() * sink.sender.dests@.len()
                &&& send.next == 0
            }
            &&& r matches Ok(SpoofStep::Make { src, plan }) ==> {
                &&& !sink.cache@.contains(group.src)
                &&& src == group.src
                &&& plan.bind == Some(group.src)
                &&& plan.is_ipv6 == (group.src is V6)
                &&& plan.options@.len() == 5
                &&& group.src is V6 ==> (plan.options@[4] matches SocketOption::UnicastHopsV6(n)
                    && n == sink.ttl)
                &&& group.src is V4 ==> (plan.options@[4] matches SocketOption::TtlV4(n) && n
                    == sink.ttl)
            }
            &&& r is Err <==> sink.cache@.contains(group.src) && group.payloads@.len()
                * sink.sender.dests@.len() > usize::MAX
        }),
{
}

} // verus!
