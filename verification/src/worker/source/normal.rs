//! Normal receive: a UDP socket bound to the listen address.

use vstd::prelude::*;

use crate::addr::SocketAddr;
use crate::worker::packet::{contents, law_contents_are_senders_and_payloads, Datagram};
use crate::worker::source::batch::{
    arrivals, law_sender_keeps_ip_and_port, source_addr, spec_source_addr, Arrival,
    BatchedReceiver, PeerAddr, SourceAddrError,
};

verus! {

/// The sender and payload of each received datagram, in order, or the error of
/// the first one whose sender cannot be told.
pub open spec fn senders(packets: Seq<Arrival>) -> Result<
    Seq<(SocketAddr, Seq<u8>)>,
    SourceAddrError,
>
    decreases packets.len(),
{
    if packets.len() == 0 {
        Ok(Seq::empty())
    } else {
        match senders(packets.drop_last()) {
            Ok(before) => match spec_source_addr(packets.last().addr) {
                Ok(src) => Ok(before.push((src, packets.last().data))),
                Err(e) => Err(e),
            },
            Err(e) => Err(e),
        }
    }
}

/// The datagram came with an IPv4 or IPv6 address.
pub open spec fn names_sender(packet: Arrival) -> bool {
    packet.addr matches Some(peer) && (peer is V4 || peer is V6)
}

/// Receives on a UDP socket bound to the listen address.
#[derive(Debug)]
pub struct NormalSource {
    pub rx: BatchedReceiver,
}

impl NormalSource {
    /// A source with buffers of `buffer_size` bytes and nothing received yet.
    pub fn new(buffer_size: usize) -> (r: NormalSource)
        ensures
            r.rx.wf(),
            r.rx.fresh(buffer_size),
    {
        NormalSource { rx: BatchedReceiver::new(buffer_size) }
    }

    /// The next datagram of the current batch, with its sender. `None` asks for
    /// a refill.
    pub fn next_packet(&mut self) -> (r: Result<Option<Datagram<'_>>, SourceAddrError>)
        requires
            old(self).rx.wf(),
        ensures
            final(self).rx.wf(),
            final(self).rx.buffers() == old(self).rx.buffers(),
            final(self).rx.entries() == old(self).rx.entries(),
            ({
                let at = old(self).rx.position();
                if at >= old(self).rx.entries().len() {
                    &&& r matches Ok(None)
                    &&& final(self).rx.position() == at
                } else {
                    let packet = old(self).rx.batch()[at as int];
                    &&& final(self).rx.position() == at + 1
                    &&& match spec_source_addr(packet.addr) {
                        Ok(src) => r matches Ok(Some(d)) && d@ == (src, packet.data),
                        Err(e) => r matches Err(got) && got == e,
                    }
                }
            }),
    {
        match self.rx.next() {
            None => Ok(None),
            Some((addr, payload)) => match source_addr(addr) {
                Ok(src) => Ok(Some(Datagram { src, payload })),
                Err(e) => Err(e),
            },
        }
    }

    /// The datagrams of the current batch, with their senders.
    pub fn recv_batch(&self) -> (r: Result<Vec<Datagram<'_>>, SourceAddrError>)
        requires
            self.rx.wf(),
        ensures
            match senders(self.rx.batch()) {
                Ok(datagrams) => r matches Ok(batch) && contents(batch@) == datagrams,
                Err(e) => r matches Err(got) && got == e,
            },
    {
        let received = self.rx.received();
        let ghost packets = self.rx.batch();
        let mut batch: Vec<Datagram<'_>> = Vec::with_capacity(received.len());
        let mut i: usize = 0;
        assert(contents(batch@) =~= Seq::empty());
        while i < received.len()
            invariant
                packets == self.rx.batch(),
                arrivals(received@) == packets,
                i <= received@.len(),
                senders(packets.take(i as int)) == Ok::<_, SourceAddrError>(contents(batch@)),
            decreases received@.len() - i,
        {
            let packet = received[i];
            proof {
                assert(arrivals(received@)[i as int] == packet@);
                assert(packets.take(i + 1).drop_last() =~= packets.take(i as int));
                assert(packets.take(i + 1).last() == packet@);
            }
            match source_addr(packet.addr) {
                Ok(src) => {
                    let ghost before = batch@;
                    let datagram = Datagram { src, payload: packet.data };
                    batch.push(datagram);
                    assert(contents(batch@) =~= contents(before).push(datagram@));
                },
                Err(e) => {
                    proof {
                        lemma_first_error_stands(packets, i + 1);
                    }
                    return Err(e);
                },
            }
            i += 1;
        }
        assert(packets.take(received@.len() as int) =~= packets);
        Ok(batch)
    }
}

/// An error among the first `n` datagrams is the error of the whole batch.
proof fn lemma_first_error_stands(packets: Seq<Arrival>, n: int)
    requires
        0 <= n <= packets.len(),
        senders(packets.take(n)) is Err,
    ensures
        senders(packets) == senders(packets.take(n)),
    decreases packets.len(),
{
    if n == packets.len() {
        assert(packets.take(n) =~= packets);
    } else {
        assert(packets.drop_last().take(n) =~= packets.take(n));
        lemma_first_error_stands(packets.drop_last(), n);
    }
}

/// A batch whose senders can all be told is handed on whole: as many
/// datagrams, each with its bytes unchanged, in the order received.
pub proof fn law_batch_is_handed_on_whole(packets: Seq<Arrival>)
    requires
        senders(packets) is Ok,
    ensures
        senders(packets)->Ok_0.len() == packets.len(),
        forall|i: int|
            0 <= i < packets.len() ==> {
                &&& (#[trigger] senders(packets)->Ok_0[i]).1 == packets[i].data
                &&& Ok::<SocketAddr, SourceAddrError>(senders(packets)->Ok_0[i].0)
                    == spec_source_addr(packets[i].addr)
            },
    decreases packets.len(),
{
    if packets.len() > 0 {
        law_batch_is_handed_on_whole(packets.drop_last());
    }
}

/// A batch is refused exactly where some datagram came without an IP address,
/// and the first such datagram says why: no address at all, or one of another
/// family.
pub proof fn law_first_unknown_sender_refuses_the_batch(packets: Seq<Arrival>)
    ensures
        senders(packets) is Ok <==> forall|i: int|
            0 <= i < packets.len() ==> names_sender(#[trigger] packets[i]),
        senders(packets) matches Err(e) ==> exists|i: int|
            {
                &&& 0 <= i < packets.len()
                &&& !names_sender(#[trigger] packets[i])
                &&& e is Missing <==> packets[i].addr is None
                &&& forall|j: int| 0 <= j < i ==> names_sender(#[trigger] packets[j])
            },
    decreases packets.len(),
{
    if packets.len() > 0 {
        let before = packets.drop_last();
        let last = packets.len() - 1;
        law_first_unknown_sender_refuses_the_batch(before);
        law_sender_keeps_ip_and_port(packets.last().addr);
        assert(packets[last] == packets.last());
        assert(forall|i: int| 0 <= i < before.len() ==> #[trigger] before[i] == packets[i]);
        if senders(before) is Err {
            let i = choose|i: int|
                {
                    &&& 0 <= i < before.len()
                    &&& !names_sender(#[trigger] before[i])
                    &&& senders(before)->Err_0 is Missing <==> before[i].addr is None
                    &&& forall|j: int| 0 <= j < i ==> names_sender(#[trigger] before[j])
                };
            assert(!names_sender(packets[i]));
            assert forall|j: int| 0 <= j < i implies names_sender(#[trigger] packets[j]) by {
                assert(names_sender(before[j]));
            }
        } else {
            assert forall|j: int| 0 <= j < last implies names_sender(#[trigger] packets[j]) by {
                assert(names_sender(before[j]));
            }
            if senders(packets) is Err {
                assert(!names_sender(packets[last]));
            }
        }
    }
}

/// Normal receive tells each datagram's sender as the kernel reported it: same
/// IP, same port, and with it the datagram's own bytes.
pub proof fn law_received_datagrams_keep_their_sender(packets: Seq<Arrival>, i: int)
    requires
        senders(packets) is Ok,
        0 <= i < packets.len(),
    ensures
        senders(packets)->Ok_0.len() == packets.len(),
        senders(packets)->Ok_0[i].1 == packets[i].data,
        packets[i].addr matches Some(PeerAddr::V4(a)) ==> senders(packets)->Ok_0[i].0
            == SocketAddr::V4(a),
        packets[i].addr matches Some(PeerAddr::V6(a)) ==> (
        senders(packets)->Ok_0[i].0 matches SocketAddr::V6(s) && s.ip == a.ip && s.port == a.port),
{
    law_batch_is_handed_on_whole(packets);
    law_sender_keeps_ip_and_port(packets[i].addr);
}

/// What a bound socket received is handed on as it came: for each datagram its
/// bytes, and the IP and port that the kernel reported with it.
pub proof fn law_normal_receive_hands_on_what_came<'a>(
    source: &'a NormalSource,
    r: Result<Vec<Datagram<'a>>, SourceAddrError>,
    i: int,
)
    requires
        source.rx.wf(),
        call_ensures(NormalSource::recv_batch, (source,), r),
        r is Ok,
        0 <= i < source.rx.entries().len(),
    ensures
        ({
            let d = r->Ok_0@[i];
            let entry = source.rx.entries()[i];
            &&& r->Ok_0@.len() == source.rx.entries().len()
            &&& d.payload@ == source.rx.buffers()[i]@.take(entry.len as int)
            &&& entry.addr matches Some(PeerAddr::V4(a)) ==> d.src == SocketAddr::V4(a)
            &&& entry.addr matches Some(PeerAddr::V6(a)) ==> (d.src matches SocketAddr::V6(s)
                && s.ip == a.ip && s.port == a.port)
        }),
{
    let packets = source.rx.batch();
    law_received_datagrams_keep_their_sender(packets, i);
    assert(contents(r->Ok_0@) == senders(packets)->Ok_0);
    assert(contents(r->Ok_0@).len() == r->Ok_0@.len());
    law_contents_are_senders_and_payloads(r->Ok_0@, i);
}

} // verus!
