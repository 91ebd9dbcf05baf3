//! Batched receive shared by the sources. One receive call fills many buffers,
//! amortizing the syscall over a batch; callers then drain them one datagram
//! at a time or all at once.

use std::ops::Range;

use vstd::prelude::*;

use crate::addr::{IpAddr, SocketAddr, SocketAddrV4, SocketAddrV6};
use crate::worker::packet::RECV_BATCH_SIZE;

verus! {

/// The address that the kernel reports with a received datagram.
#[derive(Clone, Copy, Debug, PartialEq, Eq, Structural)]
pub enum PeerAddr {
    V4(SocketAddrV4),
    V6(SocketAddrV6),
    /// A link-layer address, known by the index of its interface.
    Link { ifindex: usize },
    /// An address of any other family.
    Other,
}

/// Why a kernel-reported address is not the source of a UDP datagram.
#[derive(Clone, Copy, Debug, PartialEq, Eq, Structural)]
pub enum SourceAddrError {
    /// The kernel reported no address.
    Missing,
    /// The address is neither IPv4 nor IPv6.
    UnexpectedFamily,
}

/// What one datagram of a receive call left in its buffer.
#[derive(Clone, Copy, Debug, PartialEq, Eq, Structural)]
pub struct Filled {
    pub addr: Option<PeerAddr>,
    /// The bytes at the front of the buffer that were written.
    pub len: usize,
    /// The datagram was longer than the buffer.
    pub truncated: bool,
}

/// A received datagram, borrowing its buffer.
#[derive(Clone, Copy, Debug)]
pub struct Received<'a> {
    pub addr: Option<PeerAddr>,
    pub data: &'a [u8],
    pub truncated: bool,
}

/// A received datagram, as a value.
pub struct Arrival {
    pub addr: Option<PeerAddr>,
    pub data: Seq<u8>,
    pub truncated: bool,
}

impl<'a> View for Received<'a> {
    type V = Arrival;

    open spec fn view(&self) -> Arrival {
        Arrival { addr: self.addr, data: self.data@, truncated: self.truncated }
    }
}

/// The values of a series of received datagrams.
pub open spec fn arrivals(received: Seq<Received>) -> Seq<Arrival> {
    Seq::new(received.len(), |i: int| received[i]@)
}

/// Owns a batch of receive buffers and drains them one at a time; a receive
/// call refills them when the current batch is exhausted.
#[derive(Debug)]
pub struct BatchedReceiver {
    bufs: Vec<Vec<u8>>,
    // One entry per datagram in the current batch, parallel to `bufs`.
    filled: Vec<Filled>,
    cursor: usize,
}

impl BatchedReceiver {
    /// The receive buffers.
    pub closed spec fn buffers(self) -> Seq<Vec<u8>> {
        self.bufs@
    }

    /// The entries of the current batch.
    pub closed spec fn entries(self) -> Seq<Filled> {
        self.filled@
    }

    /// How many datagrams of the current batch have been handed out.
    pub closed spec fn position(self) -> nat {
        self.cursor as nat
    }

    /// Entries that fit the buffers they describe.
    pub open spec fn fits(entries: Seq<Filled>, buffers: Seq<Vec<u8>>) -> bool {
        &&& entries.len() <= buffers.len()
        &&& forall|i: int| 0 <= i < entries.len() ==> (#[trigger] entries[i]).len <= buffers[i]@.len()
    }

    /// Each entry of the current batch lies within its buffer, and no more
    /// datagrams were handed out than there are.
    pub open spec fn wf(self) -> bool {
        &&& BatchedReceiver::fits(self.entries(), self.buffers())
        &&& self.position() <= self.entries().len()
    }

    /// The datagram in buffer `i`.
    pub open spec fn arrival(self, i: int) -> Arrival {
        Arrival {
            addr: self.entries()[i].addr,
            data: self.buffers()[i]@.take(self.entries()[i].len as int),
            truncated: self.entries()[i].truncated,
        }
    }

    /// The datagrams of the current batch.
    pub open spec fn batch(self) -> Seq<Arrival> {
        Seq::new(self.entries().len(), |i: int| self.arrival(i))
    }

    /// A full set of zeroed buffers of `buffer_size` bytes, and nothing
    /// received yet.
    pub open spec fn fresh(self, buffer_size: usize) -> bool {
        &&& self.buffers().len() == RECV_BATCH_SIZE
        &&& forall|i: int|
            0 <= i < RECV_BATCH_SIZE ==> (#[trigger] self.buffers()[i])@ == Seq::new(
                buffer_size as nat,
                |k: int| 0u8,
            )
        &&& self.entries().len() == 0
        &&& self.position() == 0
    }

    /// A receiver with a full set of zeroed buffers of `buffer_size` bytes and
    /// nothing received yet.
    pub fn new(buffer_size: usize) -> (r: BatchedReceiver)
        ensures
            r.wf(),
            r.fresh(buffer_size),
    {
        let mut bufs: Vec<Vec<u8>> = Vec::with_capacity(RECV_BATCH_SIZE);
        let mut i: usize = 0;
        while i < RECV_BATCH_SIZE
            invariant
                i <= RECV_BATCH_SIZE,
                bufs@.len() == i,
                forall|j: int|
                    0 <= j < i ==> (#[trigger] bufs@[j])@ == Seq::new(
                        buffer_size as nat,
                        |k: int| 0u8,
                    ),
            decreases RECV_BATCH_SIZE - i,
        {
            let buf: Vec<u8> = vec![0u8; buffer_size];
            assert(buf@ =~= Seq::new(buffer_size as nat, |k: int| 0u8));
            bufs.push(buf);
            i += 1;
        }
        BatchedReceiver { bufs, filled: Vec::with_capacity(RECV_BATCH_SIZE), cursor: 0 }
    }

    /// Lends the buffers out to be filled by a receive call.
    pub fn buffers_mut(&mut self) -> (r: &mut Vec<Vec<u8>>)
        ensures
            r@ == old(self).buffers(),
            final(self).buffers() == final(r)@,
            final(self).entries() == old(self).entries(),
            final(self).position() == old(self).position(),
    {
        &mut self.bufs
    }

    /// Takes in what a receive call left in the buffers, as the new batch.
    pub fn refill(&mut self, results: Vec<Filled>)
        requires
            BatchedReceiver::fits(results@, old(self).buffers()),
        ensures
            final(self).wf(),
            final(self).buffers() == old(self).buffers(),
            final(self).entries() == results@,
            final(self).position() == 0,
    {
        self.filled = results;
        self.cursor = 0;
    }

    /// Returns the next datagram: the kernel-reported source address (for
    /// AF_PACKET the capture interface, where the caller parses the source
    /// from the packet) and the received bytes. `None` asks for a refill. The
    /// slice borrows an internal buffer and is valid until the next call.
    pub fn next(&mut self) -> (r: Option<(Option<PeerAddr>, &[u8])>)
        requires
            old(self).wf(),
        ensures
            final(self).wf(),
            final(self).buffers() == old(self).buffers(),
            final(self).entries() == old(self).entries(),
            r is None <==> old(self).position() >= old(self).entries().len(),
            r is None ==> final(self).position() == old(self).position(),
            r matches Some((addr, data)) ==> {
                &&& final(self).position() == old(self).position() + 1
                &&& addr == old(self).batch()[old(self).position() as int].addr
                &&& data@ == old(self).batch()[old(self).position() as int].data
            },
    {
        if self.cursor >= self.filled.len() {
            return None;
        }
        let idx: usize = self.cursor;
        let entry = self.filled[idx];
        self.cursor = idx + 1;
        Some((entry.addr, vstd::slice::slice_subrange(self.bufs[idx].as_slice(), 0, entry.len)))
    }

    /// Re-borrows a range of the buffer most recently handed out by
    /// [`next`](Self::next). Lets a caller drop the borrow from `next` (e.g. to
    /// loop on a parse failure) and then reacquire just the slice it wants.
    pub fn last_slice(&self, range: Range<usize>) -> (r: &[u8])
        requires
            self.wf(),
            self.position() > 0,
            range.start <= range.end <= self.buffers()[self.position() - 1]@.len(),
        ensures
            r@ == self.buffers()[self.position() - 1]@.subrange(
                range.start as int,
                range.end as int,
            ),
    {
        vstd::slice::slice_subrange(
            self.bufs[self.cursor - 1].as_slice(),
            range.start,
            range.end,
        )
    }

    /// The datagrams of the current batch, in the order received.
    pub fn received(&self) -> (r: Vec<Received<'_>>)
        requires
            self.wf(),
        ensures
            arrivals(r@) == self.batch(),
    {
        let mut out: Vec<Received<'_>> = Vec::with_capacity(self.filled.len());
        let mut i: usize = 0;
        while i < self.filled.len()
            invariant
                self.wf(),
                i <= self.filled@.len(),
                out@.len() == i,
                forall|j: int| 0 <= j < i ==> (#[trigger] out@[j])@ == self.arrival(j),
            decreases self.filled@.len() - i,
        {
            let entry = self.filled[i];
            out.push(
                Received {
                    addr: entry.addr,
                    data: vstd::slice::slice_subrange(self.bufs[i].as_slice(), 0, entry.len),
                    truncated: entry.truncated,
                },
            );
            i += 1;
        }
        assert(arrivals(out@) =~= self.batch());
        out
    }
}

/// The UDP source that a kernel-reported address names: its IP and port, with
/// no flow label and no scope.
pub open spec fn spec_source_addr(addr: Option<PeerAddr>) -> Result<SocketAddr, SourceAddrError> {
    match addr {
        None => Err(SourceAddrError::Missing),
        Some(PeerAddr::V4(a)) => Ok(SocketAddr::V4(a)),
        Some(PeerAddr::V6(a)) => Ok(
            SocketAddr::V6(SocketAddrV6 { ip: a.ip, port: a.port, flowinfo: 0, scope_id: 0 }),
        ),
        Some(_) => Err(SourceAddrError::UnexpectedFamily),
    }
}

/// Converts a kernel-reported source address into a [`SocketAddr`].
pub fn source_addr(addr: Option<PeerAddr>) -> (r: Result<SocketAddr, SourceAddrError>)
    ensures
        addr matches Some(PeerAddr::V4(a)) ==> (r matches Ok(src) && src.spec_ip() == IpAddr::V4(
            a.ip,
        ) && src.spec_port() == a.port),
        addr matches Some(PeerAddr::V6(a)) ==> (r matches Ok(src) && src.spec_ip() == IpAddr::V6(
            a.ip,
        ) && src.spec_port() == a.port),
        r == spec_source_addr(addr),
{
    match addr {
        None => Err(SourceAddrError::Missing),
        Some(PeerAddr::V4(a)) => Ok(SocketAddr::V4(a)),
        Some(PeerAddr::V6(a)) => Ok(
            SocketAddr::V6(SocketAddrV6 { ip: a.ip, port: a.port, flowinfo: 0, scope_id: 0 }),
        ),
        Some(_) => Err(SourceAddrError::UnexpectedFamily),
    }
}

/// A reported IP address names its sender: the source has that very IP and that
/// very port, and of IPv6 neither flow label nor scope. Without one there is no
/// source, and the error says whether any address was reported.
pub proof fn law_sender_keeps_ip_and_port(addr: Option<PeerAddr>)
    ensures
        addr matches Some(PeerAddr::V4(a)) ==> (spec_source_addr(addr) matches Ok(SocketAddr::V4(s))
            && s.ip.bits == a.ip.bits && s.port == a.port),
        addr matches Some(PeerAddr::V6(a)) ==> (spec_source_addr(addr) matches Ok(SocketAddr::V6(s))
            && s.ip.bits == a.ip.bits && s.port == a.port && s.flowinfo == 0 && s.scope_id == 0),
        spec_source_addr(addr) is Ok <==> (addr matches Some(peer) && (peer is V4 || peer is V6)),
        spec_source_addr(addr) matches Err(e) ==> (e is Missing <==> addr is None),
{
}

/// Two IPv4 senders are told apart wherever their IP or their port differs.
pub proof fn law_senders_are_told_apart(a: SocketAddrV4, b: SocketAddrV4)
    ensures
        spec_source_addr(Some(PeerAddr::V4(a))) == spec_source_addr(Some(PeerAddr::V4(b))) ==> a
            == b,
{
}

/// A received datagram is the front of its buffer, as far as it was written,
/// with the address and the truncation mark that came with it.
pub proof fn law_datagrams_are_what_was_written(rx: BatchedReceiver, i: int)
    requires
        rx.wf(),
        0 <= i < rx.entries().len(),
    ensures
        rx.batch().len() == rx.entries().len(),
        rx.batch()[i].addr == rx.entries()[i].addr,
        rx.batch()[i].truncated == rx.entries()[i].truncated,
        rx.batch()[i].data.len() == rx.entries()[i].len,
        forall|k: int|
            0 <= k < rx.entries()[i].len ==> #[trigger] rx.batch()[i].data[k]
                == rx.buffers()[i]@[k],
{
}

/// Received datagrams taken as values keep their number and order, and each its
/// address, its bytes, and its truncation mark.
pub proof fn law_arrivals_are_the_received(received: Seq<Received>, i: int)
    requires
        0 <= i < received.len(),
    ensures
        arrivals(received).len() == received.len(),
        arrivals(received)[i].addr == received[i].addr,
        arrivals(received)[i].data == received[i].data@,
        arrivals(received)[i].truncated == received[i].truncated,
{
}

/// A fresh receiver has sixteen buffers, each of the size asked for, and holds
/// no datagram.
pub proof fn law_fresh_receiver_has_its_buffers(rx: BatchedReceiver, buffer_size: usize, i: int)
    requires
        rx.fresh(buffer_size),
        0 <= i < 16,
    ensures
        rx.buffers().len() == 16,
        rx.buffers()[i]@.len() == buffer_size,
        rx.batch().len() == 0,
        rx.position() == 0,
{
}

/// Whatever address the kernel reports, the source told is that address: its IP
/// and its port over their whole ranges.
pub proof fn law_source_addr_tells_the_reported_sender(
    addr: Option<PeerAddr>,
    r: Result<SocketAddr, SourceAddrError>,
)
    requires
        call_ensures(source_addr, (addr,), r),
    ensures
        addr matches Some(PeerAddr::V4(a)) ==> (r matches Ok(SocketAddr::V4(s)) && s.ip.bits
            == a.ip.bits && s.port == a.port),
        addr matches Some(PeerAddr::V6(a)) ==> (r matches Ok(SocketAddr::V6(s)) && s.ip.bits
            == a.ip.bits && s.port == a.port && s.flowinfo == 0 && s.scope_id == 0),
        r is Ok <==> (addr matches Some(peer) && (peer is V4 || peer is V6)),
        r matches Err(e) ==> (e is Missing <==> addr is None),
{
}

/// The received datagrams are the fronts of their buffers, one for each entry
/// and in order, with the addresses and truncation marks of their entries.
pub proof fn law_received_tells_what_was_written<'a>(
    rx: &'a BatchedReceiver,
    r: Vec<Received<'a>>,
    i: int,
)
    requires
        rx.wf(),
        call_ensures(BatchedReceiver::received, (rx,), r),
        0 <= i < rx.entries().len(),
    ensures
        r@.len() == rx.entries().len(),
        r@[i].addr == rx.entries()[i].addr,
        r@[i].truncated == rx.entries()[i].truncated,
        r@[i].data@ == rx.buffers()[i]@.take(rx.entries()[i].len as int),
{
    assert(arrivals(r@).len() == r@.len());
    assert(arrivals(r@)[i] == rx.batch()[i]);
    law_arrivals_are_the_received(r@, i);
}

} // verus!
