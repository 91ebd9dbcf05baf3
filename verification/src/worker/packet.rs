//! Borrowed datagrams and send outcomes shared by sources, sinks, and workers.

use vstd::prelude::*;

use crate::addr::SocketAddr;

verus! {

/// Maximum datagrams per receive call. Sinks chunk output messages separately.
pub const RECV_BATCH_SIZE: usize = 16;

/// A UDP payload and its original sender. The payload borrows a receive buffer.
#[derive(Clone, Copy, Debug)]
pub struct Datagram<'a> {
    pub src: SocketAddr,
    pub payload: &'a [u8],
}

impl<'a> View for Datagram<'a> {
    type V = (SocketAddr, Seq<u8>);

    open spec fn view(&self) -> (SocketAddr, Seq<u8>) {
        (self.src, self.payload@)
    }
}

/// The senders and payloads of a batch, in order.
pub open spec fn contents(batch: Seq<Datagram>) -> Seq<(SocketAddr, Seq<u8>)> {
    Seq::new(batch.len(), |i: int| batch[i]@)
}

/// The bytes of each payload, in order.
pub open spec fn bytes_of(payloads: Seq<&[u8]>) -> Seq<Seq<u8>> {
    Seq::new(payloads.len(), |i: int| payloads[i]@)
}

/// Output counts for a completed send operation, counting each destination
/// copy. A fatal send error returns no report, even if earlier messages were
/// sent.
#[derive(Clone, Copy, Debug, PartialEq, Eq, Structural)]
pub struct SendReport {
    /// Messages accepted by the local kernel; delivery is not confirmed.
    pub sent: usize,
    /// Output copies skipped during socket setup or sending.
    /// Excludes receive-side rejection and kernel queue drops.
    pub dropped: usize,
}

impl Default for SendReport {
    /// Nothing sent, nothing dropped.
    fn default() -> (r: SendReport)
        ensures
            r == (SendReport { sent: 0, dropped: 0 }),
    {
        SendReport { sent: 0, dropped: 0 }
    }
}

impl SendReport {
    /// The number of output copies the report accounts for.
    pub open spec fn copies(self) -> nat {
        (self.sent + self.dropped) as nat
    }

    /// Adds the counts of `other` to this report.
    pub fn merge(&mut self, other: SendReport)
        requires
            old(self).sent + other.sent <= usize::MAX,
            old(self).dropped + other.dropped <= usize::MAX,
        ensures
            final(self).sent == old(self).sent + other.sent,
            final(self).dropped == old(self).dropped + other.dropped,
    {
        self.sent += other.sent;
        self.dropped += other.dropped;
    }

    /// The counts worth a summary line: those of a report with dropped copies.
    pub fn summary(&self) -> (r: Option<(usize, usize)>)
        ensures
            r == (if self.dropped > 0 {
                Some((self.sent, self.dropped))
            } else {
                None
            }),
    {
        if self.dropped > 0 {
            Some((self.sent, self.dropped))
        } else {
            None
        }
    }
}

/// The contents of a batch are its datagrams, one for one and in order: each
/// with its own sender and all of its own bytes.
pub proof fn law_contents_are_senders_and_payloads(batch: Seq<Datagram>, i: int)
    requires
        0 <= i < batch.len(),
    ensures
        contents(batch).len() == batch.len(),
        contents(batch)[i].0 == batch[i].src,
        contents(batch)[i].1 == batch[i].payload@,
{
}

/// Payloads taken by their bytes stay as many, as long, and in order.
pub proof fn law_payloads_keep_their_bytes(payloads: Seq<&[u8]>, i: int)
    requires
        0 <= i < payloads.len(),
    ensures
        bytes_of(payloads).len() == payloads.len(),
        bytes_of(payloads)[i] == payloads[i]@,
{
}

/// Each copy is counted once, whether sent or dropped.
pub proof fn law_copies_are_sent_or_dropped(report: SendReport)
    ensures
        report.copies() == report.sent + report.dropped,
{
}

/// A report is worth a line exactly where copies were dropped, and the line
/// gives both of its counts.
pub proof fn law_drops_are_summarised(report: &SendReport, r: Option<(usize, usize)>)
    requires
        call_ensures(SendReport::summary, (report,), r),
    ensures
        r is None <==> report.dropped == 0,
        r matches Some((sent, dropped)) ==> sent == report.sent && dropped == report.dropped,
{
}

} // verus!
