//! Sends through one UDP socket per worker, using a local source address.

use vstd::prelude::*;

use crate::addr::SocketAddr;
use crate::worker::packet::{bytes_of, law_payloads_keep_their_bytes, Datagram};
use crate::worker::sink::batch::{BatchedSender, SendError, SendLoop};

verus! {

/// The payloads of a batch, in order.
pub fn payloads<'a>(batch: &[Datagram<'a>]) -> (r: Vec<&'a [u8]>)
    ensures
        bytes_of(r@) == Seq::new(batch@.len(), |i: int| batch@[i].payload@),
{
    let mut out: Vec<&'a [u8]> = Vec::with_capacity(batch.len());
    let mut i: usize = 0;
    while i < batch.len()
        invariant
            i <= batch@.len(),
            out@.len() == i,
            forall|j: int| 0 <= j < i ==> (#[trigger] out@[j])@ == batch@[j].payload@,
        decreases batch@.len() - i,
    {
        out.push(batch[i].payload);
        i += 1;
    }
    assert(bytes_of(out@) =~= Seq::new(batch@.len(), |i: int| batch@[i].payload@));
    out
}

/// The destination set used for normal forwarding.
#[derive(Debug)]
pub struct NormalSink {
    pub sender: BatchedSender,
}

impl NormalSink {
    /// A sink to `destinations`.
    pub fn new(destinations: &[SocketAddr]) -> (r: NormalSink)
        ensures
            r.sender.dests@ == destinations@,
    {
        NormalSink { sender: BatchedSender::new(destinations) }
    }

    /// Starts sending every payload of `batch` to every destination: the
    /// payloads, and the loop over their messages.
    pub fn send_batch<'a>(&self, batch: &[Datagram<'a>]) -> (r: Result<
        (Vec<&'a [u8]>, SendLoop),
        SendError,
    >)
        ensures
            r is Err <==> batch@.len() * self.sender.dests@.len() > usize::MAX,
            r matches Err(e) ==> e == SendError::CountOverflow,
            r matches Ok((payloads, send)) ==> {
                &&& bytes_of(payloads@) == Seq::new(batch@.len(), |i: int| batch@[i].payload@)
                &&& send == SendLoop::start((batch@.len() * self.sender.dests@.len()) as usize)
            },
    {
        match self.sender.send(batch.len()) {
            Ok(send) => Ok((payloads(batch), send)),
            Err(e) => Err(e),
        }
    }
}

/// A batch is sent as its payloads, each whole and in order, over as many
/// messages as there are datagrams times destinations.
pub proof fn law_normal_sends_carry_the_whole_batch<'a>(
    sink: &NormalSink,
    batch: &[Datagram<'a>],
    r: Result<(Vec<&'a [u8]>, SendLoop), SendError>,
    i: int,
)
    requires
        call_ensures(NormalSink::send_batch, (sink, batch), r),
        0 <= i < batch@.len(),
    ensures
        r is Ok <==> batch@.len() * sink.sender.dests@.len() <= usize::MAX,
        r matches Ok((payloads, send)) ==> {
            &&& payloads@.len() == batch@.len()
            &&& payloads@[i]@ == batch@[i].payload@
            &&& send.total == batch@.len() * sink.sender.dests@.len()
            &&& send.next == 0
            &&& send.report.sent == 0 && send.report.dropped == 0
        },
{
    if let Ok((payloads, send)) = r {
        assert(bytes_of(payloads@).len() == batch@.len());
        law_payloads_keep_their_bytes(payloads@, i);
    }
}

} // verus!
