//! Loopback network stack: sent packets are queued and received in the
//! order they were sent. Sending and receiving are gated by the weight of
//! the running context.
use vstd::prelude::*;
use crate::ts::{TsContext, refused, enforce_min_weight, current_weight};

verus! {

/// Least weight (in thousandths) that may send a packet.
pub const MIN_WEIGHT_NET_SEND: u32 = 700;
/// Least weight (in thousandths) that may receive a packet.
pub const MIN_WEIGHT_NET_RECV: u32 = 650;
/// Longest packet, in bytes.
pub const MAX_PACKET_LEN: usize = 2048;
/// Most packets the loopback queue holds.
pub const LOOPBACK_QUEUE_CAP: usize = 8;

/// The loopback stack: packets sent and not yet received, oldest first.
pub struct NetStack {
    rx_queue: std::collections::VecDeque<Vec<u8>>,
}

impl NetStack {
    /// The queued packets, oldest first.
    pub closed spec fn packets(&self) -> Seq<Seq<u8>> {
        self.rx_queue@.map_values(|p: Vec<u8>| p@)
    }

    #[verifier::type_invariant]
    pub closed spec fn inv(&self) -> bool {
        &&& self.rx_queue@.len() <= LOOPBACK_QUEUE_CAP
        &&& forall|i: int| 0 <= i < self.rx_queue@.len() ==> #[trigger] self.rx_queue@[i]@.len() <= MAX_PACKET_LEN
    }

    /// The queue never holds more than `LOOPBACK_QUEUE_CAP` packets, nor a
    /// packet longer than `MAX_PACKET_LEN`.
    pub proof fn lemma_bounds(&self)
        requires
            self.inv(),
        ensures
            self.packets().len() <= LOOPBACK_QUEUE_CAP,
            forall|i: int| 0 <= i < self.packets().len() ==> #[trigger] self.packets()[i].len() <= MAX_PACKET_LEN,
    {
    }

    pub fn new() -> (r: Self)
        ensures
            r.packets() == Seq::<Seq<u8>>::empty(),
    {
        let r = NetStack { rx_queue: std::collections::VecDeque::new() };
        assert(r.packets() =~= Seq::<Seq<u8>>::empty());
        r
    }

    /// Queues a copy of `data` when the running context weighs at least
    /// `MIN_WEIGHT_NET_SEND`, the packet is at most `MAX_PACKET_LEN` bytes and
    /// the queue has room; answers the number of bytes sent.
    pub fn send_packet(&mut self, ctx: &mut TsContext, data: &[u8]) -> (r: Result<usize, ()>)
        ensures
            r is Ok <==> current_weight(*old(ctx)) >= MIN_WEIGHT_NET_SEND && data@.len() <= MAX_PACKET_LEN
                && old(self).packets().len() < LOOPBACK_QUEUE_CAP,
            r matches Ok(n) ==> n == data@.len() && final(self).packets() == old(self).packets().push(data@),
            r is Err ==> final(self).packets() == old(self).packets(),
            final(ctx).registry == old(ctx).registry,
            final(ctx).current == old(ctx).current,
            current_weight(*old(ctx)) >= MIN_WEIGHT_NET_SEND ==> final(ctx).violations == old(ctx).violations,
            current_weight(*old(ctx)) < MIN_WEIGHT_NET_SEND ==> refused(*old(ctx), *final(ctx), "net send"@, MIN_WEIGHT_NET_SEND),
    {
        proof {
            use_type_invariant(&*self);
        }
        if enforce_min_weight(ctx, "net send", MIN_WEIGHT_NET_SEND).is_err() {
            return Err(());
        }
        if data.len() > MAX_PACKET_LEN {
            return Err(());
        }
        if self.rx_queue.len() >= LOOPBACK_QUEUE_CAP {
            return Err(());
        }
        let packet = vstd::slice::slice_to_vec(data);
        let mut q = std::collections::VecDeque::new();
        std::mem::swap(&mut q, &mut self.rx_queue);
        q.push_back(packet);
        self.rx_queue = q;
        proof {
            assert(self.packets() =~= old(self).packets().push(data@));
        }
        Ok(data.len())
    }

    /// The oldest queued packet, taken off the queue, when the running context
    /// weighs at least `MIN_WEIGHT_NET_RECV` and a packet is queued.
    pub fn recv_packet(&mut self, ctx: &mut TsContext) -> (r: Option<Vec<u8>>)
        ensures
            r is Some <==> current_weight(*old(ctx)) >= MIN_WEIGHT_NET_RECV && old(self).packets().len() > 0,
            r matches Some(p) ==> p@ == old(self).packets()[0] && final(self).packets() == old(self).packets().drop_first(),
            r is None ==> final(self).packets() == old(self).packets(),
            final(ctx).registry == old(ctx).registry,
            final(ctx).current == old(ctx).current,
            current_weight(*old(ctx)) >= MIN_WEIGHT_NET_RECV ==> final(ctx).violations == old(ctx).violations,
            current_weight(*old(ctx)) < MIN_WEIGHT_NET_RECV ==> refused(*old(ctx), *final(ctx), "net recv"@, MIN_WEIGHT_NET_RECV),
    {
        proof {
            use_type_invariant(&*self);
        }
        if enforce_min_weight(ctx, "net recv", MIN_WEIGHT_NET_RECV).is_err() {
            return None;
        }
        let mut q = std::collections::VecDeque::new();
        std::mem::swap(&mut q, &mut self.rx_queue);
        let p = q.pop_front();
        self.rx_queue = q;
        proof {
            if p is Some {
                assert(self.packets() =~= old(self).packets().drop_first());
            }
        }
        p
    }

    /// Nothing to do for the loopback stack.
    pub fn poll(&mut self)
        ensures
            final(self).packets() == old(self).packets(),
    {
    }
}

} // verus!

verus! {

/// The loopback is first in, first out: a packet queued behind others comes
/// out after them, and into an empty queue it is the next one out.
pub proof fn lemma_loopback_fifo(q: Seq<Seq<u8>>, p: Seq<u8>)
    ensures
        q.len() == 0 ==> q.push(p)[0] == p && q.push(p).drop_first() == q,
        q.len() > 0 ==> q.push(p)[0] == q[0] && q.push(p).drop_first() == q.drop_first().push(p),
{
    if q.len() == 0 {
        assert(q.push(p).drop_first() =~= q);
    } else {
        assert(q.push(p).drop_first() =~= q.drop_first().push(p));
    }
}

/// The queue after the packets `ps` are sent onto `q`, one after another.
pub open spec fn after_sends(q: Seq<Seq<u8>>, ps: Seq<Seq<u8>>) -> Seq<Seq<u8>>
    decreases ps.len(),
{
    if ps.len() == 0 {
        q
    } else {
        after_sends(q.push(ps[0]), ps.drop_first())
    }
}

/// The packets that `k` receives from `q` hand out, in order.
pub open spec fn receives(q: Seq<Seq<u8>>, k: nat) -> Seq<Seq<u8>>
    decreases k,
{
    if k == 0 || q.len() == 0 {
        Seq::empty()
    } else {
        seq![q[0]] + receives(q.drop_first(), (k - 1) as nat)
    }
}

/// The queue after `k` receives from `q`.
pub open spec fn after_receives(q: Seq<Seq<u8>>, k: nat) -> Seq<Seq<u8>>
    decreases k,
{
    if k == 0 || q.len() == 0 {
        q
    } else {
        after_receives(q.drop_first(), (k - 1) as nat)
    }
}

proof fn lemma_after_sends(q: Seq<Seq<u8>>, ps: Seq<Seq<u8>>)
    ensures
        after_sends(q, ps) == q + ps,
    decreases ps.len(),
{
    if ps.len() > 0 {
        lemma_after_sends(q.push(ps[0]), ps.drop_first());
        assert(q.push(ps[0]) + ps.drop_first() =~= q + ps);
    } else {
        assert(q + ps =~= q);
    }
}

proof fn lemma_receive_all(q: Seq<Seq<u8>>)
    ensures
        receives(q, q.len()) == q,
        after_receives(q, q.len()).len() == 0,
    decreases q.len(),
{
    if q.len() > 0 {
        lemma_receive_all(q.drop_first());
        assert(seq![q[0]] + q.drop_first() =~= q);
    } else {
        assert(receives(q, 0) =~= q);
    }
}

/// The loopback is first in, first out over any number of packets. By
/// `send_packet`'s contract a successful send appends to `packets()`, so
/// after the packets `ps` are sent one after another onto an empty stack it
/// holds `after_sends(empty, ps)`; by `recv_packet`'s contract a successful
/// receive hands out `packets()[0]` and drops it, so the next `ps.len()`
/// receives hand out `receives(.., ps.len())`. These are `ps` in the order
/// they were sent, and the queue is then empty, so the next receive finds
/// nothing.
pub proof fn lemma_loopback_fifo_all(ps: Seq<Seq<u8>>)
    ensures
        after_sends(Seq::empty(), ps) == ps,
        receives(after_sends(Seq::empty(), ps), ps.len()) == ps,
        after_receives(after_sends(Seq::empty(), ps), ps.len()).len() == 0,
{
    lemma_after_sends(Seq::empty(), ps);
    assert(Seq::<Seq<u8>>::empty() + ps =~= ps);
    lemma_receive_all(ps);
}

} // verus!
