use vstd::prelude::*;

use crate::cache::{save_spec, CacheState, PacketCaching};
use crate::message::{
    all_frameable, encode_batch, frameable, frames, views, MessageView, OptionalMessage,
    OutboundMessage,
};

verus! {

/// Milliseconds between two batches.
pub const BATCHING_INTERVAL_MS: u64 = 700;
/// Messages the accumulator holds before it grows.
pub const BATCHING_CAPACITY: usize = 1024;

/// Collects outbound messages between ticks and caches each one as it arrives.
pub struct PacketBatching {
    packets: Vec<OutboundMessage>,
    cache: PacketCaching,
}

impl PacketBatching {
    /// The messages waiting for the next tick, in arrival order.
    pub closed spec fn pending(&self) -> Seq<MessageView> {
        views(self.packets@)
    }

    pub closed spec fn cache(&self) -> CacheState {
        self.cache@
    }

    pub open spec fn wf(&self) -> bool {
        &&& self.cache().wf()
        &&& all_frameable(self.pending())
    }

    pub fn new() -> (r: PacketBatching)
        ensures
            r.wf(),
            r.pending() == Seq::<MessageView>::empty(),
            r.cache() == crate::cache::empty_cache(),
    {
        let r = PacketBatching { packets: Vec::with_capacity(BATCHING_CAPACITY), cache: PacketCaching::new() };
        assert(r.pending() =~= Seq::<MessageView>::empty());
        r
    }

    /// Appends `packet` to the accumulator and saves it in the cache.
    pub fn push(&mut self, packet: OutboundMessage)
        requires
            old(self).wf(),
            frameable(packet@),
        ensures
            final(self).wf(),
            final(self).pending() == old(self).pending().push(packet@),
            final(self).cache() == save_spec(old(self).cache(), packet@),
    {
        self.cache.save(packet.kind, &packet.payload, packet.optional);
        let ghost m = packet@;
        self.packets.push(packet);
        proof {
            assert(self.pending() =~= old(self).pending().push(m));
        }
    }

    /// Appends `packet` keyed by `second_param` (an event code or a car index).
    pub fn push_with_optional_parameter(
        &mut self,
        packet: OutboundMessage,
        second_param: Option<OptionalMessage>,
    )
        requires
            old(self).wf(),
            frameable(packet@),
        ensures
            final(self).wf(),
            final(self).pending() == old(self).pending().push(
                (packet@.0, packet@.1, second_param),
            ),
            final(self).cache() == save_spec(old(self).cache(), (packet@.0, packet@.1, second_param)),
    {
        let OutboundMessage { kind, payload, optional: _ } = packet;
        self.push(OutboundMessage { kind, payload, optional: second_param });
    }

    /// The tick: takes every pending message and frames them as one batch. The
    /// batch is handed back only when there is someone to send it to.
    pub fn send_data(&mut self, subscribers: usize) -> (r: Option<Vec<u8>>)
        requires
            old(self).wf(),
        ensures
            final(self).wf(),
            final(self).pending() == Seq::<MessageView>::empty(),
            final(self).cache() == old(self).cache(),
            old(self).pending().len() == 0 || subscribers == 0 ==> r is None,
            old(self).pending().len() > 0 && subscribers > 0 ==> (r matches Some(b) && b@ == frames(
                old(self).pending(),
            )),
    {
        if self.packets.len() == 0 {
            return None;
        }
        let mut taken: Vec<OutboundMessage> = Vec::with_capacity(BATCHING_CAPACITY);
        std::mem::swap(&mut taken, &mut self.packets);
        proof {
            assert(self.pending() =~= Seq::<MessageView>::empty());
        }
        let batch = encode_batch(&taken);
        if subscribers == 0 {
            None
        } else {
            Some(batch)
        }
    }

    /// The cache's snapshot; `None` when nothing has been cached.
    pub fn snapshot(&self) -> (r: Option<Vec<u8>>)
        requires
            self.wf(),
        ensures
            r is None <==> self.cache().is_empty(),
            r matches Some(b) ==> b@ == frames(crate::cache::snapshot_messages(self.cache())),
    {
        self.cache.snapshot()
    }
}

} // verus!
