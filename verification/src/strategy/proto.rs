//! Protocol packets as queue metadata, and draining a queue into sends.
use crate::bundlequeue::{entries_match, push_outcome, Allower, BundleQueue, QueueContext, QueueEntryView, QueueMeta, Scorer};
use crate::clock::unix_timestamp;
use crate::protocol::PacketType;
use vstd::prelude::*;

verus! {

/// An encoded protocol packet waiting in a send queue.
pub struct BundleProtoMeta {
    pub proto_type: PacketType,
    /// The packet encoded as protocol buffer.
    pub proto_packet: Vec<u8>,
    /// When it was queued, in seconds since the UNIX epoch.
    pub queued: u64,
}

impl BundleProtoMeta {
    /// Metadata for an encoded packet, queued now.
    pub fn new(proto_type: PacketType, proto_packet: Vec<u8>) -> (m: BundleProtoMeta)
        ensures
            m.proto_type == proto_type,
            m.proto_packet@ == proto_packet@,
    {
        BundleProtoMeta { proto_type, proto_packet, queued: unix_timestamp() }
    }
}

/// Byte-wise equality of two buffers.
pub fn bytes_equal(a: &Vec<u8>, b: &Vec<u8>) -> (r: bool)
    ensures
        r == (a@ == b@),
{
    if a.len() != b.len() {
        return false;
    }
    let mut i: usize = 0;
    while i < a.len()
        invariant
            i <= a@.len(),
            a@.len() == b@.len(),
            forall|j: int| 0 <= j < i ==> a@[j] == b@[j],
        decreases a@.len() - i,
    {
        if a[i] != b[i] {
            return false;
        }
        i = i + 1;
    }
    assert(a@ =~= b@);
    true
}

impl QueueMeta for BundleProtoMeta {
    /// Packets are the same when their encodings are.
    open spec fn same_as(&self, other: &Self) -> bool {
        self.proto_packet@ == other.proto_packet@
    }

    fn equals(&self, other: &Self) -> (r: bool) {
        bytes_equal(&self.proto_packet, &other.proto_packet)
    }
}

/// Handles `hs` were popped in this order from `before`, leaving `after`:
/// distinct, each of greatest priority among those not yet popped.
pub open spec fn popped_in_order<T>(
    before: Map<u64, (QueueEntryView<T>, i32)>,
    hs: Seq<u64>,
    after: Map<u64, (QueueEntryView<T>, i32)>,
) -> bool {
    &&& forall|i: int, j: int| 0 <= i < j < hs.len() ==> hs[i] != hs[j]
    &&& forall|i: int| 0 <= i < hs.len() ==> before.contains_key(#[trigger] hs[i])
    &&& after == before.remove_keys(hs.to_set())
    &&& forall|i: int, g: u64|
        0 <= i < hs.len() && #[trigger] before.contains_key(g) && !hs.take(i).contains(g)
            ==> before[g].1 <= before[#[trigger] hs[i]].1
}

/// Packets leave in order of priority: of two entries popped one after the
/// other, the earlier has at least the priority of the later.
pub proof fn law_popped_in_priority_order<T>(
    before: Map<u64, (QueueEntryView<T>, i32)>,
    hs: Seq<u64>,
    after: Map<u64, (QueueEntryView<T>, i32)>,
    i: int,
    j: int,
)
    requires
        popped_in_order(before, hs, after),
        0 <= i < j < hs.len(),
    ensures
        before[hs[i]].1 >= before[hs[j]].1,
{
    assert(before.contains_key(hs[j]));
    assert(!hs.take(i).contains(hs[j])) by {
        if hs.take(i).contains(hs[j]) {
            let k = choose|k: int| 0 <= k < hs.take(i).len() && hs.take(i)[k] == hs[j];
            assert(hs[k] == hs[j]);
        }
    }
}

/// What was popped has left: after popping the entries `hs` from a finite
/// queue it holds `hs.len()` entries fewer.
pub proof fn lemma_popped_len<T>(
    before: Map<u64, (QueueEntryView<T>, i32)>,
    hs: Seq<u64>,
    after: Map<u64, (QueueEntryView<T>, i32)>,
)
    requires
        popped_in_order(before, hs, after),
        before.dom().finite(),
    ensures
        after.dom().finite(),
        after.len() + hs.len() == before.len(),
{
    broadcast use vstd::seq_lib::seq_to_set_is_finite;

    assert(hs.no_duplicates()) by {
        assert forall|i: int, j: int|
            0 <= i < hs.len() && 0 <= j < hs.len() && i != j implies hs[i] != hs[j] by {
            if i > j {
                assert(hs[j] != hs[i]);
            }
        }
    }
    hs.unique_seq_to_set();
    let keys = hs.to_set();
    assert(after.dom() =~= before.dom().difference(keys));
    assert(before.dom().intersect(keys) =~= keys) by {
        assert forall|k: u64| keys.contains(k) implies before.dom().contains(k) by {
            let i = choose|i: int| 0 <= i < hs.len() && hs[i] == k;
            assert(before.contains_key(hs[i]));
        }
    }
    vstd::set_lib::lemma_set_difference_len(before.dom(), keys);
    vstd::set_lib::lemma_len_subset(after.dom(), before.dom());
}

/// Every entry carries metadata.
pub open spec fn all_have_meta<T>(items: Map<u64, (QueueEntryView<T>, i32)>) -> bool {
    forall|h: u64| #[trigger] items.contains_key(h) ==> items[h].0.meta is Some
}

/// A push of an entry with metadata keeps every entry with metadata.
pub proof fn lemma_push_keeps_meta(
    before: Map<u64, (QueueEntryView<BundleProtoMeta>, i32)>,
    after: Map<u64, (QueueEntryView<BundleProtoMeta>, i32)>,
    entry: QueueEntryView<BundleProtoMeta>,
    priority: i32,
)
    requires
        all_have_meta(before),
        entry.meta is Some,
        push_outcome(before, after, entry, priority),
    ensures
        all_have_meta(after),
{
    if exists|h: u64| #[trigger]
        before.contains_key(h) && entries_match(before[h].0, entry) && after == before.insert(
            h,
            (before[h].0, priority),
        ) {
        let h = choose|h: u64| #[trigger]
            before.contains_key(h) && entries_match(before[h].0, entry) && after == before.insert(
                h,
                (before[h].0, priority),
            );
        assert forall|g: u64| #[trigger] after.contains_key(g) implies after[g].0.meta is Some by {
            assert(before.contains_key(g));
        }
    } else {
        let h = choose|h: u64|
            !before.contains_key(h) && after == #[trigger] before.insert(h, (entry, priority));
        assert forall|g: u64| #[trigger] after.contains_key(g) implies after[g].0.meta is Some by {
            if g != h {
                assert(before.contains_key(g));
            }
        }
    }
}


/// Pops up to `number` packets, rescoring first if asked to, and returns
/// their encodings in the order popped.
pub fn generate_sends<X, A: Allower<BundleProtoMeta, X>, S: Scorer<BundleProtoMeta, X>>(
    send_queue: &mut BundleQueue<BundleProtoMeta, X, A, S>,
    ctx: &QueueContext<X>,
    number: i32,
    rescore: bool,
) -> (sends: Vec<Vec<u8>>)
    requires
        old(send_queue).wf(),
        all_have_meta(old(send_queue)@),
    ensures
        final(send_queue).wf(),
        final(send_queue).scorers() == old(send_queue).scorers(),
        final(send_queue).allowers() == old(send_queue).allowers(),
        exists|mid: Map<u64, (QueueEntryView<BundleProtoMeta>, i32)>, hs: Seq<u64>|
            {
                &&& (if rescore {
                    old(send_queue).rescore_outcome(*ctx, mid)
                } else {
                    mid == old(send_queue)@
                })
                &&& popped_in_order(mid, hs, final(send_queue)@)
                &&& hs.len() == sends@.len()
                &&& final(send_queue)@.len() + sends@.len() == mid.len()
                &&& forall|i: int|
                    0 <= i < hs.len() ==> (#[trigger] sends@[i])@ == mid[hs[i]].0.meta->0.proto_packet@
            },
        final(send_queue)@.len() + sends@.len() <= old(send_queue)@.len(),
        !rescore ==> final(send_queue)@.len() + sends@.len() == old(send_queue)@.len(),
        sends@.len() <= (if number < 0 {
            0
        } else {
            number as int
        }),
        sends@.len() < number ==> final(send_queue)@.dom() == Set::<u64>::empty(),
        all_have_meta(final(send_queue)@),
{
    if rescore {
        send_queue.rescore(ctx);
    }
    let ghost mid = send_queue@;
    let mut sends: Vec<Vec<u8>> = Vec::new();
    let ghost mut hs: Seq<u64> = Seq::empty();
    proof {
        send_queue.lemma_view_finite();
        assert(hs.to_set() =~= Set::<u64>::empty());
        assert(mid.remove_keys(hs.to_set()) =~= mid);
    }
    let mut n: i32 = 0;
    while n < number
        invariant
            send_queue.wf(),
            send_queue.scorers() == old(send_queue).scorers(),
            send_queue.allowers() == old(send_queue).allowers(),
            all_have_meta(mid),
            mid.dom().finite(),
            0 <= n,
            n <= number || number < 0,
            number < 0 ==> n == 0,
            popped_in_order(mid, hs, send_queue@),
            hs.len() == sends@.len(),
            sends@.len() <= n,
            sends@.len() < n ==> send_queue@.dom() == Set::<u64>::empty(),
            forall|i: int|
                0 <= i < hs.len() ==> (#[trigger] sends@[i])@ == mid[hs[i]].0.meta->0.proto_packet@,
        decreases number - n,
    {
        let ghost before = send_queue@;
        match send_queue.pop() {
            Some(x) => {
                let ghost h = choose|h: u64|
                    #[trigger] before.contains_key(h) && crate::bundlequeue::pop_outcome(
                        before,
                        send_queue@,
                        h,
                        crate::bundlequeue::opt_bundle_view(x.0),
                        x.1,
                        x.2,
                    );
                proof {
                    lemma_pop_extends(mid, hs, before, send_queue@, h);
                    assert(mid.contains_key(h));
                }
                let meta = x.1.unwrap();
                sends.push(meta.proto_packet);
                proof {
                    hs = hs.push(h);
                }
            },
            None => {},
        }
        n = n + 1;
    }
    proof {
        assert forall|h: u64| #[trigger] send_queue@.contains_key(h) implies send_queue@[h].0.meta is Some by {
            assert(mid.contains_key(h));
        }
        send_queue.lemma_view_finite();
        lemma_popped_len(mid, hs, send_queue@);
    }
    sends
}

pub proof fn lemma_pop_extends<T>(
    mid: Map<u64, (QueueEntryView<T>, i32)>,
    hs: Seq<u64>,
    before: Map<u64, (QueueEntryView<T>, i32)>,
    after: Map<u64, (QueueEntryView<T>, i32)>,
    h: u64,
)
    requires
        popped_in_order(mid, hs, before),
        before.contains_key(h),
        forall|g: u64| #[trigger] before.contains_key(g) ==> before[g].1 <= before[h].1,
        after == before.remove(h),
    ensures
        popped_in_order(mid, hs.push(h), after),
        mid.contains_key(h),
        mid[h] == before[h],
{
    let hs2 = hs.push(h);
    assert(!hs.contains(h)) by {
        if hs.contains(h) {
            let k = choose|k: int| 0 <= k < hs.len() && hs[k] == h;
            assert(hs.to_set().contains(h));
        }
    }
    hs.lemma_push_to_set_commute(h);
    assert(hs2.to_set() =~= hs.to_set().insert(h));
    assert(after =~= mid.remove_keys(hs2.to_set()));
    assert forall|i: int, j: int| 0 <= i < j < hs2.len() implies hs2[i] != hs2[j] by {
        if j == hs.len() {
            assert(hs[i] == hs2[i]);
            assert(hs.contains(hs[i]));
        }
    }
    assert forall|i: int, g: u64|
        0 <= i < hs2.len() && #[trigger] mid.contains_key(g) && !hs2.take(i).contains(g) implies mid[g].1
        <= mid[#[trigger] hs2[i]].1 by {
        if i < hs.len() {
            assert(hs2.take(i) =~= hs.take(i));
            assert(hs2[i] == hs[i]);
        } else {
            assert(hs2.take(i) =~= hs);
            assert(!hs.to_set().contains(g));
            assert(before.contains_key(g));
        }
    }
}

} // verus!

verus! {

/// Allows packets whose encoding is shorter than `max` bytes.
pub struct MaxPacketLen {
    pub max: usize,
}

impl crate::bundlequeue::allower::MetaCheck for MaxPacketLen {
    type Meta = BundleProtoMeta;

    type Extra = ();

    open spec fn holds(&self, ctx: QueueContext<()>, meta: BundleProtoMeta) -> bool {
        meta.proto_packet@.len() < self.max
    }

    fn check(&self, ctx: &QueueContext<()>, meta: &BundleProtoMeta) -> (r: bool) {
        meta.proto_packet.len() < self.max
    }
}

/// The age of a packet in the queue, in steps of `divisor` seconds
/// (wrapping when it was queued in the future, truncated to `i32`); 0 for a
/// divisor of 0.
pub open spec fn age_steps(now: u64, queued: u64, divisor: u64) -> i32 {
    if divisor == 0 {
        0
    } else {
        (vstd::wrapping::u64_specs::wrapping_sub(now, queued) / divisor) as i32
    }
}

/// Scores a packet by how long it has been queued.
pub struct AgeScore {
    pub divisor: u64,
}

impl crate::bundlequeue::scorer::MetaScore for AgeScore {
    type Meta = BundleProtoMeta;

    type Extra = ();

    open spec fn score_of(&self, ctx: QueueContext<()>, meta: BundleProtoMeta) -> i32 {
        age_steps(ctx.now, meta.queued, self.divisor)
    }

    fn score(&self, ctx: &QueueContext<()>, meta: &BundleProtoMeta) -> (r: i32) {
        if self.divisor == 0 {
            0
        } else {
            (ctx.now.wrapping_sub(meta.queued) / self.divisor) as i32
        }
    }
}

} // verus!
