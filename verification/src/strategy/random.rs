//! Random routing: bundles are queued with a random priority and sent
//! while any peer is around; an advertisement is always sent first.
use crate::bundlequeue::{decoded_bundle, push_outcome, BundleQueue, NoRule, QueueContext, QueueEntryView};
use crate::global::PeerTable;
use crate::strategy::proto::{
    all_have_meta,
    generate_sends,
    lemma_popped_len,
    lemma_push_keeps_meta,
    popped_in_order,
    BundleProtoMeta,
};
use crate::strategy::settings::RandomSettings;
use vstd::prelude::*;

verus! {

/// The send queue of the random strategy: no rules, priorities as given.
pub type RandomQueue = BundleQueue<BundleProtoMeta, (), NoRule, NoRule>;

/// The state of the random strategy.
pub struct RandomCore {
    pub settings: RandomSettings,
    pub queue: RandomQueue,
    /// The encoded advertisement waiting to be sent.
    pub advertise: Option<Vec<u8>>,
}

/// The priority `min_score + (r % max_score)` with Rust's remainder; `None`
/// where that remainder or the sum is not defined for `i32`.
pub open spec fn random_priority_spec(min_score: i32, max_score: i32, r: i32) -> Option<i32> {
    match r.checked_rem(max_score) {
        Some(m) => if i32::MIN <= min_score + m <= i32::MAX {
            Some((min_score + m) as i32)
        } else {
            None
        },
        None => None,
    }
}

/// The priority a bundle gets for the random number `r`.
pub fn random_priority(min_score: i32, max_score: i32, r: i32) -> (p: Option<i32>)
    ensures
        p == random_priority_spec(min_score, max_score, r),
{
    match r.checked_rem(max_score) {
        Some(m) => min_score.checked_add(m),
        None => None,
    }
}

/// `rand::random::<i32>()`: a random `i32`; nothing is promised of it.
#[verifier::external_body]
fn random_i32() -> (r: i32) {
    rand::random::<i32>()
}

/// `rand::random::<u32>()`: a random `u32`; nothing is promised of it.
#[verifier::external_body]
fn random_u32() -> (r: u32) {
    rand::random::<u32>()
}

/// Draws the priority of a bundle: `min_score` plus a random remainder
/// modulo `max_score`.
pub fn draw_priority(min_score: i32, max_score: i32) -> (p: Option<i32>)
    ensures
        exists|r: i32| p == random_priority_spec(min_score, max_score, r),
{
    let r = random_i32();
    random_priority(min_score, max_score, r)
}

/// The seconds to wait before starting, for the random number `r`: none
/// without a maximum delay, else between 1 and `random_delay_max`.
pub fn start_delay(random_delay_max: u32, r: u32) -> (wait: u64)
    ensures
        random_delay_max == 0 ==> wait == 0,
        random_delay_max > 0 ==> wait == 1 + r % random_delay_max,
{
    if random_delay_max > 0 {
        (1 + r % random_delay_max) as u64
    } else {
        0
    }
}

/// Draws the seconds to wait before starting: none without a maximum
/// delay, else between 1 and `random_delay_max`.
pub fn draw_start_delay(random_delay_max: u32) -> (wait: u64)
    ensures
        random_delay_max == 0 ==> wait == 0,
        random_delay_max > 0 ==> 1 <= wait <= random_delay_max,
{
    if random_delay_max == 0 {
        return 0;
    }
    let r = random_u32();
    start_delay(random_delay_max, r)
}

/// Packets go out only while some peer was seen within `max_peer_age`
/// seconds at `now`.
pub open spec fn peers_around(peers: PeerTable, now: u64, max_peer_age: i32) -> bool {
    peers.recent_names(now, max_peer_age as u64).len() > 0
}

/// The number of advertisements waiting: one or none.
pub open spec fn waiting(advertise: Option<Vec<u8>>) -> int {
    if advertise is Some {
        1
    } else {
        0
    }
}

impl RandomCore {
    /// The queue holds metadata with each entry.
    pub closed spec fn wf(&self) -> bool {
        &&& self.queue.wf()
        &&& all_have_meta(self.queue@)
        &&& self.queue.scorers().len() == 0
        &&& self.queue.allowers().len() == 0
    }

    pub closed spec fn queued(&self) -> Map<u64, (QueueEntryView<BundleProtoMeta>, i32)> {
        self.queue@
    }

    pub fn new(settings: RandomSettings) -> (c: RandomCore)
        ensures
            c.wf(),
            c.settings == settings,
            c.queued() == Map::<u64, (QueueEntryView<BundleProtoMeta>, i32)>::empty(),
            c.advertise is None,
    {
        RandomCore { settings, queue: BundleQueue::new(), advertise: None }
    }

    /// Keeps the advertisement to send next, replacing one still waiting.
    pub fn recommend_advertise(&mut self, encoded: Vec<u8>)
        requires
            old(self).wf(),
        ensures
            final(self).wf(),
            final(self).queued() == old(self).queued(),
            final(self).advertise == Some(encoded),
            final(self).settings == old(self).settings,
    {
        self.advertise = Some(encoded);
    }

    /// Queues an encoded packet carrying the bundle `bundle_data` with
    /// `priority`.
    pub fn queue_bundle(
        &mut self,
        ctx: &QueueContext<()>,
        priority: i32,
        bundle_data: Vec<u8>,
        meta: BundleProtoMeta,
    ) -> (res: (bool, i32))
        requires
            old(self).wf(),
        ensures
            final(self).wf(),
            final(self).advertise == old(self).advertise,
            final(self).settings == old(self).settings,
            res == (true, priority),
            push_outcome(
                old(self).queued(),
                final(self).queued(),
                (QueueEntryView {
                    base_priority: priority,
                    bndl: decoded_bundle(bundle_data@),
                    meta: Some(meta),
                }),
                priority,
            ),
    {
        let ghost m = meta;
        let res = self.queue.push_buf(ctx, priority, bundle_data, Some(meta));
        proof {
            let b = decoded_bundle(bundle_data@);
            let q = old(self).queue;
            assert(crate::bundlequeue::all_allow(q.allowers(), *ctx, b, Some(m)));
            assert(crate::bundlequeue::sum_scores(q.scorers(), *ctx, b, Some(m)) == 0);
            lemma_push_keeps_meta(
                q@,
                self.queue@,
                QueueEntryView { base_priority: priority, bndl: b, meta: Some(m) },
                res.1,
            );
        }
        res
    }

    /// A send tick at `now`: the waiting advertisement goes out first; then,
    /// when some peer was seen within the maximum peer age, packets are
    /// popped until `send_packets` have gone out in all.
    pub fn send_tick(&mut self, peers: &PeerTable, now: u64) -> (sends: Vec<Vec<u8>>)
        requires
            old(self).wf(),
            peers.wf(),
            old(self).advertise is Some && peers_around(*peers, now, old(self).settings.max_peer_age)
                ==> old(self).settings.send_packets > i32::MIN,
        ensures
            final(self).wf(),
            final(self).settings == old(self).settings,
            final(self).advertise is None,
            old(self).advertise matches Some(a) ==> sends@.len() >= 1 && sends@[0] == a,
            !peers_around(*peers, now, old(self).settings.max_peer_age) ==> sends@.len()
                == waiting(old(self).advertise) && final(self).queued() == old(self).queued(),
            peers_around(*peers, now, old(self).settings.max_peer_age) ==> exists|hs: Seq<u64>|
                {
                    let pre = waiting(old(self).advertise);
                    let budget = old(self).settings.send_packets - pre;
                    &&& #[trigger] popped_in_order(old(self).queued(), hs, final(self).queued())
                    &&& hs.len() == sends@.len() - pre
                    &&& final(self).queued().len() + hs.len() == old(self).queued().len()
                    &&& hs.len() <= (if budget < 0 {
                        0
                    } else {
                        budget
                    })
                    &&& hs.len() < budget ==> final(self).queued().dom() == Set::<u64>::empty()
                    &&& forall|i: int|
                        0 <= i < hs.len() ==> (#[trigger] sends@[i + pre])@ == old(
                            self,
                        ).queued()[hs[i]].0.meta->0.proto_packet@
                },
    {
        let mut sends: Vec<Vec<u8>> = Vec::new();
        let mut pre_send: i32 = 0;
        let adv = self.advertise.take();
        match adv {
            Some(a) => {
                sends.push(a);
                pre_send = 1;
            },
            None => {},
        }
        let names = peers.peer_names_at(self.settings.max_peer_age as u64, now);
        proof {
            assert(names@.map_values(|s: String| s@).len() == names@.len());
        }
        if names.len() > 0 {
            let ctx = QueueContext { now, dtn_now: 0, extra: () };
            let ghost q0 = self.queue@;
            proof {
                self.queue.lemma_view_finite();
            }
            let ghost before = sends@;
            let mut more = generate_sends(
                &mut self.queue,
                &ctx,
                self.settings.send_packets - pre_send,
                false,
            );
            let ghost more_v = more@;
            sends.append(&mut more);
            proof {
                assert(names@.map_values(|s: String| s@).len() == names@.len());
                let (mid, hs) = choose|mid: Map<u64, (QueueEntryView<BundleProtoMeta>, i32)>, hs: Seq<u64>|
                    {
                        &&& mid == q0
                        &&& popped_in_order(mid, hs, self.queue@)
                        &&& hs.len() == more_v.len()
                        &&& forall|i: int|
                            0 <= i < hs.len() ==> (#[trigger] more_v[i])@
                                == mid[hs[i]].0.meta->0.proto_packet@
                    };
                assert(sends@ == before + more_v);
                lemma_popped_len(q0, hs, self.queue@);
                assert forall|i: int| 0 <= i < hs.len() implies (#[trigger] sends@[i + pre_send])@
                    == q0[hs[i]].0.meta->0.proto_packet@ by {
                    assert(sends@[i + pre_send] == more_v[i]);
                }
                assert({
                    let pre = waiting(old(self).advertise);
                    let budget = old(self).settings.send_packets - pre;
                    &&& popped_in_order(old(self).queued(), hs, self.queued())
                    &&& hs.len() == sends@.len() - pre
                    &&& self.queued().len() + hs.len() == old(self).queued().len()
                    &&& hs.len() <= (if budget < 0 {
                        0
                    } else {
                        budget
                    })
                    &&& hs.len() < budget ==> self.queued().dom() == Set::<u64>::empty()
                    &&& forall|i: int|
                        0 <= i < hs.len() ==> (#[trigger] sends@[i + pre])@
                            == old(self).queued()[hs[i]].0.meta->0.proto_packet@
                });
            }
        } else {
            proof {
                assert(names@.map_values(|s: String| s@).len() == names@.len());
            }
        }
        sends
    }
}

} // verus!
