//! Quadrant based routing: bundles are forwarded again with a priority that
//! grows with the neighbours in other quadrants which may not have them yet,
//! and spread to neighbours whose bundle digest differs from ours.
use crate::bundlequeue::allower::{AllowBundleSize, AllowMetaCheck};
use crate::bundlequeue::scorer::ScoreMetaCheck;
use crate::bundlequeue::{BundleQueue, Either};
use crate::clock::unix_timestamp;
use crate::bundlequeue::{decoded_bundle, push_outcome, QueueContext, QueueEntryView};
use crate::protocol::{Advertise, BundleForward, Content, Packet, PacketType, Position};
use crate::strategy::digest::{default_hash, digest_ids, hash_string, ids_digest};
use crate::text::string_views;
use crate::strategy::proto::{all_have_meta, generate_sends, lemma_push_keeps_meta, popped_in_order, AgeScore, BundleProtoMeta, MaxPacketLen};
use crate::strategy::Interval;
use crate::strmap::StrMap;
use vstd::prelude::*;

verus! {

/// The key under which the bundle hash will be stored in the optional data
/// inside the protobuf package.
pub const DATA_BUNDLE_HASH_KEY: &'static str = "BH";

/// The key under which the position will be stored in the optional data
/// inside the protobuf package.
pub const DATA_POS_KEY: &'static str = "P";

/// The distance value between two quadrant values, either 1 or 2: 1 when
/// either is unknown (0) or they differ by an odd number (neighbouring
/// quadrants), 2 when they differ by an even number (opposite quadrants).
pub open spec fn quad_distance_spec(a: i32, b: i32) -> i32 {
    let d = if a >= b {
        a - b
    } else {
        b - a
    };
    if a == 0 || b == 0 {
        1
    } else if d % 2 == 1 {
        1
    } else {
        2
    }
}

/// Calculates the distance value between 2 quadrant values. It's either 1
/// or 2.
pub fn quad_distance(a: i32, b: i32) -> (r: i32)
    ensures
        r == quad_distance_spec(a, b),
        r == 1 || r == 2,
{
    if a == 0 || b == 0 {
        return 1;
    }
    let d: u64 = if a >= b {
        (a as i64 - b as i64) as u64
    } else {
        (b as i64 - a as i64) as u64
    };
    if d % 2 == 1 {
        1
    } else {
        2
    }
}

/// The quadrant distance is symmetric, is 1 whenever either quadrant is
/// unknown (0), and between two known quadrants is 1 for neighbouring ones
/// (an odd difference) and 2 for opposite or equal ones (an even
/// difference).
pub proof fn law_quad_distance(a: i32, b: i32)
    ensures
        quad_distance_spec(a, b) == quad_distance_spec(b, a),
        a == 0 || b == 0 ==> quad_distance_spec(a, b) == 1,
        a != 0 && b != 0 && (a - b) % 2 != 0 ==> quad_distance_spec(a, b) == 1,
        a != 0 && b != 0 && (a - b) % 2 == 0 ==> quad_distance_spec(a, b) == 2,
{
    assert(((a - b) % 2 == 0) == ((b - a) % 2 == 0)) by (nonlinear_arith);
}

/// Contains information about a encountered neighbouring node.
pub struct RecentNeighbor {
    pub last_seen: u64,
    pub bundle_hash: String,
    pub pos: Position,
    /// When each bundle was last heard from this neighbour.
    pub bundles: StrMap<u64>,
}

impl RecentNeighbor {
    /// A neighbour heard at `last_seen`, of whose bundles nothing is known.
    pub fn new(last_seen: u64, bundle_hash: String, pos: Position) -> (n: RecentNeighbor)
        ensures
            n.last_seen == last_seen,
            n.bundle_hash == bundle_hash,
            n.pos == pos,
            n.bundles.wf(),
            n.bundles@ == Map::<Seq<char>, u64>::empty(),
    {
        RecentNeighbor { last_seen, bundle_hash, pos, bundles: StrMap::new() }
    }

    pub fn set_bundle_seen(&mut self, id: String, time: u64)
        requires
            old(self).bundles.wf(),
        ensures
            final(self).bundles.wf(),
            final(self).bundles@ == old(self).bundles@.insert(id@, time),
            final(self).last_seen == old(self).last_seen,
            final(self).bundle_hash == old(self).bundle_hash,
            final(self).pos == old(self).pos,
    {
        self.bundles.insert(id, time);
    }

    /// Whether the bundle was heard from this neighbour less than `seconds`
    /// before `now`.
    pub fn was_bundle_seen_at(&self, id: String, seconds: u64, now: u64) -> (r: bool)
        requires
            self.bundles.wf(),
        ensures
            r == (self.bundles@.contains_key(id@) && vstd::wrapping::u64_specs::wrapping_sub(
                now,
                self.bundles@[id@],
            ) < seconds),
    {
        match self.bundles.get(id.as_str()) {
            None => false,
            Some(last_seen) => now.wrapping_sub(*last_seen) < seconds,
        }
    }

    /// Whether the bundle was heard from this neighbour within the last
    /// `seconds`.
    pub fn was_bundle_seen(&self, id: String, seconds: u64) -> (r: bool)
        requires
            self.bundles.wf(),
        ensures
            exists|now: u64|
                r == (self.bundles@.contains_key(id@) && #[trigger] vstd::wrapping::u64_specs::wrapping_sub(
                    now,
                    self.bundles@[id@],
                ) < seconds),
    {
        let now = unix_timestamp();
        let ghost idv = id@;
        let r = self.was_bundle_seen_at(id, seconds, now);
        assert(r == (self.bundles@.contains_key(idv) && vstd::wrapping::u64_specs::wrapping_sub(
            now,
            self.bundles@[idv],
        ) < seconds));
        r
    }

    pub fn has_bundle(&self, id: String) -> (r: bool)
        requires
            self.bundles.wf(),
        ensures
            r == self.bundles@.contains_key(id@),
    {
        self.bundles.contains_key(id.as_str())
    }
}

/// A neighbour has a bundle exactly when it was heard with it, whenever
/// that was: after a run of `set_bundle_seen` calls with `ids[i]` at
/// `times[i]`, starting from a neighbour heard with no bundle, a bundle id
/// is among its bundles exactly when it is one of `ids`.
pub proof fn law_has_bundle_after_seen(
    run: Seq<Map<Seq<char>, u64>>,
    ids: Seq<Seq<char>>,
    times: Seq<u64>,
    x: Seq<char>,
)
    requires
        run.len() == ids.len() + 1,
        times.len() == ids.len(),
        run[0] == Map::<Seq<char>, u64>::empty(),
        forall|i: int| 0 <= i < ids.len() ==> #[trigger] run[i + 1] == run[i].insert(ids[i], times[i]),
    ensures
        run.last().contains_key(x) <==> ids.contains(x),
    decreases ids.len(),
{
    if ids.len() > 0 {
        let n = ids.len() - 1;
        law_has_bundle_after_seen(run.drop_last(), ids.drop_last(), times.drop_last(), x);
        assert(run[n + 1] == run[n].insert(ids[n], times[n]));
        assert(run.drop_last().last() == run[n]);
        if ids.drop_last().contains(x) {
            let j = choose|j: int| 0 <= j < ids.drop_last().len() && ids.drop_last()[j] == x;
            assert(ids[j] == x);
        }
        if ids.contains(x) && x != ids[n] {
            let j = choose|j: int| 0 <= j < ids.len() && ids[j] == x;
            assert(ids.drop_last()[j] == x);
        }
    }
}

/// Contains the data of a bp7 bundle.
pub struct BundleRecord {
    pub destination: String,
    pub bundle_id: String,
    pub bundle_data: Vec<u8>,
}

impl BundleRecord {
    pub fn from_bundle_forward(pack: BundleForward) -> (r: BundleRecord)
        ensures
            r.destination == pack.destination,
            r.bundle_id == pack.bundle_id,
            r.bundle_data == pack.bundle_data,
    {
        BundleRecord {
            bundle_data: pack.bundle_data,
            bundle_id: pack.bundle_id,
            destination: pack.destination,
        }
    }

    pub fn duplicate(&self) -> (r: BundleRecord)
        ensures
            r.destination@ == self.destination@,
            r.bundle_id@ == self.bundle_id@,
            r.bundle_data@ == self.bundle_data@,
    {
        BundleRecord {
            destination: self.destination.clone(),
            bundle_id: self.bundle_id.clone(),
            bundle_data: crate::bundlequeue::copy_byte_vec(&self.bundle_data),
        }
    }
}

/// Contains the interval and priority settings for this strategy.
pub struct QuadrantSettings {
    /// The interval in which the strategy tries to send.
    pub send_interval: Interval,
    /// The interval in which the strategy checks for packets that should be
    /// spread again.
    pub spread_interval: Interval,
    /// The interval in which the strategy tries to advertise the node.
    pub advertise_interval: Interval,
    /// The amount of packets that should be sent if the send_interval is hit.
    pub send_packets: i32,
    /// The priority value that gets added for the spread.
    pub spread_priority: i32,
    /// The base priority of a packet that is received from the local DTND
    /// instance.
    pub self_forward_priority: i32,
    /// The base priority of the advertise packet.
    pub advertise_priority: i32,
    /// Maximum random delay to introduce.
    pub random_delay_max: u32,
}

/// Whether neighbour `n`, named `name`, makes a retransmission of bundle
/// `bndl_id` received from `sender` worthwhile: it is not the sender, its
/// digest differs from ours and it has not been heard with the bundle.
pub open spec fn may_lack_bundle(
    name: Seq<char>,
    n: RecentNeighbor,
    sender: Seq<char>,
    own_hash: Seq<char>,
    bndl_id: Seq<char>,
) -> bool {
    &&& name != sender
    &&& n.bundle_hash@ != own_hash
    &&& !n.bundles@.contains_key(bndl_id)
}

/// The sum, over the first neighbours in `names`, of the quadrant distance
/// of each neighbour that may lack the bundle and lies in another quadrant
/// than the sender.
pub open spec fn retransmission_sum(
    names: Seq<Seq<char>>,
    neighbors: Map<Seq<char>, RecentNeighbor>,
    quads: Seq<u32>,
    quad: u32,
    sender: Seq<char>,
    own_hash: Seq<char>,
    bndl_id: Seq<char>,
) -> i32
    decreases names.len(),
{
    if names.len() == 0 {
        0
    } else {
        let i = names.len() - 1;
        let rest = retransmission_sum(
            names.drop_last(),
            neighbors,
            quads,
            quad,
            sender,
            own_hash,
            bndl_id,
        );
        if may_lack_bundle(names[i], neighbors[names[i]], sender, own_hash, bndl_id) && quad
            != quads[i] {
            vstd::wrapping::i32_specs::wrapping_add(
                rest,
                quad_distance_spec(quad as i32, quads[i] as i32),
            )
        } else {
            rest
        }
    }
}

/// The spread priority a bundle collects: `spread_priority` for each
/// neighbour among the first `names` whose digest differs from ours and
/// that has not been heard with the bundle; with the number of such
/// neighbours.
pub open spec fn spread_of(
    names: Seq<Seq<char>>,
    neighbors: Map<Seq<char>, RecentNeighbor>,
    own_hash: Seq<char>,
    bndl_id: Seq<char>,
    spread_priority: i32,
) -> (nat, i32)
    decreases names.len(),
{
    if names.len() == 0 {
        (0, 0)
    } else {
        let rest = spread_of(names.drop_last(), neighbors, own_hash, bndl_id, spread_priority);
        let n = neighbors[names.last()];
        if n.bundle_hash@ != own_hash && !n.bundles@.contains_key(bndl_id) {
            (rest.0 + 1, vstd::wrapping::i32_specs::wrapping_add(rest.1, spread_priority))
        } else {
            rest
        }
    }
}

/// A bundle received over LoRa is worth retransmitting only for neighbours
/// that may lack it: the sum is 0 exactly when no neighbour other than the
/// sender, with a digest other than ours, not heard with the bundle, sits
/// in another quadrant than the sender; each such neighbour adds 1 or 2,
/// and exactly 1 while the sender's quadrant is unknown (0).
pub proof fn law_retransmission_counts_neighbours_lacking_it(
    names: Seq<Seq<char>>,
    neighbors: Map<Seq<char>, RecentNeighbor>,
    quads: Seq<u32>,
    quad: u32,
    sender: Seq<char>,
    own_hash: Seq<char>,
    bndl_id: Seq<char>,
)
    requires
        names.len() <= quads.len(),
        names.len() < 0x1000_0000,
    ensures
        ({
            let sum = retransmission_sum(names, neighbors, quads, quad, sender, own_hash, bndl_id);
            &&& 0 <= sum <= 2 * names.len()
            &&& quad == 0 ==> sum <= names.len()
            &&& sum == 0 <==> forall|i: int|
                0 <= i < names.len() ==> !(#[trigger] names[i] != sender
                    && neighbors[names[i]].bundle_hash@ != own_hash
                    && !neighbors[names[i]].bundles@.contains_key(bndl_id) && quads[i] != quad)
        }),
    decreases names.len(),
{
    if names.len() > 0 {
        let init = names.drop_last();
        let last = names.len() - 1;
        law_retransmission_counts_neighbours_lacking_it(
            init,
            neighbors,
            quads,
            quad,
            sender,
            own_hash,
            bndl_id,
        );
        law_quad_distance(quad as i32, quads[last] as i32);
        assert(names[last] == names.last());
        let rest = retransmission_sum(init, neighbors, quads, quad, sender, own_hash, bndl_id);
        let sum = retransmission_sum(names, neighbors, quads, quad, sender, own_hash, bndl_id);
        let x = names[last];
        let n = neighbors[x];
        let cond = x != sender && n.bundle_hash@ != own_hash && !n.bundles@.contains_key(bndl_id)
            && quads[last] != quad;
        let d = quad_distance_spec(quad as i32, quads[last] as i32);
        assert(cond == (may_lack_bundle(x, n, sender, own_hash, bndl_id) && quad != quads[last]));
        if cond {
            assert(vstd::wrapping::i32_specs::wrapping_add(rest, d) == rest + d);
            assert(sum == rest + d);
        } else {
            assert(sum == rest);
        }
        if sum == 0 {
            assert forall|i: int| 0 <= i < names.len() implies !(#[trigger] names[i] != sender
                && neighbors[names[i]].bundle_hash@ != own_hash
                && !neighbors[names[i]].bundles@.contains_key(bndl_id) && quads[i] != quad) by {
                if i < last {
                    assert(init[i] == names[i]);
                }
            }
        }
        if forall|i: int|
            0 <= i < names.len() ==> !(#[trigger] names[i] != sender
                && neighbors[names[i]].bundle_hash@ != own_hash
                && !neighbors[names[i]].bundles@.contains_key(bndl_id) && quads[i] != quad) {
            assert forall|i: int| 0 <= i < init.len() implies !(#[trigger] init[i] != sender
                && neighbors[init[i]].bundle_hash@ != own_hash
                && !neighbors[init[i]].bundles@.contains_key(bndl_id) && quads[i] != quad) by {
                assert(init[i] == names[i]);
            }
            assert(!cond);
        }
    }
}

/// A bundle is spread only to neighbours that may lack it: the spread of a
/// bundle counts at least one neighbour exactly when some neighbour among
/// `names` has a digest other than ours and has not been heard with the
/// bundle; a neighbour heard with it never counts.
pub proof fn law_spread_needs_a_neighbour_lacking_it(
    names: Seq<Seq<char>>,
    neighbors: Map<Seq<char>, RecentNeighbor>,
    own_hash: Seq<char>,
    bndl_id: Seq<char>,
    spread_priority: i32,
)
    ensures
        spread_of(names, neighbors, own_hash, bndl_id, spread_priority).0 > 0 <==> exists|i: int|
            0 <= i < names.len() && neighbors[#[trigger] names[i]].bundle_hash@ != own_hash
                && !neighbors[names[i]].bundles@.contains_key(bndl_id),
        spread_of(names, neighbors, own_hash, bndl_id, spread_priority).0 <= names.len(),
    decreases names.len(),
{
    if names.len() > 0 {
        let init = names.drop_last();
        law_spread_needs_a_neighbour_lacking_it(init, neighbors, own_hash, bndl_id, spread_priority);
        let last = names.len() - 1;
        if exists|i: int|
            0 <= i < init.len() && neighbors[#[trigger] init[i]].bundle_hash@ != own_hash
                && !neighbors[init[i]].bundles@.contains_key(bndl_id) {
            let i = choose|i: int|
                0 <= i < init.len() && neighbors[#[trigger] init[i]].bundle_hash@ != own_hash
                    && !neighbors[init[i]].bundles@.contains_key(bndl_id);
            assert(names[i] == init[i]);
        }
        if exists|i: int|
            0 <= i < names.len() && neighbors[#[trigger] names[i]].bundle_hash@ != own_hash
                && !neighbors[names[i]].bundles@.contains_key(bndl_id) {
            let i = choose|i: int|
                0 <= i < names.len() && neighbors[#[trigger] names[i]].bundle_hash@ != own_hash
                    && !neighbors[names[i]].bundles@.contains_key(bndl_id);
            if i < last {
                assert(init[i] == names[i]);
            }
        }
    }
}

/// The allowers of the quadrant send queue.
pub type QuadrantAllower = Either<AllowBundleSize, AllowMetaCheck<MaxPacketLen>>;

/// The scorer of the quadrant send queue.
pub type QuadrantScorer = ScoreMetaCheck<AgeScore>;

/// The send queue of the quadrant strategy.
pub type QuadrantQueue = BundleQueue<BundleProtoMeta, (), QuadrantAllower, QuadrantScorer>;

/// The send queue of the strategy: bundles shorter than 220 bytes and
/// packets shorter than 250 bytes are admitted, packets score the tens of
/// seconds they have waited.
fn quadrant_queue() -> (queue: QuadrantQueue)
    ensures
        queue.wf(),
        queue@ == Map::<u64, (crate::bundlequeue::QueueEntryView<BundleProtoMeta>, i32)>::empty(),
        forall|
            ctx: crate::bundlequeue::QueueContext<()>,
            b: Option<crate::bundlequeue::BundleView>,
            m: Option<BundleProtoMeta>,
        |
            #[trigger] crate::bundlequeue::all_allow(queue.allowers(), ctx, b, m) == ((b matches Some(
                bb,
            ) ==> bb.cbor.len() < 220) && (m matches Some(mm) ==> mm.proto_packet@.len() < 250)),
        forall|
            ctx: crate::bundlequeue::QueueContext<()>,
            b: Option<crate::bundlequeue::BundleView>,
            m: Option<BundleProtoMeta>,
        |
            #[trigger] crate::bundlequeue::sum_scores(queue.scorers(), ctx, b, m) == (match m {
                None => 0,
                Some(mm) => crate::strategy::proto::age_steps(ctx.now, mm.queued, 10),
            }),
{
    let mut queue: QuadrantQueue = BundleQueue::new();
    queue.add_allower(Either::Left(AllowBundleSize::new(220)));
    queue.add_allower(Either::Right(AllowMetaCheck::new(MaxPacketLen { max: 250 })));
    queue.add_scorer(ScoreMetaCheck::new(AgeScore { divisor: 10 }));
    proof {
        let a = queue.allowers();
        let sc = queue.scorers();
        assert(a.drop_last().drop_last() =~= Seq::<QuadrantAllower>::empty());
        assert(sc.drop_last() =~= Seq::<QuadrantScorer>::empty());
        reveal_with_fuel(crate::bundlequeue::all_allow, 3);
        reveal_with_fuel(crate::bundlequeue::sum_scores, 2);
        assert forall|
            ctx: crate::bundlequeue::QueueContext<()>,
            b: Option<crate::bundlequeue::BundleView>,
            m: Option<BundleProtoMeta>,
        |
            #[trigger] crate::bundlequeue::all_allow(a, ctx, b, m) == ((b matches Some(bb)
                ==> bb.cbor.len() < 220) && (m matches Some(mm) ==> mm.proto_packet@.len()
                < 250)) by {
            assert(a.drop_last().drop_last().len() == 0);
        }
        assert forall|
            ctx: crate::bundlequeue::QueueContext<()>,
            b: Option<crate::bundlequeue::BundleView>,
            m: Option<BundleProtoMeta>,
        |
            #[trigger] crate::bundlequeue::sum_scores(sc, ctx, b, m) == (match m {
                None => 0,
                Some(mm) => crate::strategy::proto::age_steps(ctx.now, mm.queued, 10),
            }) by {
            assert(sc.drop_last().len() == 0);
        }
    }
    queue
}

pub struct QuadrantCore {
    pub settings: QuadrantSettings,
    /// Each bundle known, with the time it was last seen.
    pub bundles: StrMap<(BundleRecord, u64)>,
    /// The neighbours heard, by node name.
    pub neighbors: StrMap<RecentNeighbor>,
    pub send_queue: QuadrantQueue,
}

impl QuadrantCore {
    pub closed spec fn wf(&self) -> bool {
        &&& self.bundles.wf()
        &&& self.neighbors.wf()
        &&& forall|k: Seq<char>| #[trigger]
            self.neighbors@.contains_key(k) ==> self.neighbors@[k].bundles.wf()
        &&& self.send_queue.wf()
        &&& all_have_meta(self.send_queue@)
    }

    /// Each known bundle with the time it was last seen.
    pub closed spec fn known_bundles(&self) -> Map<Seq<char>, (BundleRecord, u64)> {
        self.bundles@
    }

    /// The ids of the known bundles, in the order they became known.
    pub closed spec fn bundle_ids(&self) -> Seq<Seq<char>> {
        self.bundles.key_seq()
    }

    /// The neighbours by name.
    pub closed spec fn neighbor_map(&self) -> Map<Seq<char>, RecentNeighbor> {
        self.neighbors@
    }

    /// The neighbour names, in the order in which they are kept.
    pub closed spec fn neighbor_names(&self) -> Seq<Seq<char>> {
        self.neighbors.key_seq()
    }

    /// The digest of our bundle ids as neighbours compare it.
    pub open spec fn own_hash(&self) -> Seq<char> {
        ids_digest(self.bundle_ids())
    }

    /// A core without bundles or neighbours whose send queue admits bundles
    /// shorter than 220 bytes and packets shorter than 250 bytes, and
    /// scores packets by the tens of seconds they have waited.
    pub fn new(settings: QuadrantSettings) -> (q: QuadrantCore)
        ensures
            q.wf(),
            q.settings == settings,
            q.known_bundles() == Map::<Seq<char>, (BundleRecord, u64)>::empty(),
            q.neighbor_map() == Map::<Seq<char>, RecentNeighbor>::empty(),
            q.send_queue@ == Map::<u64, (crate::bundlequeue::QueueEntryView<BundleProtoMeta>, i32)>::empty(),
            forall|ctx: crate::bundlequeue::QueueContext<()>, b: Option<crate::bundlequeue::BundleView>, m: Option<BundleProtoMeta>|
                #[trigger] crate::bundlequeue::all_allow(q.send_queue.allowers(), ctx, b, m) == ((
                b matches Some(bb) ==> bb.cbor.len() < 220) && (m matches Some(mm)
                ==> mm.proto_packet@.len() < 250)),
            forall|ctx: crate::bundlequeue::QueueContext<()>, b: Option<crate::bundlequeue::BundleView>, m: Option<BundleProtoMeta>|
                #[trigger] crate::bundlequeue::sum_scores(q.send_queue.scorers(), ctx, b, m) == (
                match m {
                    None => 0,
                    Some(mm) => crate::strategy::proto::age_steps(ctx.now, mm.queued, 10),
                }),
    {
        let queue = quadrant_queue();
        let q = QuadrantCore {
            settings,
            bundles: StrMap::new(),
            neighbors: StrMap::new(),
            send_queue: queue,
        };
        q
    }

    /// Calculates the hash of the local bundle ids.
    pub fn bundles_hash(&self) -> (h: String)
        requires
            self.wf(),
        ensures
            h@ == self.own_hash(),
    {
        let mut ids: Vec<String> = Vec::new();
        let n = self.bundles.len();
        let mut i: usize = 0;
        while i < n
            invariant
                self.bundles.wf(),
                n == self.bundles.key_seq().len(),
                i <= n,
                string_views(ids@) == self.bundles.key_seq().take(i as int),
            decreases n - i,
        {
            let k = self.bundles.key_at(i);
            let ghost before = ids@;
            ids.push(k.clone());
            proof {
                assert(string_views(ids@) =~= string_views(before).push(k@));
                assert(string_views(ids@) =~= self.bundles.key_seq().take(i + 1));
            }
            i = i + 1;
        }
        proof {
            assert(self.bundles.key_seq().take(n as int) =~= self.bundles.key_seq());
        }
        digest_ids(ids)
    }

    /// Records an advertised neighbour: a known one gets digest, position
    /// and time renewed and keeps what it was heard with; an unknown one is
    /// added as given.
    pub fn set_neighbor(&mut self, name: String, data: RecentNeighbor)
        requires
            old(self).wf(),
            data.bundles.wf(),
        ensures
            final(self).wf(),
            final(self).settings == old(self).settings,
            final(self).send_queue == old(self).send_queue,
            final(self).known_bundles() == old(self).known_bundles(),
            final(self).bundle_ids() == old(self).bundle_ids(),
            final(self).neighbor_map().dom() == old(self).neighbor_map().dom().insert(name@),
            forall|k: Seq<char>|
                k != name@ && #[trigger] old(self).neighbor_map().contains_key(k)
                    ==> final(self).neighbor_map()[k] == old(self).neighbor_map()[k],
            ({
                let n = final(self).neighbor_map()[name@];
                &&& n.bundle_hash == data.bundle_hash
                &&& n.pos == data.pos
                &&& n.last_seen == data.last_seen
                &&& old(self).neighbor_map().contains_key(name@) ==> n.bundles
                    == old(self).neighbor_map()[name@].bundles
                &&& !old(self).neighbor_map().contains_key(name@) ==> n.bundles == data.bundles
            }),
    {
        let old_n = self.neighbors.remove(name.as_str());
        let n = match old_n {
            Some(n) => RecentNeighbor {
                last_seen: data.last_seen,
                bundle_hash: data.bundle_hash,
                pos: data.pos,
                bundles: n.bundles,
            },
            None => data,
        };
        self.neighbors.insert(name, n);
        proof {
            assert(self.neighbor_map().dom() =~= old(self).neighbor_map().dom().insert(name@));
        }
    }

    /// Stores a bundle as seen at `time`, and as heard from `node_name`
    /// when that is a known neighbour.
    pub fn set_bundle_seen(&mut self, pack: BundleRecord, node_name: String, time: u64)
        requires
            old(self).wf(),
        ensures
            final(self).wf(),
            final(self).settings == old(self).settings,
            final(self).send_queue == old(self).send_queue,
            final(self).known_bundles().dom() == old(self).known_bundles().dom().insert(
                pack.bundle_id@,
            ),
            final(self).known_bundles()[pack.bundle_id@].0 == pack,
            final(self).known_bundles()[pack.bundle_id@].1 == time,
            forall|k: Seq<char>|
                k != pack.bundle_id@ && #[trigger] old(self).known_bundles().contains_key(k)
                    ==> final(self).known_bundles()[k] == old(self).known_bundles()[k],
            old(self).known_bundles().contains_key(pack.bundle_id@) ==> final(self).bundle_ids()
                == old(self).bundle_ids(),
            !old(self).known_bundles().contains_key(pack.bundle_id@) ==> final(self).bundle_ids()
                == old(self).bundle_ids().push(pack.bundle_id@),
            final(self).neighbor_map().dom() == old(self).neighbor_map().dom(),
            final(self).neighbor_names() == old(self).neighbor_names(),
            forall|k: Seq<char>|
                k != node_name@ && #[trigger] old(self).neighbor_map().contains_key(k)
                    ==> final(self).neighbor_map()[k] == old(self).neighbor_map()[k],
            (node_name@.len() > 0 && old(self).neighbor_map().contains_key(node_name@)) ==> ({
                let before = old(self).neighbor_map()[node_name@];
                let after = final(self).neighbor_map()[node_name@];
                &&& after.bundles@ == before.bundles@.insert(pack.bundle_id@, time)
                &&& after.last_seen == before.last_seen
                &&& after.bundle_hash == before.bundle_hash
                &&& after.pos == before.pos
            }),
            !(node_name@.len() > 0 && old(self).neighbor_map().contains_key(node_name@))
                ==> final(self).neighbor_map() == old(self).neighbor_map(),
    {
        let id = pack.bundle_id.clone();
        self.bundles.insert(pack.bundle_id.clone(), (pack, time));
        proof {
            assert(self.known_bundles().dom() =~= old(self).known_bundles().dom().insert(id@));
        }
        if node_name.as_str().is_empty() {
            return;
        }
        let blank = RecentNeighbor::new(0, String::new(), Position::NoPos);
        let taken = self.neighbors.replace_value(node_name.as_str(), blank);
        match taken {
            Some(mut n) => {
                n.set_bundle_seen(id, time);
                self.neighbors.insert(node_name, n);
                proof {
                    assert(self.neighbor_map().dom() =~= old(self).neighbor_map().dom());
                }
            },
            None => {},
        }
    }

    /// Whether the bundle was seen less than `seconds` before `now`.
    pub fn was_bundle_seen_at(&self, id: String, seconds: u64, now: u64) -> (r: bool)
        requires
            self.wf(),
        ensures
            r == (self.known_bundles().contains_key(id@)
                && vstd::wrapping::u64_specs::wrapping_sub(now, self.known_bundles()[id@].1)
                < seconds),
    {
        match self.bundles.get(id.as_str()) {
            None => false,
            Some(entry) => now.wrapping_sub(entry.1) < seconds,
        }
    }

    /// Whether the bundle was seen within the last `seconds`.
    pub fn was_bundle_seen(&self, id: String, seconds: u64) -> (r: bool)
        requires
            self.wf(),
        ensures
            exists|now: u64|
                r == (self.known_bundles().contains_key(id@)
                    && #[trigger] vstd::wrapping::u64_specs::wrapping_sub(
                    now,
                    self.known_bundles()[id@].1,
                ) < seconds),
    {
        let now = unix_timestamp();
        let ghost idv = id@;
        let r = self.was_bundle_seen_at(id, seconds, now);
        assert(r == (self.known_bundles().contains_key(idv) && vstd::wrapping::u64_specs::wrapping_sub(
            now,
            self.known_bundles()[idv].1,
        ) < seconds));
        r
    }

    pub fn has_bundle(&self, id: String) -> (r: bool)
        requires
            self.wf(),
        ensures
            r == self.known_bundles().contains_key(id@),
    {
        self.bundles.contains_key(id.as_str())
    }

    /// The positions of the neighbours, in the order of `neighbor_names`.
    pub fn neighbor_positions(&self) -> (r: Vec<Position>)
        requires
            self.wf(),
        ensures
            r@.len() == self.neighbor_names().len(),
            forall|i: int|
                0 <= i < r@.len() ==> #[trigger] r@[i].same(
                    &self.neighbor_map()[self.neighbor_names()[i]].pos,
                ),
    {
        let mut r: Vec<Position> = Vec::new();
        let n = self.neighbors.len();
        let mut i: usize = 0;
        while i < n
            invariant
                self.neighbors.wf(),
                n == self.neighbors.key_seq().len(),
                i <= n,
                r@.len() == i,
                forall|j: int|
                    0 <= j < i ==> #[trigger] r@[j].same(
                        &self.neighbors@[self.neighbors.key_seq()[j]].pos,
                    ),
            decreases n - i,
        {
            let nb = self.neighbors.value_at(i);
            r.push(nb.pos.duplicate());
            i = i + 1;
        }
        r
    }

    /// The retransmission priority of bundle `bndl_id` received from
    /// `sender`: ten times the quadrant distances of the neighbours that may
    /// lack it and lie in another quadrant than the sender. `quad` is the
    /// sender's quadrant and `neighbor_quads` those of the neighbours, in
    /// the order of `neighbor_positions`, all as seen from our position.
    pub fn retransmission_priority(
        &self,
        quad: u32,
        neighbor_quads: &Vec<u32>,
        bndl_id: String,
        sender: String,
    ) -> (prio: i32)
        requires
            self.wf(),
            neighbor_quads@.len() == self.neighbor_names().len(),
        ensures
            prio == vstd::wrapping::i32_specs::wrapping_mul(
                retransmission_sum(
                    self.neighbor_names(),
                    self.neighbor_map(),
                    neighbor_quads@,
                    quad,
                    sender@,
                    self.own_hash(),
                    bndl_id@,
                ),
                10,
            ),
    {
        let bundle_hash = self.bundles_hash();
        let mut prio: i32 = 0;
        let n = self.neighbors.len();
        let mut i: usize = 0;
        while i < n
            invariant
                self.wf(),
                n == self.neighbor_names().len(),
                neighbor_quads@.len() == n,
                i <= n,
                bundle_hash@ == self.own_hash(),
                prio == retransmission_sum(
                    self.neighbor_names().take(i as int),
                    self.neighbor_map(),
                    neighbor_quads@,
                    quad,
                    sender@,
                    self.own_hash(),
                    bndl_id@,
                ),
            decreases n - i,
        {
            let name = self.neighbors.key_at(i);
            let nb = self.neighbors.value_at(i);
            proof {
                assert(self.neighbor_names().take(i + 1).drop_last() =~= self.neighbor_names().take(
                    i as int,
                ));
                assert(self.neighbor_names().take(i + 1)[i as int] == self.neighbor_names()[i as int]);
            }
            let skip = *name == sender || nb.bundle_hash == bundle_hash || nb.has_bundle(
                bndl_id.clone(),
            );
            if !skip {
                let nb_quad = neighbor_quads[i];
                if quad != nb_quad {
                    let dist = quad_distance(quad as i32, nb_quad as i32);
                    prio = prio.wrapping_add(dist);
                }
            }
            i = i + 1;
        }
        proof {
            assert(self.neighbor_names().take(n as int) =~= self.neighbor_names());
        }
        prio.wrapping_mul(10)
    }

    /// The spread value of one bundle over all neighbours.
    fn spread_for(&self, id: &String, own_hash: &String) -> (r: (u64, i32))
        requires
            self.wf(),
        ensures
            r.0 as nat == spread_of(
                self.neighbor_names(),
                self.neighbor_map(),
                own_hash@,
                id@,
                self.settings.spread_priority,
            ).0,
            r.1 == spread_of(
                self.neighbor_names(),
                self.neighbor_map(),
                own_hash@,
                id@,
                self.settings.spread_priority,
            ).1,
    {
        let mut count: u64 = 0;
        let mut value: i32 = 0;
        let n = self.neighbors.len();
        let mut i: usize = 0;
        while i < n
            invariant
                self.wf(),
                n == self.neighbor_names().len(),
                i <= n,
                count <= i,
                count as nat == spread_of(
                    self.neighbor_names().take(i as int),
                    self.neighbor_map(),
                    own_hash@,
                    id@,
                    self.settings.spread_priority,
                ).0,
                value == spread_of(
                    self.neighbor_names().take(i as int),
                    self.neighbor_map(),
                    own_hash@,
                    id@,
                    self.settings.spread_priority,
                ).1,
            decreases n - i,
        {
            let _name = self.neighbors.key_at(i);
            let nb = self.neighbors.value_at(i);
            proof {
                assert(self.neighbor_names().take(i + 1).drop_last() =~= self.neighbor_names().take(
                    i as int,
                ));
                assert(self.neighbor_names().take(i + 1).last() == self.neighbor_names()[i as int]);
            }
            if nb.bundle_hash != *own_hash && !nb.has_bundle(id.clone()) {
                count = count + 1;
                value = value.wrapping_add(self.settings.spread_priority);
            }
            i = i + 1;
        }
        proof {
            assert(self.neighbor_names().take(n as int) =~= self.neighbor_names());
        }
        (count, value)
    }

    /// The bundles worth spreading: each known bundle that some neighbour
    /// with another digest has not been heard with, with the spread
    /// priority it collects, in the order the bundles became known.
    pub fn spreadable_bundles(&self) -> (r: Vec<(BundleRecord, i32)>)
        requires
            self.wf(),
        ensures
            r@.map_values(|p: (BundleRecord, i32)| p.0.bundle_id@) == self.bundle_ids().filter(
                |k: Seq<char>|
                    spread_of(
                        self.neighbor_names(),
                        self.neighbor_map(),
                        self.own_hash(),
                        k,
                        self.settings.spread_priority,
                    ).0 > 0,
            ),
            forall|j: int|
                0 <= j < r@.len() ==> {
                    let k = (#[trigger] r@[j]).0.bundle_id@;
                    &&& r@[j].1 == spread_of(
                        self.neighbor_names(),
                        self.neighbor_map(),
                        self.own_hash(),
                        k,
                        self.settings.spread_priority,
                    ).1
                    &&& r@[j].0.destination@ == self.known_bundles()[k].0.destination@
                    &&& r@[j].0.bundle_data@ == self.known_bundles()[k].0.bundle_data@
                },
    {
        let own_hash = self.bundles_hash();
        let ghost pred = |k: Seq<char>|
            spread_of(
                self.neighbor_names(),
                self.neighbor_map(),
                self.own_hash(),
                k,
                self.settings.spread_priority,
            ).0 > 0;
        let mut r: Vec<(BundleRecord, i32)> = Vec::new();
        let n = self.bundles.len();
        let mut i: usize = 0;
        while i < n
            invariant
                self.wf(),
                n == self.bundle_ids().len(),
                i <= n,
                own_hash@ == self.own_hash(),
                pred == (|k: Seq<char>|
                    spread_of(
                        self.neighbor_names(),
                        self.neighbor_map(),
                        self.own_hash(),
                        k,
                        self.settings.spread_priority,
                    ).0 > 0),
                r@.map_values(|p: (BundleRecord, i32)| p.0.bundle_id@) == self.bundle_ids().take(
                    i as int,
                ).filter(pred),
                forall|j: int|
                    0 <= j < r@.len() ==> {
                        let k = (#[trigger] r@[j]).0.bundle_id@;
                        &&& r@[j].1 == spread_of(
                            self.neighbor_names(),
                            self.neighbor_map(),
                            self.own_hash(),
                            k,
                            self.settings.spread_priority,
                        ).1
                        &&& r@[j].0.destination@ == self.known_bundles()[k].0.destination@
                        &&& r@[j].0.bundle_data@ == self.known_bundles()[k].0.bundle_data@
                    },
            decreases n - i,
        {
            let id = self.bundles.key_at(i);
            let entry = self.bundles.value_at(i);
            proof {
                reveal_with_fuel(Seq::<Seq<char>>::filter, 1);
                assert(self.bundle_ids().take(i + 1).drop_last() =~= self.bundle_ids().take(
                    i as int,
                ));
                assert(self.bundle_ids().take(i + 1).last() == self.bundle_ids()[i as int]);
            }
            let s = self.spread_for(id, &own_hash);
            if s.0 > 0 {
                let rec = BundleRecord {
                    destination: entry.0.destination.clone(),
                    bundle_id: id.clone(),
                    bundle_data: crate::bundlequeue::copy_byte_vec(&entry.0.bundle_data),
                };
                let ghost before = r@;
                r.push((rec, s.1));
                proof {
                    assert(r@.map_values(|p: (BundleRecord, i32)| p.0.bundle_id@) =~= before.map_values(
                        |p: (BundleRecord, i32)| p.0.bundle_id@,
                    ).push(id@));
                }
            }
            i = i + 1;
        }
        proof {
            assert(self.bundle_ids().take(n as int) =~= self.bundle_ids());
        }
        r
    }
}


/// What a neighbour heard in an advertisement is recorded as: its
/// position (none counts as no position), the time, and the bundle digest
/// from the advertised data (empty when missing).
/// How long, in seconds, a bundle handed over for forwarding is not
/// forwarded again.
pub const FORWARD_REPEAT_WINDOW: u64 = 60;

/// Whether the bundle is known and was last seen less than
/// `FORWARD_REPEAT_WINDOW` seconds before `now`.
pub open spec fn passed_recently(
    known: Map<Seq<char>, (BundleRecord, u64)>,
    id: Seq<char>,
    now: u64,
) -> bool {
    known.contains_key(id) && vstd::wrapping::u64_specs::wrapping_sub(now, known[id].1)
        < FORWARD_REPEAT_WINDOW
}

pub open spec fn advertised_hash(adv: Advertise) -> Seq<char> {
    if adv.data@.contains_key(DATA_BUNDLE_HASH_KEY@) {
        adv.data@[DATA_BUNDLE_HASH_KEY@]@
    } else {
        Seq::<char>::empty()
    }
}

pub open spec fn advertised_position(adv: Advertise) -> Position {
    match adv.position {
        Some(p) => p,
        None => Position::NoPos,
    }
}

impl QuadrantCore {
    /// Queues an encoded packet that carries the bundle `bundle_data`.
    pub fn queue_bundle(
        &mut self,
        ctx: &QueueContext<()>,
        priority: i32,
        bundle_data: Vec<u8>,
        meta: BundleProtoMeta,
    ) -> (res: (bool, i32))
        requires
            old(self).wf(),
        ensures
            final(self).wf(),
            final(self).settings == old(self).settings,
            final(self).known_bundles() == old(self).known_bundles(),
            final(self).bundle_ids() == old(self).bundle_ids(),
            final(self).neighbor_map() == old(self).neighbor_map(),
            final(self).neighbor_names() == old(self).neighbor_names(),
            final(self).send_queue.allowers() == old(self).send_queue.allowers(),
            final(self).send_queue.scorers() == old(self).send_queue.scorers(),
            res == old(self).send_queue.spec_priority(
                *ctx,
                priority,
                decoded_bundle(bundle_data@),
                Some(meta),
            ),
            !res.0 ==> final(self).send_queue@ == old(self).send_queue@,
            res.0 ==> push_outcome(
                old(self).send_queue@,
                final(self).send_queue@,
                (QueueEntryView { base_priority: priority, bndl: decoded_bundle(bundle_data@), meta: Some(meta) }),
                res.1,
            ),
    {
        let ghost m = meta;
        let res = self.send_queue.push_buf(ctx, priority, bundle_data, Some(meta));
        proof {
            if res.0 {
                lemma_push_keeps_meta(
                    old(self).send_queue@,
                    self.send_queue@,
                    QueueEntryView { base_priority: priority, bndl: decoded_bundle(bundle_data@), meta: Some(m) },
                    res.1,
                );
            }
        }
        res
    }

    /// Queues an encoded packet that carries no bundle.
    pub fn queue_packet(&mut self, ctx: &QueueContext<()>, priority: i32, meta: BundleProtoMeta) -> (res: (
        bool,
        i32,
    ))
        requires
            old(self).wf(),
        ensures
            final(self).wf(),
            final(self).settings == old(self).settings,
            final(self).known_bundles() == old(self).known_bundles(),
            final(self).bundle_ids() == old(self).bundle_ids(),
            final(self).neighbor_map() == old(self).neighbor_map(),
            final(self).neighbor_names() == old(self).neighbor_names(),
            final(self).send_queue.allowers() == old(self).send_queue.allowers(),
            final(self).send_queue.scorers() == old(self).send_queue.scorers(),
            res == old(self).send_queue.spec_priority(*ctx, priority, None, Some(meta)),
            !res.0 ==> final(self).send_queue@ == old(self).send_queue@,
            res.0 ==> push_outcome(
                old(self).send_queue@,
                final(self).send_queue@,
                (QueueEntryView { base_priority: priority, bndl: None, meta: Some(meta) }),
                res.1,
            ),
    {
        let ghost m = meta;
        let res = self.send_queue.push(ctx, priority, None, Some(meta));
        proof {
            if res.0 {
                lemma_push_keeps_meta(
                    old(self).send_queue@,
                    self.send_queue@,
                    QueueEntryView { base_priority: priority, bndl: None, meta: Some(m) },
                    res.1,
                );
            }
        }
        res
    }

    /// A send tick: rescores the queue and pops up to `send_packets`
    /// packets, returning their encodings in the order popped.
    pub fn send_tick(&mut self, ctx: &QueueContext<()>) -> (sends: Vec<Vec<u8>>)
        requires
            old(self).wf(),
        ensures
            final(self).wf(),
            final(self).settings == old(self).settings,
            final(self).known_bundles() == old(self).known_bundles(),
            final(self).bundle_ids() == old(self).bundle_ids(),
            final(self).neighbor_map() == old(self).neighbor_map(),
            final(self).neighbor_names() == old(self).neighbor_names(),
            final(self).send_queue.allowers() == old(self).send_queue.allowers(),
            final(self).send_queue.scorers() == old(self).send_queue.scorers(),
            exists|mid: Map<u64, (QueueEntryView<BundleProtoMeta>, i32)>, hs: Seq<u64>|
                {
                    &&& old(self).send_queue.rescore_outcome(*ctx, mid)
                    &&& popped_in_order(mid, hs, final(self).send_queue@)
                    &&& hs.len() == sends@.len()
                    &&& final(self).send_queue@.len() + sends@.len() == mid.len()
                    &&& forall|i: int|
                        0 <= i < hs.len() ==> (#[trigger] sends@[i])@
                            == mid[hs[i]].0.meta->0.proto_packet@
                },
            sends@.len() <= (if old(self).settings.send_packets < 0 {
                0
            } else {
                old(self).settings.send_packets as int
            }),
            sends@.len() < old(self).settings.send_packets ==> final(self).send_queue@.dom()
                == Set::<u64>::empty(),
            final(self).send_queue@.len() + sends@.len() <= old(self).send_queue@.len(),
    {
        let n = self.settings.send_packets;
        generate_sends(&mut self.send_queue, ctx, n, true)
    }

    /// Handles a bundle the ECLA asks us to forward: a bundle already
    /// passed less than `FORWARD_REPEAT_WINDOW` seconds before `now` is
    /// skipped; any other is stored as seen at `now` and the packet that
    /// forwards it, sent by us, is returned for queueing with the self
    /// forward priority.
    pub fn on_forward_data(
        &mut self,
        bundle_id: String,
        destination: String,
        data: Vec<u8>,
        own_node_id: String,
        now: u64,
    ) -> (r: Option<Packet>)
        requires
            old(self).wf(),
        ensures
            final(self).wf(),
            final(self).settings == old(self).settings,
            final(self).send_queue == old(self).send_queue,
            final(self).neighbor_map() == old(self).neighbor_map(),
            final(self).neighbor_names() == old(self).neighbor_names(),
            passed_recently(old(self).known_bundles(), bundle_id@, now) ==> r is None
                && final(self).known_bundles() == old(self).known_bundles() && final(self).bundle_ids()
                == old(self).bundle_ids(),
            !passed_recently(old(self).known_bundles(), bundle_id@, now) ==> {
                &&& r matches Some(p) && p.kind == PacketType::TypeBundleForward && (
                p.content matches Some(Content::BundleForward(f)) && f.destination@
                    == destination@ && f.sender@ == own_node_id@ && f.bundle_id@ == bundle_id@
                    && f.bundle_data@ == data@ && f.data@ == Map::<Seq<char>, String>::empty())
                &&& final(self).known_bundles().dom() == old(self).known_bundles().dom().insert(
                    bundle_id@,
                )
                &&& forall|k: Seq<char>|
                    k != bundle_id@ && #[trigger] old(self).known_bundles().contains_key(k)
                        ==> final(self).known_bundles()[k] == old(self).known_bundles()[k]
                &&& final(self).known_bundles()[bundle_id@].0.bundle_id@ == bundle_id@
                &&& final(self).known_bundles()[bundle_id@].0.destination@ == destination@
                &&& final(self).known_bundles()[bundle_id@].0.bundle_data@ == data@
                &&& final(self).known_bundles()[bundle_id@].1 == now
                &&& old(self).known_bundles().contains_key(bundle_id@) ==> final(self).bundle_ids()
                    == old(self).bundle_ids()
                &&& !old(self).known_bundles().contains_key(bundle_id@) ==> final(self).bundle_ids()
                    == old(self).bundle_ids().push(bundle_id@)
            },
    {
        if self.was_bundle_seen_at(bundle_id.clone(), FORWARD_REPEAT_WINDOW, now) {
            return None;
        }
        let packet = Packet::bundle_forward(
            destination.clone(),
            own_node_id,
            bundle_id.clone(),
            crate::bundlequeue::copy_byte_vec(&data),
        );
        let record = BundleRecord { destination, bundle_id, bundle_data: data };
        self.set_bundle_seen(record, String::new(), now);
        Some(packet)
    }

    /// Handles an advertisement heard over LoRa at `now`: one without a
    /// node name is dropped; otherwise its node is recorded as neighbour
    /// with the advertised position and bundle digest.
    pub fn on_advertise(&mut self, adv: Advertise, now: u64) -> (accepted: bool)
        requires
            old(self).wf(),
            adv.data.wf(),
        ensures
            final(self).wf(),
            final(self).settings == old(self).settings,
            final(self).send_queue == old(self).send_queue,
            final(self).known_bundles() == old(self).known_bundles(),
            final(self).bundle_ids() == old(self).bundle_ids(),
            accepted == (adv.node_name@.len() > 0),
            !accepted ==> final(self).neighbor_map() == old(self).neighbor_map(),
            accepted ==> {
                &&& final(self).neighbor_map().dom() == old(self).neighbor_map().dom().insert(
                    adv.node_name@,
                )
                &&& forall|k: Seq<char>|
                    k != adv.node_name@ && #[trigger] old(self).neighbor_map().contains_key(k)
                        ==> final(self).neighbor_map()[k] == old(self).neighbor_map()[k]
                &&& final(self).neighbor_map()[adv.node_name@].bundle_hash@ == advertised_hash(adv)
                &&& final(self).neighbor_map()[adv.node_name@].pos == advertised_position(adv)
                &&& final(self).neighbor_map()[adv.node_name@].last_seen == now
                &&& old(self).neighbor_map().contains_key(adv.node_name@) ==> final(self).neighbor_map()[adv.node_name@].bundles == old(self).neighbor_map()[adv.node_name@].bundles
                &&& !old(self).neighbor_map().contains_key(adv.node_name@) ==> final(self).neighbor_map()[adv.node_name@].bundles@ == Map::<Seq<char>, u64>::empty()
            },
    {
        if adv.node_name.as_str().unicode_len() == 0 {
            return false;
        }
        let hash = match adv.data.get(DATA_BUNDLE_HASH_KEY) {
            Some(h) => h.clone(),
            None => String::new(),
        };
        let pos = match adv.position {
            Some(p) => p,
            None => Position::NoPos,
        };
        let neighbor = RecentNeighbor::new(now, hash, pos);
        self.set_neighbor(adv.node_name, neighbor);
        true
    }

    /// The position of neighbour `sender`, or no position for a node we
    /// have not heard.
    pub fn sender_position(&self, sender: &str) -> (p: Position)
        requires
            self.wf(),
        ensures
            self.neighbor_map().contains_key(sender@) ==> p.same(
                &self.neighbor_map()[sender@].pos,
            ),
            !self.neighbor_map().contains_key(sender@) ==> p == Position::NoPos,
    {
        match self.neighbors.get(sender) {
            Some(n) => n.pos.duplicate(),
            None => Position::NoPos,
        }
    }

    /// Handles a bundle forwarded to us over LoRa at `now`: the bundle is
    /// stored as seen, heard from its sender, and the packet that forwards
    /// it again, sent by us, is returned with its retransmission priority.
    /// `quad` is the sender's quadrant and `neighbor_quads` those of the
    /// neighbours in the order of `neighbor_positions`.
    pub fn on_bundle_forward(
        &mut self,
        packet: BundleForward,
        quad: u32,
        neighbor_quads: &Vec<u32>,
        own_node_id: String,
        now: u64,
    ) -> (r: (i32, Packet))
        requires
            old(self).wf(),
            neighbor_quads@.len() == old(self).neighbor_names().len(),
        ensures
            final(self).wf(),
            final(self).settings == old(self).settings,
            final(self).send_queue == old(self).send_queue,
            final(self).known_bundles().dom() == old(self).known_bundles().dom().insert(
                packet.bundle_id@,
            ),
            final(self).known_bundles()[packet.bundle_id@].0.bundle_id@ == packet.bundle_id@,
            final(self).known_bundles()[packet.bundle_id@].0.destination@ == packet.destination@,
            final(self).known_bundles()[packet.bundle_id@].0.bundle_data@ == packet.bundle_data@,
            final(self).known_bundles()[packet.bundle_id@].1 == now,
            forall|k: Seq<char>|
                k != packet.bundle_id@ && #[trigger] old(self).known_bundles().contains_key(k)
                    ==> final(self).known_bundles()[k] == old(self).known_bundles()[k],
            final(self).neighbor_names() == old(self).neighbor_names(),
            final(self).neighbor_map().dom() == old(self).neighbor_map().dom(),
            forall|k: Seq<char>|
                k != packet.sender@ && #[trigger] old(self).neighbor_map().contains_key(k)
                    ==> final(self).neighbor_map()[k] == old(self).neighbor_map()[k],
            (packet.sender@.len() > 0 && old(self).neighbor_map().contains_key(packet.sender@))
                ==> final(self).neighbor_map()[packet.sender@].bundles@ == old(self).neighbor_map()[packet.sender@].bundles@.insert(packet.bundle_id@, now),
            r.0 == vstd::wrapping::i32_specs::wrapping_mul(
                retransmission_sum(
                    final(self).neighbor_names(),
                    final(self).neighbor_map(),
                    neighbor_quads@,
                    quad,
                    packet.sender@,
                    final(self).own_hash(),
                    packet.bundle_id@,
                ),
                10,
            ),
            r.1.kind == PacketType::TypeBundleForward,
            r.1.content matches Some(Content::BundleForward(f)) && f.destination@
                == packet.destination@ && f.sender@ == own_node_id@ && f.bundle_id@
                == packet.bundle_id@ && f.bundle_data@ == packet.bundle_data@ && f.data@ == Map::<
                Seq<char>,
                String,
            >::empty(),
    {
        let sender = packet.sender.clone();
        let id = packet.bundle_id.clone();
        let out = Packet::bundle_forward(
            packet.destination.clone(),
            own_node_id,
            packet.bundle_id.clone(),
            crate::bundlequeue::copy_byte_vec(&packet.bundle_data),
        );
        let record = BundleRecord::from_bundle_forward(packet);
        self.set_bundle_seen(record, sender.clone(), now);
        let priority = self.retransmission_priority(quad, neighbor_quads, id, sender);
        (priority, out)
    }

    /// The advertisement of this node: its name, its position and, as data,
    /// the digest of its bundles and its position as text; none while it
    /// has no node name.
    pub fn advertise_packet(&self, own_node_id: String, position: Position, position_text: String) -> (r:
        Option<Packet>)
        requires
            self.wf(),
        ensures
            own_node_id@.len() == 0 ==> r is None,
            own_node_id@.len() > 0 ==> (r matches Some(p) && p.kind == PacketType::TypeAdvertise
                && (p.content matches Some(Content::Advertise(a)) && a.node_name == own_node_id
                && a.position == Some(position) && a.data.wf() && a.data@.dom() == set![
                DATA_BUNDLE_HASH_KEY@,
                DATA_POS_KEY@,
            ] && a.data@[DATA_BUNDLE_HASH_KEY@]@ == self.own_hash()
                && a.data@[DATA_POS_KEY@]@ == position_text@)),
    {
        if own_node_id.as_str().unicode_len() == 0 {
            return None;
        }
        let hash = self.bundles_hash();
        let mut data: StrMap<String> = StrMap::new();
        data.insert(DATA_BUNDLE_HASH_KEY.to_owned(), hash);
        data.insert(DATA_POS_KEY.to_owned(), position_text);
        proof {
            reveal_strlit("BH");
            reveal_strlit("P");
            assert(DATA_BUNDLE_HASH_KEY@ == "BH"@);
            assert(DATA_POS_KEY@ == "P"@);
            assert(DATA_BUNDLE_HASH_KEY@.len() != DATA_POS_KEY@.len());
            assert(data@.dom() =~= set![DATA_BUNDLE_HASH_KEY@, DATA_POS_KEY@]);
        }
        Some(Packet::advertise(own_node_id, position, data))
    }
}

/// What `StdRng::seed_from_u64(seed).gen_range(0..max)` of rand gives:
/// the first number below `max` drawn from the generator seeded with `seed`.
pub uninterp spec fn seeded_pick(seed: u64, max: u32) -> u32;

/// `rand::rngs::StdRng::seed_from_u64(seed)` and one `gen_range(0..max)`:
/// a number below `max`, the same for the same seed and bound.
#[verifier::external_body]
fn seeded_below(seed: u64, max: u32) -> (r: u32)
    requires
        max > 0,
    ensures
        r == seeded_pick(seed, max),
        r < max,
{
    let mut rnd = <rand::rngs::StdRng as rand::SeedableRng>::seed_from_u64(seed);
    rand::Rng::gen_range(&mut rnd, 0..max)
}

/// The seconds the sending of this node is offset by: none without a
/// maximum delay; else between 1 and `random_delay_max`, drawn from a
/// generator seeded with the hash of the node id, so that each node keeps
/// its own offset.
pub fn send_offset(own_node_id: &String, random_delay_max: u32) -> (offset: u64)
    ensures
        random_delay_max == 0 ==> offset == 0,
        random_delay_max > 0 ==> offset == 1 + seeded_pick(default_hash(own_node_id@), random_delay_max),
        random_delay_max > 0 ==> 1 <= offset <= random_delay_max,
{
    if random_delay_max == 0 {
        return 0;
    }
    let seed = hash_string(own_node_id);
    1 + seeded_below(seed, random_delay_max) as u64
}

} // verus!
