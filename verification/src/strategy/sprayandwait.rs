//! Spray and wait routing: a bundle of this node may be handed out a number
//! of times, a foreign one once; after that only direct delivery remains.
use crate::bundlequeue::{
    copy_byte_vec,
    decode_bundle,
    decoded_bundle,
    opt_bundle_view,
    pop_outcome,
    push_step,
    rescored,
    Allower,
    Bundle,
    BundleQueue,
    BundleView,
    QueueContext,
    QueueEntryView,
    Scorer,
};
use crate::protocol::{Content, Packet, PacketType};
use crate::global::{age_secs, Peer, PeerTable};
use crate::strategy::proto::{age_steps, lemma_pop_extends, lemma_popped_len, popped_in_order, BundleProtoMeta};
use crate::strmap::StrMap;
use crate::text::{contains_string, is_prefix, starts_with, string_views};
use vstd::prelude::*;

verus! {

/// What is known of a bundle being sprayed.
pub struct SaWBundleData {
    /// the number of copies we have left to spread
    pub remaining_copies: usize,
    /// the bundle to send
    pub bundle: Bundle,
    /// the list of nodes that have already received the bundle
    pub nodes: Vec<String>,
}

/// What the rules of the spray and wait queue read: the bundle history and
/// the peers heard of.
pub struct SawContext {
    history: StrMap<SaWBundleData>,
    peers: PeerTable,
}

impl SawContext {
    #[verifier::type_invariant]
    spec fn inv(self) -> bool {
        self.history.wf() && self.peers.wf()
    }

    pub closed spec fn history_map(&self) -> Map<Seq<char>, SaWBundleData> {
        self.history@
    }

    pub closed spec fn peer_table(&self) -> PeerTable {
        self.peers
    }

    pub fn new(history: StrMap<SaWBundleData>, peers: PeerTable) -> (c: SawContext)
        requires
            history.wf(),
            peers.wf(),
        ensures
            c.history_map() == history@,
            c.peer_table() == peers,
    {
        SawContext { history, peers }
    }

    pub fn history(&self) -> (h: &StrMap<SaWBundleData>)
        ensures
            h.wf(),
            h@ == self.history_map(),
    {
        proof {
            use_type_invariant(self);
        }
        &self.history
    }

    pub fn peers(&self) -> (p: &PeerTable)
        ensures
            p.wf(),
            *p == self.peer_table(),
    {
        proof {
            use_type_invariant(self);
        }
        &self.peers
    }

    /// Takes the context apart.
    pub fn into_parts(self) -> (r: (StrMap<SaWBundleData>, PeerTable))
        ensures
            r.0.wf(),
            r.1.wf(),
            r.0@ == self.history_map(),
            r.1 == self.peer_table(),
    {
        proof {
            use_type_invariant(&self);
        }
        (self.history, self.peers)
    }
}

/// A peer that may still take a copy: heard of at most `max_age` seconds
/// ago and not among the nodes that have the bundle.
pub open spec fn fresh_peer(
    peers: Map<Seq<char>, Peer>,
    nodes: Seq<Seq<char>>,
    now: u64,
    max_age: u64,
    k: Seq<char>,
) -> bool {
    &&& peers.contains_key(k)
    &&& !(age_secs(now, peers[k].last_seen) > max_age)
    &&& !nodes.contains(k)
}

/// Allows bundles with copies left while a peer without them is around, and
/// scores packets by the half minutes they have waited.
pub struct SaWAllowScore {
    max_peer_age: i32,
}

impl SaWAllowScore {
    pub closed spec fn max_age(&self) -> i32 {
        self.max_peer_age
    }

    pub fn new(max_peer_age: i32) -> (r: SaWAllowScore)
        ensures
            r.max_age() == max_peer_age,
    {
        SaWAllowScore { max_peer_age }
    }
}

impl Allower<BundleProtoMeta, SawContext> for SaWAllowScore {
    /// Entries without bundle and bundles without history pass; a bundle in
    /// the history passes when it has copies left and some peer may still
    /// take one.
    open spec fn allows(
        &self,
        ctx: QueueContext<SawContext>,
        bndl: Option<BundleView>,
        meta: Option<BundleProtoMeta>,
    ) -> bool {
        match bndl {
            None => true,
            Some(b) => {
                let h = ctx.extra.history_map();
                if h.contains_key(b.id) {
                    let d = h[b.id];
                    &&& d.remaining_copies != 0
                    &&& exists|k: Seq<char>|
                        #[trigger] fresh_peer(
                            ctx.extra.peer_table().view_peers(),
                            string_views(d.nodes@),
                            ctx.now,
                            self.max_age() as u64,
                            k,
                        )
                } else {
                    true
                }
            },
        }
    }

    fn allow(
        &self,
        ctx: &QueueContext<SawContext>,
        bndl: &Option<Bundle>,
        meta: &Option<BundleProtoMeta>,
    ) -> (r: bool) {
        match bndl {
            None => true,
            Some(b) => {
                let history = ctx.extra.history();
                match history.get(b.id.as_str()) {
                    None => true,
                    Some(his) => {
                        if his.remaining_copies == 0 {
                            return false;
                        }
                        let peers = ctx.extra.peers();
                        let max_age = self.max_peer_age as u64;
                        let n = peers.len();
                        let mut i: usize = 0;
                        while i < n
                            invariant
                                peers.wf(),
                                *peers == ctx.extra.peer_table(),
                                *bndl == Some(*b),
                                ctx.extra.history_map().contains_key(b.id@),
                                *his == ctx.extra.history_map()[b.id@],
                                his.remaining_copies != 0,
                                max_age == self.max_age() as u64,
                                n == peers.names().len(),
                                i <= n,
                                forall|j: int|
                                    0 <= j < i ==> !fresh_peer(
                                        peers.view_peers(),
                                        string_views(his.nodes@),
                                        ctx.now,
                                        max_age,
                                        #[trigger] peers.names()[j],
                                    ),
                            decreases n - i,
                        {
                            let name = peers.name_at(i);
                            let p = peers.peer_at(i);
                            if !(p.last_seen_secs_at(ctx.now) > max_age) && !contains_string(
                                &his.nodes,
                                name,
                            ) {
                                assert(fresh_peer(
                                    peers.view_peers(),
                                    string_views(his.nodes@),
                                    ctx.now,
                                    max_age,
                                    name@,
                                ));
                                return true;
                            }
                            i = i + 1;
                        }
                        proof {
                            peers.lemma_names();
                            assert forall|k: Seq<char>|
                                !#[trigger] fresh_peer(
                                    peers.view_peers(),
                                    string_views(his.nodes@),
                                    ctx.now,
                                    max_age,
                                    k,
                                ) by {
                                if peers.view_peers().contains_key(k) {
                                    let j = choose|j: int|
                                        0 <= j < peers.names().len() && peers.names()[j] == k;
                                }
                            }
                        }
                        false
                    },
                }
            },
        }
    }
}

/// Spray and wait queues a bundle of its history only while it has copies
/// left and some peer heard of within the maximum age has not been handed
/// it yet: a bundle whose every recent peer is among its nodes is refused.
pub proof fn law_saw_admits_only_for_new_peers(
    rule: SaWAllowScore,
    ctx: QueueContext<SawContext>,
    b: BundleView,
    meta: Option<BundleProtoMeta>,
)
    requires
        ctx.extra.history_map().contains_key(b.id),
    ensures
        rule.allows(ctx, Some(b), meta) <==> {
            let d = ctx.extra.history_map()[b.id];
            let peers = ctx.extra.peer_table().view_peers();
            &&& d.remaining_copies > 0
            &&& exists|k: Seq<char>|
                #[trigger] peers.contains_key(k) && age_secs(ctx.now, peers[k].last_seen)
                    <= rule.max_age() as u64 && !string_views(d.nodes@).contains(k)
        },
{
    let d = ctx.extra.history_map()[b.id];
    let peers = ctx.extra.peer_table().view_peers();
    let nodes = string_views(d.nodes@);
    let age = rule.max_age() as u64;
    if exists|k: Seq<char>| #[trigger] fresh_peer(peers, nodes, ctx.now, age, k) {
        let k = choose|k: Seq<char>| #[trigger] fresh_peer(peers, nodes, ctx.now, age, k);
        assert(peers.contains_key(k));
    }
    if exists|k: Seq<char>|
        #[trigger] peers.contains_key(k) && age_secs(ctx.now, peers[k].last_seen) <= age
            && !nodes.contains(k) {
        let k = choose|k: Seq<char>|
            #[trigger] peers.contains_key(k) && age_secs(ctx.now, peers[k].last_seen) <= age
                && !nodes.contains(k);
        assert(fresh_peer(peers, nodes, ctx.now, age, k));
    }
}

/// On the spray and wait queue, pushing a bundle of the history that every
/// recently heard peer already has, or that has no copies left, is refused:
/// the push answers `(false, 0)` and queues nothing.
pub proof fn law_saw_push_refused_when_no_new_peer(
    q: SaWQueue,
    ctx: QueueContext<SawContext>,
    base_priority: i32,
    b: BundleView,
    meta: Option<BundleProtoMeta>,
)
    requires
        q.allowers().len() == 1,
        ctx.extra.history_map().contains_key(b.id),
        ({
            let d = ctx.extra.history_map()[b.id];
            let peers = ctx.extra.peer_table().view_peers();
            d.remaining_copies == 0 || forall|k: Seq<char>|
                #[trigger] peers.contains_key(k) && age_secs(ctx.now, peers[k].last_seen)
                    <= q.allowers()[0].max_age() as u64 ==> string_views(d.nodes@).contains(k)
        }),
    ensures
        q.spec_priority(ctx, base_priority, Some(b), meta) == (false, 0i32),
{
    law_saw_admits_only_for_new_peers(q.allowers()[0], ctx, b, meta);
    reveal_with_fuel(crate::bundlequeue::all_allow, 2);
}

impl Scorer<BundleProtoMeta, SawContext> for SaWAllowScore {
    /// Packets score the half minutes they have waited.
    open spec fn score_of(
        &self,
        ctx: QueueContext<SawContext>,
        bndl: Option<BundleView>,
        meta: Option<BundleProtoMeta>,
    ) -> i32 {
        match meta {
            None => 0,
            Some(m) => age_steps(ctx.now, m.queued, 30),
        }
    }

    fn score(
        &self,
        ctx: &QueueContext<SawContext>,
        bndl: &Option<Bundle>,
        meta: &Option<BundleProtoMeta>,
    ) -> (r: i32) {
        match meta {
            None => 0,
            Some(m) => (ctx.now.wrapping_sub(m.queued) / 30) as i32,
        }
    }
}

/// The copies a new bundle gets: all `max_copies` for bundles of this node
/// (their id starts with our node id), one for foreign ones.
pub open spec fn initial_copies(bundle_id: Seq<char>, own_node_id: Seq<char>, max_copies: usize) -> usize {
    if is_prefix(own_node_id, bundle_id) {
        max_copies
    } else {
        1
    }
}

/// The history after bundle `bundle_id` was passed to us: a bundle it holds
/// is left as it is; a new one joins with its initial copies and no nodes.
pub open spec fn new_bundle_outcome(
    before: Map<Seq<char>, SaWBundleData>,
    after: Map<Seq<char>, SaWBundleData>,
    bundle: Bundle,
    bundle_id: Seq<char>,
    max_copies: usize,
    own_node_id: Seq<char>,
) -> bool {
    &&& before.contains_key(bundle_id) ==> after == before
    &&& !before.contains_key(bundle_id) ==> {
        &&& after.dom() == before.dom().insert(bundle_id)
        &&& forall|k: Seq<char>|
            k != bundle_id && #[trigger] before.contains_key(k) ==> after[k] == before[k]
        &&& after[bundle_id].remaining_copies == initial_copies(bundle_id, own_node_id, max_copies)
        &&& after[bundle_id].bundle == bundle
        &&& after[bundle_id].nodes@.len() == 0
    }
}

/// Passing the same bundle a second time changes nothing: the history
/// after two passes is the history after the first.
pub proof fn law_new_bundle_idempotent(
    h0: Map<Seq<char>, SaWBundleData>,
    h1: Map<Seq<char>, SaWBundleData>,
    h2: Map<Seq<char>, SaWBundleData>,
    bundle: Bundle,
    again: Bundle,
    bundle_id: Seq<char>,
    max_copies: usize,
    own_node_id: Seq<char>,
)
    requires
        new_bundle_outcome(h0, h1, bundle, bundle_id, max_copies, own_node_id),
        new_bundle_outcome(h1, h2, again, bundle_id, max_copies, own_node_id),
    ensures
        h2 == h1,
        h1.contains_key(bundle_id),
{
}

/// Records a bundle passed to us; a bundle already in the history is left
/// as it is.
pub fn handle_new_bundle(
    history: &mut StrMap<SaWBundleData>,
    bundle: Bundle,
    bundle_id: String,
    max_copies: usize,
    own_node_id: &String,
)
    requires
        old(history).wf(),
    ensures
        final(history).wf(),
        new_bundle_outcome(old(history)@, final(history)@, bundle, bundle_id@, max_copies, own_node_id@),
        saw_history_step(old(history)@, final(history)@),
{
    if history.contains_key(bundle_id.as_str()) {
        proof {
            assert(new_bundle_outcome(history@, history@, bundle, bundle_id@, max_copies, own_node_id@));
        }
        return;
    }
    let copies = if starts_with(bundle_id.as_str(), own_node_id.as_str()) {
        max_copies
    } else {
        1
    };
    let meta = SaWBundleData { remaining_copies: copies, bundle, nodes: Vec::new() };
    let ghost idv = bundle_id@;
    history.insert(bundle_id, meta);
    proof {
        assert(history@.dom() =~= old(history)@.dom().insert(idv));
        assert(new_bundle_outcome(old(history)@, history@, bundle, idv, max_copies, own_node_id@));
    }
}

/// The history after bundle `bundle_id` came back from node `node_id`:
/// the first time from that node it counts as an acknowledgement, using up
/// a copy and adding the node to those that have the bundle; otherwise, and
/// for a bundle not in the history, nothing changes.
pub open spec fn received_outcome(
    before: Map<Seq<char>, SaWBundleData>,
    after: Map<Seq<char>, SaWBundleData>,
    bundle_id: Seq<char>,
    node_id: Seq<char>,
) -> bool {
    &&& after.dom() == before.dom()
    &&& forall|k: Seq<char>|
        k != bundle_id && #[trigger] before.contains_key(k) ==> after[k] == before[k]
    &&& before.contains_key(bundle_id) ==> {
        let b = before[bundle_id];
        let a = after[bundle_id];
        if string_views(b.nodes@).contains(node_id) {
            a == b
        } else {
            &&& a.remaining_copies == b.remaining_copies - 1
            &&& a.bundle == b.bundle
            &&& string_views(a.nodes@) == string_views(b.nodes@).push(node_id)
        }
    }
}

/// If we receive a bundle we already have we treat it like a
/// acknowledgement and reduce the remaining copies.
pub fn handle_received(history: &mut StrMap<SaWBundleData>, bundle_id: String, node_id: String)
    requires
        old(history).wf(),
        old(history)@.contains_key(bundle_id@) && !string_views(
            old(history)@[bundle_id@].nodes@,
        ).contains(node_id@) ==> old(history)@[bundle_id@].remaining_copies > 0,
    ensures
        final(history).wf(),
        received_outcome(old(history)@, final(history)@, bundle_id@, node_id@),
        saw_history_step(old(history)@, final(history)@),
{
    let ghost idv = bundle_id@;
    let ghost nodev = node_id@;
    match history.remove(bundle_id.as_str()) {
        None => {
            proof {
                assert(history@ =~= old(history)@);
            }
        },
        Some(meta) => {
            if contains_string(&meta.nodes, &node_id) {
                history.insert(bundle_id, meta);
            } else {
                let mut nodes = meta.nodes;
                let ghost before = nodes@;
                nodes.push(node_id);
                proof {
                    assert(string_views(nodes@) =~= string_views(before).push(node_id@));
                }
                let updated = SaWBundleData {
                    remaining_copies: meta.remaining_copies - 1,
                    bundle: meta.bundle,
                    nodes,
                };
                history.insert(bundle_id, updated);
            }
            proof {
                assert(history@.dom() =~= old(history)@.dom());
            }
        },
    }
    proof {
        assert(received_outcome(old(history)@, history@, idv, nodev));
    }
}

/// `nodes` with each of `names` appended that is not yet among them.
pub open spec fn add_new_nodes(nodes: Seq<Seq<char>>, names: Seq<Seq<char>>) -> Seq<Seq<char>>
    decreases names.len(),
{
    if names.len() == 0 {
        nodes
    } else {
        let n = add_new_nodes(nodes, names.drop_last());
        if n.contains(names.last()) {
            n
        } else {
            n.push(names.last())
        }
    }
}

/// Appends each of `names` that is not yet among `nodes`.
fn add_nodes(nodes: &mut Vec<String>, names: Vec<String>)
    ensures
        string_views(final(nodes)@) == add_new_nodes(string_views(old(nodes)@), string_views(names@)),
{
    let mut i: usize = 0;
    while i < names.len()
        invariant
            i <= names@.len(),
            string_views(nodes@) == add_new_nodes(
                string_views(old(nodes)@),
                string_views(names@).take(i as int),
            ),
        decreases names@.len() - i,
    {
        proof {
            assert(string_views(names@).take(i + 1).drop_last() =~= string_views(names@).take(
                i as int,
            ));
            assert(string_views(names@).take(i + 1).last() == names@[i as int]@);
        }
        if !contains_string(nodes, &names[i]) {
            let ghost before = nodes@;
            nodes.push(names[i].clone());
            proof {
                assert(string_views(nodes@) =~= string_views(before).push(names@[i as int]@));
            }
        }
        i = i + 1;
    }
    proof {
        assert(string_views(names@).take(names@.len() as int) =~= string_views(names@));
    }
}

/// A popped bundle is sent when it has two or more copies left, or, with
/// one left, when its destination has been heard of within `max_peer_age`.
pub open spec fn copy_goes_out(
    d: SaWBundleData,
    peers: PeerTable,
    destination: Seq<char>,
    max_peer_age: i32,
    now: u64,
) -> bool {
    d.remaining_copies >= 2 || peers.seen(destination, max_peer_age as u64, now)
}

/// Decides on a bundle popped from the send queue at `now`: it goes out
/// when it has two or more copies left or, for the last copy, when its
/// destination was heard of recently; then one copy is used up and the
/// recent peers count as having it. Bundles without history do not go out.
pub fn take_copy(
    history: &mut StrMap<SaWBundleData>,
    peers: &PeerTable,
    bndl_id: &String,
    destination: &String,
    max_peer_age: i32,
    now: u64,
) -> (send: bool)
    requires
        old(history).wf(),
        peers.wf(),
        old(history)@.contains_key(bndl_id@) && copy_goes_out(
            old(history)@[bndl_id@],
            *peers,
            destination@,
            max_peer_age,
            now,
        ) ==> old(history)@[bndl_id@].remaining_copies > 0,
    ensures
        final(history).wf(),
        final(history)@.dom() == old(history)@.dom(),
        forall|k: Seq<char>|
            k != bndl_id@ && #[trigger] old(history)@.contains_key(k) ==> final(history)@[k]
                == old(history)@[k],
        !old(history)@.contains_key(bndl_id@) ==> !send,
        old(history)@.contains_key(bndl_id@) ==> {
            let before = old(history)@[bndl_id@];
            let after = final(history)@[bndl_id@];
            &&& send == copy_goes_out(before, *peers, destination@, max_peer_age, now)
            &&& !send ==> after == before
            &&& send ==> {
                &&& after.remaining_copies == before.remaining_copies - 1
                &&& after.bundle == before.bundle
                &&& string_views(after.nodes@) == add_new_nodes(
                    string_views(before.nodes@),
                    peers.recent_names(now, max_peer_age as u64),
                )
            }
        },
{
    match history.remove(bndl_id.as_str()) {
        None => {
            proof {
                assert(history@ =~= old(history)@);
            }
            false
        },
        Some(his) => {
            let go = his.remaining_copies >= 2 || peers.has_seen_peer_at(
                destination.as_str(),
                max_peer_age as u64,
                now,
            );
            if go {
                let mut nodes = his.nodes;
                let names = peers.peer_names_at(max_peer_age as u64, now);
                add_nodes(&mut nodes, names);
                let updated = SaWBundleData {
                    remaining_copies: his.remaining_copies - 1,
                    bundle: his.bundle,
                    nodes,
                };
                history.insert(bndl_id.clone(), updated);
            } else {
                history.insert(bndl_id.clone(), his);
            }
            proof {
                assert(history@.dom() =~= old(history)@.dom());
            }
            go
        },
    }
}

/// The bundles of the history that have copies left, with their ids, in the
/// order of the history.
pub fn sendable_bundles(history: &StrMap<SaWBundleData>) -> (r: Vec<(String, Bundle)>)
    requires
        history.wf(),
    ensures
        r@.map_values(|p: (String, Bundle)| p.0@) == history.key_seq().filter(
            |k: Seq<char>| history@[k].remaining_copies > 0,
        ),
        forall|j: int|
            0 <= j < r@.len() ==> (#[trigger] r@[j]).1@ == history@[r@[j].0@].bundle@,
{
    let ghost pred = |k: Seq<char>| history@[k].remaining_copies > 0;
    let mut r: Vec<(String, Bundle)> = Vec::new();
    let n = history.len();
    let mut i: usize = 0;
    while i < n
        invariant
            history.wf(),
            n == history.key_seq().len(),
            i <= n,
            pred == (|k: Seq<char>| history@[k].remaining_copies > 0),
            r@.map_values(|p: (String, Bundle)| p.0@) == history.key_seq().take(i as int).filter(
                pred,
            ),
            forall|j: int|
                0 <= j < r@.len() ==> (#[trigger] r@[j]).1@ == history@[r@[j].0@].bundle@,
        decreases n - i,
    {
        let k = history.key_at(i);
        let d = history.value_at(i);
        proof {
            reveal_with_fuel(Seq::<Seq<char>>::filter, 1);
            assert(history.key_seq().take(i + 1).drop_last() =~= history.key_seq().take(i as int));
            assert(history.key_seq().take(i + 1).last() == history.key_seq()[i as int]);
        }
        if d.remaining_copies > 0 {
            let ghost before = r@;
            r.push((k.clone(), d.bundle.duplicate()));
            proof {
                assert(r@.map_values(|p: (String, Bundle)| p.0@) =~= before.map_values(
                    |p: (String, Bundle)| p.0@,
                ).push(k@));
            }
        }
        i = i + 1;
    }
    proof {
        assert(history.key_seq().take(n as int) =~= history.key_seq());
    }
    r
}

/// The send queue of the spray and wait strategy.
pub type SaWQueue = BundleQueue<BundleProtoMeta, SawContext, SaWAllowScore, SaWAllowScore>;

/// The send queue of the strategy, empty, with the spray and wait rule as
/// its one allower and its one scorer.
pub fn saw_queue(max_peer_age: i32) -> (q: SaWQueue)
    ensures
        q.wf(),
        q@ == Map::<u64, (QueueEntryView<BundleProtoMeta>, i32)>::empty(),
        q.allowers().len() == 1,
        q.allowers()[0].max_age() == max_peer_age,
        q.scorers().len() == 1,
        q.scorers()[0].max_age() == max_peer_age,
{
    let mut q: SaWQueue = BundleQueue::new();
    q.add_allower(SaWAllowScore::new(max_peer_age));
    q.add_scorer(SaWAllowScore::new(max_peer_age));
    q
}

/// The entry a send tick queues for a bundle: base priority 0, the bundle
/// and the packet that forwards it.
pub open spec fn tick_entry(item: (Bundle, BundleProtoMeta)) -> QueueEntryView<BundleProtoMeta> {
    QueueEntryView { base_priority: 0, bndl: Some(item.0@), meta: Some(item.1) }
}

/// The first part of a send tick: each bundle of `items` is pushed in turn
/// with base priority 0 and its forward packet, then the whole queue is
/// rescored under the tick's context.
pub fn saw_enqueue_and_rescore(
    queue: &mut SaWQueue,
    ctx: &QueueContext<SawContext>,
    items: Vec<(Bundle, BundleProtoMeta)>,
)
    requires
        old(queue).wf(),
    ensures
        final(queue).wf(),
        final(queue).allowers() == old(queue).allowers(),
        final(queue).scorers() == old(queue).scorers(),
        exists|qs: Seq<Map<u64, (QueueEntryView<BundleProtoMeta>, i32)>>|
            {
                &&& qs.len() == items@.len() + 1
                &&& qs[0] == old(queue)@
                &&& forall|i: int|
                    0 <= i < items@.len() ==> push_step(
                        old(queue).allowers(),
                        old(queue).scorers(),
                        *ctx,
                        #[trigger] qs[i],
                        qs[i + 1],
                        tick_entry(items@[i]),
                    )
                &&& rescored(
                    old(queue).allowers(),
                    old(queue).scorers(),
                    *ctx,
                    qs.last(),
                    final(queue)@,
                )
            },
{
    let ghost all = items@;
    let n = items.len();
    let ghost mut qs: Seq<Map<u64, (QueueEntryView<BundleProtoMeta>, i32)>> = seq![queue@];
    let mut rest = items;
    let mut i: usize = 0;
    while i < n
        invariant
            queue.wf(),
            queue.allowers() == old(queue).allowers(),
            queue.scorers() == old(queue).scorers(),
            i <= all.len(),
            all.len() == n,
            rest@ == all.skip(i as int),
            qs.len() == i + 1,
            qs[0] == old(queue)@,
            qs.last() == queue@,
            forall|j: int|
                0 <= j < i ==> push_step(
                    old(queue).allowers(),
                    old(queue).scorers(),
                    *ctx,
                    #[trigger] qs[j],
                    qs[j + 1],
                    tick_entry(all[j]),
                ),
        decreases n - i,
    {
        let item = rest.remove(0);
        proof {
            assert(item == all[i as int]);
            assert(rest@ =~= all.skip(i + 1));
        }
        let (bundle, meta) = item;
        let _ = queue.push(ctx, 0, Some(bundle), Some(meta));
        proof {
            let q1 = qs;
            qs = qs.push(queue@);
            assert forall|j: int|
                0 <= j < i + 1 implies push_step(
                old(queue).allowers(),
                old(queue).scorers(),
                *ctx,
                #[trigger] qs[j],
                qs[j + 1],
                tick_entry(all[j]),
            ) by {
                if j < i {
                    assert(qs[j] == q1[j] && qs[j + 1] == q1[j + 1]);
                }
            }
        }
        i = i + 1;
    }
    proof {
        assert(i == all.len());
    }
    queue.rescore(ctx);
}

/// The packet that sends a bundle of the history: forwarded by us to the
/// node of its destination; none for a bundle whose destination names no
/// node.
pub fn saw_forward_packet(bundle_id: &String, bundle: &Bundle, own_node_id: &String) -> (r: Option<
    Packet,
>)
    ensures
        bundle.destination_node is None ==> r is None,
        bundle.destination_node matches Some(d) ==> (r matches Some(p) && p.kind
            == PacketType::TypeBundleForward && (p.content matches Some(Content::BundleForward(f))
            && f.destination@ == d@ && f.sender@ == own_node_id@ && f.bundle_id@ == bundle_id@
            && f.bundle_data@ == bundle.cbor@ && f.data@ == Map::<Seq<char>, String>::empty())),
{
    match &bundle.destination_node {
        None => None,
        Some(d) => Some(
            Packet::bundle_forward(
                d.clone(),
                own_node_id.clone(),
                bundle_id.clone(),
                copy_byte_vec(&bundle.cbor),
            ),
        ),
    }
}

/// Handles a bundle the ECLA asks us to forward: its bytes are decoded and
/// it joins the history as [`handle_new_bundle`] does. Returns false, with
/// the history unchanged, for bytes that are no bundle.
pub fn saw_on_forward_data(
    history: &mut StrMap<SaWBundleData>,
    bundle_id: String,
    data: &Vec<u8>,
    max_copies: usize,
    own_node_id: &String,
) -> (ok: bool)
    requires
        old(history).wf(),
    ensures
        final(history).wf(),
        ok == decoded_bundle(data@) is Some,
        !ok ==> final(history)@ == old(history)@,
        ok ==> exists|b: Bundle|
            Some(b@) == decoded_bundle(data@) && #[trigger] new_bundle_outcome(
                old(history)@,
                final(history)@,
                b,
                bundle_id@,
                max_copies,
                own_node_id@,
            ),
{
    match decode_bundle(data) {
        None => false,
        Some(b) => {
            handle_new_bundle(history, b, bundle_id, max_copies, own_node_id);
            true
        },
    }
}

/// What is known of a bundle being sprayed, as values.
pub struct SaWView {
    pub remaining_copies: usize,
    pub bundle: BundleView,
    pub nodes: Seq<Seq<char>>,
}

pub open spec fn saw_view(d: SaWBundleData) -> SaWView {
    SaWView { remaining_copies: d.remaining_copies, bundle: d.bundle@, nodes: string_views(d.nodes@) }
}

/// The history as values.
pub open spec fn history_view(h: Map<Seq<char>, SaWBundleData>) -> Map<Seq<char>, SaWView> {
    h.map_values(|d: SaWBundleData| saw_view(d))
}

pub open spec fn opt_bytes(s: Option<Vec<u8>>) -> Option<Seq<u8>> {
    match s {
        Some(v) => Some(v@),
        None => None,
    }
}

/// The decision on one popped entry and the history after it: a packet
/// without bundle goes out; a bundle's packet goes out when the bundle is in
/// the history with copies left, names a destination node, and has two or
/// more copies or a destination seen within `max_peer_age`; then one copy is
/// used up and the recent peers join its nodes.
pub open spec fn decide_spec(
    h: Map<Seq<char>, SaWView>,
    peers: PeerTable,
    bndl: Option<BundleView>,
    meta: Option<BundleProtoMeta>,
    max_peer_age: i32,
    now: u64,
) -> (Option<Seq<u8>>, Map<Seq<char>, SaWView>) {
    match meta {
        None => (None, h),
        Some(m) => match bndl {
            None => (Some(m.proto_packet@), h),
            Some(b) => match b.destination_node {
                None => (None, h),
                Some(dest) => if h.contains_key(b.id) && h[b.id].remaining_copies > 0 && (
                h[b.id].remaining_copies >= 2 || peers.seen(dest, max_peer_age as u64, now)) {
                    let d = h[b.id];
                    (
                        Some(m.proto_packet@),
                        h.insert(
                            b.id,
                            SaWView {
                                remaining_copies: (d.remaining_copies - 1) as usize,
                                bundle: d.bundle,
                                nodes: add_new_nodes(
                                    d.nodes,
                                    peers.recent_names(now, max_peer_age as u64),
                                ),
                            },
                        ),
                    )
                } else {
                    (None, h)
                },
            },
        },
    }
}

/// `add_new_nodes` keeps every node and adds every name, nothing else.
proof fn lemma_add_new_nodes_contains(nodes: Seq<Seq<char>>, names: Seq<Seq<char>>, x: Seq<char>)
    ensures
        add_new_nodes(nodes, names).contains(x) <==> (nodes.contains(x) || names.contains(x)),
    decreases names.len(),
{
    if names.len() > 0 {
        let init = names.drop_last();
        lemma_add_new_nodes_contains(nodes, init, x);
        let n = add_new_nodes(nodes, init);
        if init.contains(x) {
            let j = choose|j: int| 0 <= j < init.len() && init[j] == x;
            assert(names[j] == x);
        }
        if names.contains(x) && x != names.last() {
            let j = choose|j: int| 0 <= j < names.len() && names[j] == x;
            assert(init[j] == x);
        }
        if !n.contains(names.last()) {
            assert(n.push(names.last()).last() == names.last());
            if n.contains(x) {
                let j = choose|j: int| 0 <= j < n.len() && n[j] == x;
                assert(n.push(names.last())[j] == x);
            }
            if n.push(names.last()).contains(x) && x != names.last() {
                let j = choose|j: int| 0 <= j < n.push(names.last()).len() && n.push(names.last())[j] == x;
                assert(n[j] == x);
            }
        }
    }
}

/// Spray and wait hands a bundle out while it has two or more copies left;
/// its last copy goes only to its destination, when that was heard of
/// within the maximum age; a bundle without copies never goes out. Each
/// copy that goes out uses up exactly one, and every peer heard of within
/// the age then counts as having the bundle, besides those that had it.
pub proof fn law_saw_hands_out_copies(
    h: Map<Seq<char>, SaWView>,
    peers: PeerTable,
    b: BundleView,
    m: BundleProtoMeta,
    max_peer_age: i32,
    now: u64,
)
    requires
        peers.wf(),
        h.contains_key(b.id),
        b.destination_node is Some,
    ensures
        ({
            let r = decide_spec(h, peers, Some(b), Some(m), max_peer_age, now);
            let d = h[b.id];
            let dest = b.destination_node->0;
            let p = peers.view_peers();
            let age = max_peer_age as u64;
            &&& d.remaining_copies == 0 ==> r.0 is None && r.1 == h
            &&& d.remaining_copies >= 2 ==> r.0 == Some(m.proto_packet@)
            &&& d.remaining_copies == 1 ==> (r.0 is Some <==> (p.contains_key(dest) && age_secs(
                now,
                p[dest].last_seen,
            ) < age))
            &&& r.0 is None ==> r.1 == h
            &&& r.0 is Some ==> {
                &&& r.0 == Some(m.proto_packet@)
                &&& r.1.dom() == h.dom()
                &&& r.1[b.id].remaining_copies + 1 == d.remaining_copies
                &&& r.1[b.id].bundle == d.bundle
                &&& forall|k: Seq<char>| #[trigger]
                    r.1[b.id].nodes.contains(k) <==> (d.nodes.contains(k) || (p.contains_key(k)
                        && age_secs(now, p[k].last_seen) < age))
                &&& forall|k: Seq<char>| k != b.id && #[trigger] h.contains_key(k) ==> r.1[k] == h[k]
            }
        }),
{
    let r = decide_spec(h, peers, Some(b), Some(m), max_peer_age, now);
    let d = h[b.id];
    let age = max_peer_age as u64;
    if r.0 is Some {
        assert(r.1.dom() =~= h.dom());
        peers.law_recent_names(now, age, age);
        assert forall|k: Seq<char>| #[trigger] r.1[b.id].nodes.contains(k) <==> (d.nodes.contains(k)
            || (peers.view_peers().contains_key(k) && age_secs(now, peers.view_peers()[k].last_seen)
            < age)) by {
            lemma_add_new_nodes_contains(d.nodes, peers.recent_names(now, age), k);
            assert(peers.recent_names(now, age).contains(k) <==> peers.seen(k, age, now));
        }
    }
}

/// The entries popped, `hs`, from `q`, in order.
pub open spec fn popped_entries(
    q: Map<u64, (QueueEntryView<BundleProtoMeta>, i32)>,
    hs: Seq<u64>,
) -> Seq<QueueEntryView<BundleProtoMeta>> {
    hs.map_values(|h: u64| q[h].0)
}

/// The encodings that go out and the history after deciding on `entries`
/// one after the other.
pub open spec fn decide_all(
    h: Map<Seq<char>, SaWView>,
    peers: PeerTable,
    entries: Seq<QueueEntryView<BundleProtoMeta>>,
    max_peer_age: i32,
    now: u64,
) -> (Seq<Seq<u8>>, Map<Seq<char>, SaWView>)
    decreases entries.len(),
{
    if entries.len() == 0 {
        (Seq::empty(), h)
    } else {
        let prev = decide_all(h, peers, entries.drop_last(), max_peer_age, now);
        let step = decide_spec(
            prev.1,
            peers,
            entries.last().bndl,
            entries.last().meta,
            max_peer_age,
            now,
        );
        (
            match step.0 {
                Some(x) => prev.0.push(x),
                None => prev.0,
            },
            step.1,
        )
    }
}

/// Decides on one packet popped from the send queue at `now`: a packet
/// without bundle goes out; a bundle's packet goes out as [`take_copy`]
/// decides, for its destination node, which uses up a copy. Nothing goes
/// out, and nothing changes, for a packet without metadata, for a bundle
/// without destination node or without copies left.
pub fn saw_decide(
    history: &mut StrMap<SaWBundleData>,
    peers: &PeerTable,
    bndl: Option<Bundle>,
    meta: Option<BundleProtoMeta>,
    max_peer_age: i32,
    now: u64,
) -> (send: Option<Vec<u8>>)
    requires
        old(history).wf(),
        peers.wf(),
    ensures
        final(history).wf(),
        final(history)@.dom() == old(history)@.dom(),
        (opt_bytes(send), history_view(final(history)@)) == decide_spec(
            history_view(old(history)@),
            *peers,
            opt_bundle_view(bndl),
            meta,
            max_peer_age,
            now,
        ),
        send matches Some(s) ==> meta matches Some(m) && s@ == m.proto_packet@,
        meta is None ==> send is None && final(history)@ == old(history)@,
        meta is Some && bndl is None ==> send is Some && final(history)@ == old(history)@,
        (meta is Some && (bndl matches Some(b) && (b.destination_node is None || !old(history)@.contains_key(b.id@) || old(history)@[b.id@].remaining_copies == 0))) ==> send is None
            && final(history)@ == old(history)@,
        (meta is Some && (bndl matches Some(b) && b.destination_node is Some && old(history)@.contains_key(b.id@) && old(history)@[b.id@].remaining_copies > 0)) ==> {
            let id = bndl->0.id@;
            let before = old(history)@[id];
            let after = final(history)@[id];
            let go = copy_goes_out(
                before,
                *peers,
                bndl->0.destination_node->0@,
                max_peer_age,
                now,
            );
            &&& (send is Some) == go
            &&& forall|k: Seq<char>|
                k != id && #[trigger] old(history)@.contains_key(k) ==> final(history)@[k]
                    == old(history)@[k]
            &&& !go ==> after == before
            &&& go ==> {
                &&& after.remaining_copies == before.remaining_copies - 1
                &&& after.bundle == before.bundle
                &&& string_views(after.nodes@) == add_new_nodes(
                    string_views(before.nodes@),
                    peers.recent_names(now, max_peer_age as u64),
                )
            }
        },
{
    let m = match meta {
        None => return None,
        Some(m) => m,
    };
    let b = match bndl {
        None => return Some(m.proto_packet),
        Some(b) => b,
    };
    let dest = match b.destination_node {
        None => return None,
        Some(d) => d,
    };
    match history.get(b.id.as_str()) {
        None => return None,
        Some(d) => {
            if d.remaining_copies == 0 {
                return None;
            }
        },
    }
    let ghost id = b.id@;
    let go = take_copy(history, peers, &b.id, &dest, max_peer_age, now);
    proof {
        let hv0 = history_view(old(history)@);
        if go {
            let d = hv0[id];
            let nv = SaWView {
                remaining_copies: (d.remaining_copies - 1) as usize,
                bundle: d.bundle,
                nodes: add_new_nodes(d.nodes, peers.recent_names(now, max_peer_age as u64)),
            };
            assert(history_view(history@) =~= hv0.insert(id, nv));
        } else {
            assert(history_view(history@) =~= hv0);
        }
    }
    if go {
        Some(m.proto_packet)
    } else {
        None
    }
}

/// How many of the packets that went out, deciding on `entries` in turn,
/// carried bundle `k`.
pub open spec fn copies_sent(
    h: Map<Seq<char>, SaWView>,
    peers: PeerTable,
    entries: Seq<QueueEntryView<BundleProtoMeta>>,
    k: Seq<char>,
    max_peer_age: i32,
    now: u64,
) -> nat
    decreases entries.len(),
{
    if entries.len() == 0 {
        0
    } else {
        let prev = decide_all(h, peers, entries.drop_last(), max_peer_age, now);
        let step = decide_spec(
            prev.1,
            peers,
            entries.last().bndl,
            entries.last().meta,
            max_peer_age,
            now,
        );
        copies_sent(h, peers, entries.drop_last(), k, max_peer_age, now) + (if step.0 is Some
            && (entries.last().bndl matches Some(b) && b.id == k) {
            1nat
        } else {
            0nat
        })
    }
}

/// Spray and wait hands out no more copies of a bundle than it had: after
/// any run of decisions, the copies of a bundle in the history that went
/// out plus the copies it has left are the copies it had before.
pub proof fn law_copies_are_conserved(
    h: Map<Seq<char>, SaWView>,
    peers: PeerTable,
    entries: Seq<QueueEntryView<BundleProtoMeta>>,
    k: Seq<char>,
    max_peer_age: i32,
    now: u64,
)
    requires
        h.contains_key(k),
    ensures
        decide_all(h, peers, entries, max_peer_age, now).1.dom() == h.dom(),
        copies_sent(h, peers, entries, k, max_peer_age, now) + decide_all(
            h,
            peers,
            entries,
            max_peer_age,
            now,
        ).1[k].remaining_copies == h[k].remaining_copies,
    decreases entries.len(),
{
    if entries.len() > 0 {
        law_copies_are_conserved(h, peers, entries.drop_last(), k, max_peer_age, now);
        let prev = decide_all(h, peers, entries.drop_last(), max_peer_age, now);
        let e = entries.last();
        let step = decide_spec(prev.1, peers, e.bndl, e.meta, max_peer_age, now);
        assert(prev.1.contains_key(k));
        if e.meta is Some && e.bndl is Some && e.bndl->0.destination_node is Some {
            let id = e.bndl->0.id;
            if step.0 is Some {
                assert(prev.1.contains_key(id));
                assert(step.1.dom() =~= prev.1.dom());
            } else {
                assert(step.1 == prev.1);
            }
        } else {
            assert(step.1 == prev.1);
        }
    }
}

/// Deciding on `entries` sends out at most one packet for each of them.
pub proof fn lemma_decide_all_len(
    h: Map<Seq<char>, SaWView>,
    peers: PeerTable,
    entries: Seq<QueueEntryView<BundleProtoMeta>>,
    max_peer_age: i32,
    now: u64,
)
    ensures
        decide_all(h, peers, entries, max_peer_age, now).0.len() <= entries.len(),
    decreases entries.len(),
{
    if entries.len() > 0 {
        lemma_decide_all_len(h, peers, entries.drop_last(), max_peer_age, now);
    }
}

/// One change of the history of spray and wait: a bundle passed to us
/// (`handle_new_bundle`), a bundle received back from a node
/// (`handle_received`), or the decisions of a send tick (`saw_pop_sends`).
pub open spec fn saw_history_step(
    before: Map<Seq<char>, SaWBundleData>,
    after: Map<Seq<char>, SaWBundleData>,
) -> bool {
    ||| exists|b: Bundle, id: Seq<char>, max_copies: usize, own: Seq<char>|
        #[trigger] new_bundle_outcome(before, after, b, id, max_copies, own)
    ||| exists|id: Seq<char>, node: Seq<char>| #[trigger] received_outcome(before, after, id, node)
    ||| exists|
        peers: PeerTable,
        entries: Seq<QueueEntryView<BundleProtoMeta>>,
        max_peer_age: i32,
        now: u64,
    |
        history_view(after) == #[trigger] decide_all(
            history_view(before),
            peers,
            entries,
            max_peer_age,
            now,
        ).1
}

/// A bundle stays in the history and its copies left never grow from
/// `before` to `after`.
pub open spec fn copies_never_grow(
    before: Map<Seq<char>, SaWBundleData>,
    after: Map<Seq<char>, SaWBundleData>,
) -> bool {
    forall|k: Seq<char>| #[trigger]
        before.contains_key(k) ==> after.contains_key(k) && after[k].remaining_copies
            <= before[k].remaining_copies
}

proof fn lemma_step_copies_never_grow(
    before: Map<Seq<char>, SaWBundleData>,
    after: Map<Seq<char>, SaWBundleData>,
)
    requires
        saw_history_step(before, after),
    ensures
        copies_never_grow(before, after),
{
    if exists|b: Bundle, id: Seq<char>, max_copies: usize, own: Seq<char>|
        #[trigger] new_bundle_outcome(before, after, b, id, max_copies, own) {
    } else if exists|id: Seq<char>, node: Seq<char>| #[trigger]
        received_outcome(before, after, id, node) {
    } else {
        let (peers, entries, max_peer_age, now) = choose|
            peers: PeerTable,
            entries: Seq<QueueEntryView<BundleProtoMeta>>,
            max_peer_age: i32,
            now: u64,
        |
            history_view(after) == #[trigger] decide_all(
                history_view(before),
                peers,
                entries,
                max_peer_age,
                now,
            ).1;
        assert forall|k: Seq<char>| #[trigger] before.contains_key(k) implies after.contains_key(k)
            && after[k].remaining_copies <= before[k].remaining_copies by {
            let hv = history_view(before);
            assert(hv.contains_key(k));
            law_copies_are_conserved(hv, peers, entries, k, max_peer_age, now);
            assert(history_view(after).contains_key(k));
            assert(history_view(after)[k] == saw_view(after[k]));
        }
    }
}

/// Whatever spray and wait does, in any order of bundles passed to it,
/// bundles received back and send ticks, a bundle never leaves the history
/// and the copies it has left never grow: over a run of changes, each
/// bundle of the first history is in every later one with at most as many
/// copies left.
pub proof fn law_copies_never_grow(run: Seq<Map<Seq<char>, SaWBundleData>>, i: int, j: int)
    requires
        forall|n: int| 0 <= n < run.len() - 1 ==> saw_history_step(#[trigger] run[n], run[n + 1]),
        0 <= i <= j < run.len(),
    ensures
        copies_never_grow(run[i], run[j]),
    decreases j - i,
{
    if i < j {
        law_copies_never_grow(run, i, j - 1);
        lemma_step_copies_never_grow(run[j - 1], run[j]);
    }
}

/// Pops up to `send_packets` packets from the send queue and decides on
/// each in turn as [`saw_decide`] does; returns the encodings that go out,
/// in the order popped.
pub fn saw_pop_sends(
    queue: &mut SaWQueue,
    history: &mut StrMap<SaWBundleData>,
    peers: &PeerTable,
    send_packets: i32,
    max_peer_age: i32,
    now: u64,
) -> (sends: Vec<Vec<u8>>)
    requires
        old(queue).wf(),
        old(history).wf(),
        peers.wf(),
    ensures
        final(queue).wf(),
        final(queue).allowers() == old(queue).allowers(),
        final(queue).scorers() == old(queue).scorers(),
        final(history).wf(),
        final(history)@.dom() == old(history)@.dom(),
        exists|hs: Seq<u64>|
            {
                &&& #[trigger] popped_in_order(old(queue)@, hs, final(queue)@)
                &&& final(queue)@.len() + hs.len() == old(queue)@.len()
                &&& hs.len() <= (if send_packets < 0 {
                    0
                } else {
                    send_packets as int
                })
                &&& hs.len() < send_packets ==> final(queue)@.dom() == Set::<u64>::empty()
                &&& decide_all(
                    history_view(old(history)@),
                    *peers,
                    popped_entries(old(queue)@, hs),
                    max_peer_age,
                    now,
                ) == (sends@.map_values(|v: Vec<u8>| v@), history_view(final(history)@))
            },
        saw_history_step(old(history)@, final(history)@),
        sends@.len() <= (if send_packets < 0 {
            0
        } else {
            send_packets as int
        }),
{
    let ghost q0 = queue@;
    let ghost hv0 = history_view(history@);
    let mut sends: Vec<Vec<u8>> = Vec::new();
    let ghost mut hs: Seq<u64> = Seq::empty();
    proof {
        assert(hs.to_set() =~= Set::<u64>::empty());
        assert(q0.remove_keys(hs.to_set()) =~= q0);
        assert(popped_entries(q0, hs) =~= Seq::<QueueEntryView<BundleProtoMeta>>::empty());
        assert(sends@.map_values(|v: Vec<u8>| v@) =~= Seq::<Seq<u8>>::empty());
        queue.lemma_view_finite();
    }
    let mut n: i32 = 0;
    while n < send_packets
        invariant
            queue.wf(),
            queue.allowers() == old(queue).allowers(),
            queue.scorers() == old(queue).scorers(),
            q0 == old(queue)@,
            q0.dom().finite(),
            hv0 == history_view(old(history)@),
            history.wf(),
            history@.dom() == old(history)@.dom(),
            peers.wf(),
            0 <= n,
            n <= send_packets || send_packets < 0,
            send_packets < 0 ==> n == 0,
            popped_in_order(q0, hs, queue@),
            hs.len() <= n,
            hs.len() < n ==> queue@.dom() == Set::<u64>::empty(),
            decide_all(hv0, *peers, popped_entries(q0, hs), max_peer_age, now) == (sends@.map_values(
                |v: Vec<u8>| v@,
            ), history_view(history@)),
        decreases send_packets - n,
    {
        let ghost before = queue@;
        match queue.pop() {
            Some(x) => {
                let ghost h = choose|h: u64|
                    #[trigger] before.contains_key(h) && pop_outcome(
                        before,
                        queue@,
                        h,
                        opt_bundle_view(x.0),
                        x.1,
                        x.2,
                    );
                proof {
                    lemma_pop_extends(q0, hs, before, queue@, h);
                    assert(q0.contains_key(h));
                    assert(!hs.to_set().contains(h));
                    assert(before[h] == q0[h]);
                }
                let ghost old_sends = sends@;
                let ghost hs_old = hs;
                let ghost hist_before = history_view(history@);
                let decided = saw_decide(history, peers, x.0, x.1, max_peer_age, now);
                proof {
                    hs = hs.push(h);
                    let es = popped_entries(q0, hs);
                    assert(es.drop_last() =~= popped_entries(q0, hs_old));
                    assert(es.last() == q0[h].0);
                }
                match decided {
                    Some(s) => {
                        let ghost sv = s@;
                        sends.push(s);
                        proof {
                            assert(sends@.map_values(|v: Vec<u8>| v@) =~= old_sends.map_values(
                                |v: Vec<u8>| v@,
                            ).push(sv));
                        }
                    },
                    None => {},
                }
            },
            None => {},
        }
        n = n + 1;
    }
    proof {
        assert(popped_in_order(q0, hs, queue@));
        lemma_popped_len(q0, hs, queue@);
        lemma_decide_all_len(hv0, *peers, popped_entries(q0, hs), max_peer_age, now);
        assert(history_view(history@) == decide_all(
            history_view(old(history)@),
            *peers,
            popped_entries(q0, hs),
            max_peer_age,
            now,
        ).1);
        assert(sends@.map_values(|v: Vec<u8>| v@).len() == sends@.len());
    }
    sends
}

} // verus!
