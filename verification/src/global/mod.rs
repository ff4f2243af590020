//! Shared state of the node: the peers it has heard of, its own position and
//! node id, and the configurations of its parts.
use crate::clock::unix_timestamp;
use crate::protocol::{Advertise, Packet, Position};
use crate::strmap::StrMap;
use crate::text::{ascii_lower, eq_ignore_case, eq_ignore_case_spec};
use vstd::prelude::*;

verus! {

/// Seconds between `last_seen` and `now`, wrapping when `last_seen` lies in
/// the future.
pub open spec fn age_secs(now: u64, last_seen: u64) -> u64 {
    vstd::wrapping::u64_specs::wrapping_sub(now, last_seen)
}

/// Peer represents a peer that has been seen by the node.
pub struct Peer {
    pub node_name: String,
    pub meta: StrMap<String>,
    pub last_location: Option<Position>,
    pub last_data: StrMap<String>,
    pub last_seen: u64,
}

impl Peer {
    /// Seconds since the peer was last seen, at time `now`.
    pub fn last_seen_secs_at(&self, now: u64) -> (r: u64)
        ensures
            r == age_secs(now, self.last_seen),
    {
        now.wrapping_sub(self.last_seen)
    }

    /// Seconds since the peer was last seen.
    pub fn last_seen_secs(&self) -> (r: u64)
        ensures
            exists|now: u64| r == age_secs(now, self.last_seen),
    {
        let now = unix_timestamp();
        self.last_seen_secs_at(now)
    }
}

/// The peers heard of, by node name.
pub struct PeerTable {
    peers: StrMap<Peer>,
}

/// Keeping some items of a sequence without repeats gives no repeats.
proof fn lemma_filter_no_duplicates<A>(s: Seq<A>, p: spec_fn(A) -> bool)
    requires
        s.no_duplicates(),
    ensures
        s.filter(p).no_duplicates(),
    decreases s.len(),
{
    reveal(Seq::filter);
    if s.len() > 0 {
        let init = s.drop_last();
        assert(init.no_duplicates()) by {
            assert forall|i: int, j: int|
                0 <= i < init.len() && 0 <= j < init.len() && i != j implies init[i] != init[j] by {
                assert(s[i] == init[i] && s[j] == init[j]);
            }
        }
        lemma_filter_no_duplicates(init, p);
        let f = init.filter(p);
        if p(s.last()) {
            if f.contains(s.last()) {
                init.lemma_filter_contains_rev(p, s.last());
                let k = choose|k: int| 0 <= k < init.len() && init[k] == s.last();
                assert(s[k] == s[s.len() - 1]);
            }
            assert forall|i: int, j: int|
                0 <= i < f.push(s.last()).len() && 0 <= j < f.push(s.last()).len() && i != j implies f.push(
                s.last(),
            )[i] != f.push(s.last())[j] by {
                if i == f.len() {
                    assert(f[j] != s.last());
                } else if j == f.len() {
                    assert(f[i] != s.last());
                }
            }
        }
    }
}

/// Whether a peer last seen at `last_seen` counts as seen within `max_age`
/// seconds at `now`.
pub open spec fn recent(now: u64, last_seen: u64, max_age: u64) -> bool {
    age_secs(now, last_seen) < max_age
}

impl PeerTable {
    /// The table holds no name twice.
    pub closed spec fn wf(&self) -> bool {
        self.peers.wf()
    }

    /// The peers by name.
    pub closed spec fn view_peers(&self) -> Map<Seq<char>, Peer> {
        self.peers@
    }

    /// The names, in the order in which the table keeps them.
    pub closed spec fn names(&self) -> Seq<Seq<char>> {
        self.peers.key_seq()
    }

    pub proof fn lemma_names(&self)
        requires
            self.wf(),
        ensures
            self.view_peers().dom().finite(),
            forall|k: Seq<char>| #[trigger]
                self.view_peers().contains_key(k) <==> self.names().contains(k),
            forall|i: int, j: int|
                0 <= i < self.names().len() && 0 <= j < self.names().len() && i != j
                    ==> self.names()[i] != self.names()[j],
    {
        self.peers.lemma_view();
    }

    /// The peer `id` is known and was seen within `max_age` seconds at `now`.
    pub open spec fn seen(&self, id: Seq<char>, max_age: u64, now: u64) -> bool {
        self.view_peers().contains_key(id) && recent(now, self.view_peers()[id].last_seen, max_age)
    }

    /// The names of the peers seen within `max_age` seconds at `now`, in the
    /// order in which the table keeps them.
    pub open spec fn recent_names(&self, now: u64, max_age: u64) -> Seq<Seq<char>> {
        self.names().filter(|k: Seq<char>| recent(now, self.view_peers()[k].last_seen, max_age))
    }

    /// The names of the peers seen within an age hold no name twice and are
    /// exactly the peers seen within that age; a longer age gives every name
    /// that a shorter one gives.
    pub proof fn law_recent_names(&self, now: u64, a: u64, b: u64)
        requires
            self.wf(),
            a <= b,
        ensures
            self.recent_names(now, a).no_duplicates(),
            forall|n: Seq<char>| #[trigger]
                self.recent_names(now, a).contains(n) <==> self.seen(n, a, now),
            forall|n: Seq<char>| #[trigger]
                self.recent_names(now, a).contains(n) ==> self.recent_names(now, b).contains(n),
    {
        self.lemma_names();
        let pa = |k: Seq<char>| recent(now, self.view_peers()[k].last_seen, a);
        let pb = |k: Seq<char>| recent(now, self.view_peers()[k].last_seen, b);
        let names = self.names();
        assert(names.no_duplicates());
        lemma_filter_no_duplicates(names, pa);
        assert forall|n: Seq<char>| #[trigger]
            self.recent_names(now, a).contains(n) <==> self.seen(n, a, now) by {
            if names.filter(pa).contains(n) {
                names.lemma_filter_contains_rev(pa, n);
                let i = choose|i: int| 0 <= i < names.filter(pa).len() && names.filter(pa)[i] == n;
                names.lemma_filter_pred(pa, i);
            }
            if self.seen(n, a, now) {
                let i = choose|i: int| 0 <= i < names.len() && names[i] == n;
                names.lemma_filter_contains(pa, i);
            }
        }
        assert forall|n: Seq<char>| #[trigger] self.recent_names(now, a).contains(n) implies self.recent_names(
            now,
            b,
        ).contains(n) by {
            names.lemma_filter_contains_rev(pa, n);
            let j = choose|j: int| 0 <= j < names.filter(pa).len() && names.filter(pa)[j] == n;
            names.lemma_filter_pred(pa, j);
            let i = choose|i: int| 0 <= i < names.len() && names[i] == n;
            names.lemma_filter_contains(pb, i);
        }
    }

    pub fn new() -> (t: PeerTable)
        ensures
            t.wf(),
            t.view_peers() == Map::<Seq<char>, Peer>::empty(),
    {
        PeerTable { peers: StrMap::new() }
    }

    /// The peer named `name`, if known.
    pub fn get(&self, name: &str) -> (r: Option<&Peer>)
        requires
            self.wf(),
        ensures
            r is Some == self.view_peers().contains_key(name@),
            r matches Some(p) ==> *p == self.view_peers()[name@],
    {
        self.peers.get(name)
    }

    /// Records an advertisement heard at `now`: a known peer gets its time,
    /// position and data renewed (its name and meta stay), an unknown one is
    /// added with empty meta.
    pub fn on_advertise(&mut self, adv: Advertise, now: u64)
        requires
            old(self).wf(),
        ensures
            final(self).wf(),
            final(self).view_peers().dom() == old(self).view_peers().dom().insert(adv.node_name@),
            forall|k: Seq<char>|
                k != adv.node_name@ && #[trigger] old(self).view_peers().contains_key(k)
                    ==> final(self).view_peers()[k] == old(self).view_peers()[k],
            ({
                let p = final(self).view_peers()[adv.node_name@];
                &&& p.last_seen == now
                &&& p.last_location == adv.position
                &&& p.last_data == adv.data
                &&& old(self).view_peers().contains_key(adv.node_name@) ==> {
                    let q = old(self).view_peers()[adv.node_name@];
                    p.node_name == q.node_name && p.meta == q.meta
                }
                &&& !old(self).view_peers().contains_key(adv.node_name@) ==> {
                    p.node_name == adv.node_name && p.meta@ == Map::<Seq<char>, String>::empty()
                }
            }),
    {
        let name = adv.node_name;
        let mut peers = StrMap::new();
        std::mem::swap(&mut peers, &mut self.peers);
        let old_peer = peers.remove(name.as_str());
        let peer = match old_peer {
            Some(p) => Peer {
                node_name: p.node_name,
                meta: p.meta,
                last_location: adv.position,
                last_data: adv.data,
                last_seen: now,
            },
            None => Peer {
                node_name: name.clone(),
                meta: StrMap::new(),
                last_location: adv.position,
                last_data: adv.data,
                last_seen: now,
            },
        };
        peers.insert(name, peer);
        self.peers = peers;
        proof {
            assert(self.view_peers().dom() =~= old(self).view_peers().dom().insert(adv.node_name@));
        }
    }

    pub fn len(&self) -> (n: usize)
        requires
            self.wf(),
        ensures
            n == self.names().len(),
    {
        self.peers.len()
    }

    /// The name kept at position `i`.
    pub fn name_at(&self, i: usize) -> (k: &String)
        requires
            self.wf(),
            i < self.names().len(),
        ensures
            k@ == self.names()[i as int],
            self.view_peers().contains_key(k@),
    {
        self.peers.key_at(i)
    }

    /// The peer kept at position `i`.
    pub fn peer_at(&self, i: usize) -> (p: &Peer)
        requires
            self.wf(),
            i < self.names().len(),
        ensures
            *p == self.view_peers()[self.names()[i as int]],
    {
        self.peers.value_at(i)
    }

    /// Whether the peer `id` was seen within `max_age` seconds at `now`.
    pub fn has_seen_peer_at(&self, id: &str, max_age: u64, now: u64) -> (r: bool)
        requires
            self.wf(),
        ensures
            r == self.seen(id@, max_age, now),
    {
        match self.peers.get(id) {
            Some(p) => p.last_seen_secs_at(now) < max_age,
            None => false,
        }
    }

    /// The names of the peers seen within `max_age` seconds at `now`, in the
    /// order in which the table keeps them.
    pub fn peer_names_at(&self, max_age: u64, now: u64) -> (r: Vec<String>)
        requires
            self.wf(),
        ensures
            r@.map_values(|s: String| s@) == self.recent_names(now, max_age),
    {
        let ghost pred = |k: Seq<char>| recent(now, self.view_peers()[k].last_seen, max_age);
        let mut r: Vec<String> = Vec::new();
        let n = self.peers.len();
        let mut i: usize = 0;
        while i < n
            invariant
                n == self.peers.key_seq().len(),
                self.peers.wf(),
                i <= n,
                pred == (|k: Seq<char>| recent(now, self.view_peers()[k].last_seen, max_age)),
                r@.map_values(|s: String| s@) == self.names().take(i as int).filter(pred),
            decreases n - i,
        {
            let k = self.peers.key_at(i);
            let p = self.peers.value_at(i);
            proof {
                reveal_with_fuel(Seq::<Seq<char>>::filter, 1);
                assert(self.names().take(i + 1).drop_last() =~= self.names().take(i as int));
            }
            if p.last_seen_secs_at(now) < max_age {
                let ghost before = r@;
                r.push(k.clone());
                proof {
                    assert(r@.map_values(|s: String| s@) =~= before.map_values(|s: String| s@).push(
                        k@,
                    ));
                }
            }
            i = i + 1;
        }
        proof {
            assert(self.names().take(n as int) =~= self.names());
        }
        r
    }
}

/// Whether the peer `id` was seen within the last `max_age` seconds.
pub fn has_seen_peer(peers: &PeerTable, id: &str, max_age: u64) -> (r: bool)
    requires
        peers.wf(),
    ensures
        r ==> peers.view_peers().contains_key(id@),
        exists|now: u64| r == #[trigger] peers.seen(id@, max_age, now),
{
    let now = unix_timestamp();
    peers.has_seen_peer_at(id, max_age, now)
}

/// The names of the peers seen within the last `max_age` seconds.
pub fn peer_names(peers: &PeerTable, max_age: u64) -> (r: Vec<String>)
    requires
        peers.wf(),
    ensures
        exists|now: u64| r@.map_values(|s: String| s@) == #[trigger] peers.recent_names(now, max_age),
{
    let now = unix_timestamp();
    peers.peer_names_at(max_age, now)
}

/// The node's own position and node id, as last published.
pub struct NodeState {
    position: Position,
    node_id: String,
}

impl NodeState {
    pub closed spec fn position(&self) -> Position {
        self.position
    }

    pub closed spec fn node_id(&self) -> Seq<char> {
        self.node_id@
    }

    /// No position and an empty node id.
    pub fn new() -> (s: NodeState)
        ensures
            s.position() == Position::NoPos,
            s.node_id() == Seq::<char>::empty(),
    {
        NodeState { position: Position::NoPos, node_id: String::new() }
    }
}

/// Publishes a new position.
pub fn publish_position(state: &mut NodeState, position: Position)
    ensures
        final(state).position() == position,
        final(state).node_id() == old(state).node_id(),
{
    state.position = position;
}

/// The latest published position.
pub fn get_position(state: &NodeState) -> (p: Position)
    ensures
        p.same(&state.position()),
{
    state.position.duplicate()
}

/// Publishes a new node id.
pub fn publish_node_id(state: &mut NodeState, node_id: String)
    ensures
        final(state).node_id() == node_id@,
        final(state).position() == old(state).position(),
{
    state.node_id = node_id;
}

/// The latest published node id.
pub fn get_node_id(state: &NodeState) -> (id: String)
    ensures
        id@ == state.node_id(),
{
    state.node_id.clone()
}

/// A read of the position gives back what the last publish wrote: the
/// position a publish leaves is `p`, and a position read from that state
/// is the same as `p`.
pub proof fn law_position_read_after_publish(state: NodeState, p: Position, read: Position)
    requires
        state.position() == p,
        read.same(&state.position()),
    ensures
        read.same(&p),
{
}

/// A read of the node id gives back what the last publish wrote, and a
/// publish of the node id leaves the position as it was.
pub proof fn law_node_id_read_after_publish(
    before: NodeState,
    after: NodeState,
    id: Seq<char>,
    read: Seq<char>,
)
    requires
        after.node_id() == id,
        after.position() == before.position(),
        read == after.node_id(),
    ensures
        read == id,
        after.position() == before.position(),
{
}

/// A peer heard at `now` counts as seen at `now` for any positive maximum
/// age.
pub proof fn law_advertised_peer_is_seen(table: PeerTable, name: Seq<char>, now: u64, max_age: u64)
    requires
        table.view_peers().contains_key(name),
        table.view_peers()[name].last_seen == now,
        max_age > 0,
    ensures
        table.seen(name, max_age, now),
{
    assert(vstd::wrapping::u64_specs::wrapping_sub(now, now) == 0);
}

/// ECLA config for its start command.
pub struct ECLAConfig {
    /// Address of the ECLA interface.
    pub addr: String,
    /// CLA module name to register as (e.g. LoRa)
    pub module_name: String,
}

/// LoRa agent config for its start command.
pub struct LoRaConfig {
    /// What type of agent to start (e.g. WebSocket, Serial, etc.)
    pub agent_type: String,
    /// Connection argument for the agent.
    pub agent_arg: String,
}

pub struct StrategyConfig {
    pub name: String,
    pub config: StrMap<String>,
}

pub struct DTNDConfig {
    pub args: String,
}

/// A parsed protocol buffer packet from a raw LoRa packet.
pub struct LoRaParsedPacket {
    pub rssi: i16,
    pub snr: i16,
    pub recv_time: u64,
    pub packet: Packet,
}

/// Specifies which part of the system to shutdown.
#[derive(PartialEq, Eq, Structural, Clone, Copy, Debug)]
pub enum CloseType {
    All,
    ECLA,
    LoRa,
    DTND,
    Strategy,
}

#[derive(PartialEq, Eq, Structural, Clone, Copy, Debug)]
pub enum ActorType {
    ECLA,
    LoRa,
    DTND,
    Strategy,
}

/// The close target that `text` names: `All`, `ECLA`, `LoRa`, `DTND` or
/// `Strategy`, in any mix of ASCII case.
pub open spec fn close_type_spec(text: Seq<char>) -> Option<CloseType> {
    if eq_ignore_case_spec(text, "all"@) {
        Some(CloseType::All)
    } else if eq_ignore_case_spec(text, "ecla"@) {
        Some(CloseType::ECLA)
    } else if eq_ignore_case_spec(text, "lora"@) {
        Some(CloseType::LoRa)
    } else if eq_ignore_case_spec(text, "dtnd"@) {
        Some(CloseType::DTND)
    } else if eq_ignore_case_spec(text, "strategy"@) {
        Some(CloseType::Strategy)
    } else {
        None
    }
}

impl CloseType {
    /// The close target named by `text`, whatever the case of its ASCII
    /// letters; `None` for an unknown target.
    pub fn parse(text: &str) -> (r: Option<CloseType>)
        ensures
            r == close_type_spec(text@),
    {
        if eq_ignore_case(text, "all") {
            Some(CloseType::All)
        } else if eq_ignore_case(text, "ecla") {
            Some(CloseType::ECLA)
        } else if eq_ignore_case(text, "lora") {
            Some(CloseType::LoRa)
        } else if eq_ignore_case(text, "dtnd") {
            Some(CloseType::DTND)
        } else if eq_ignore_case(text, "strategy") {
            Some(CloseType::Strategy)
        } else {
            None
        }
    }

    /// Whether closing this target stops the running `part`: closing all
    /// stops everything, closing a part stops that part, and closing the
    /// DTN daemon also stops the ECLA connection to it.
    pub fn stops(&self, part: ActorType) -> (r: bool)
        ensures
            r == (*self == CloseType::All || (*self == CloseType::ECLA && part == ActorType::ECLA)
                || (*self == CloseType::LoRa && part == ActorType::LoRa) || (*self
                == CloseType::DTND && (part == ActorType::DTND || part == ActorType::ECLA)) || (
            *self == CloseType::Strategy && part == ActorType::Strategy)),
    {
        match self {
            CloseType::All => true,
            CloseType::ECLA => part == ActorType::ECLA,
            CloseType::LoRa => part == ActorType::LoRa,
            CloseType::DTND => part == ActorType::DTND || part == ActorType::ECLA,
            CloseType::Strategy => part == ActorType::Strategy,
        }
    }
}

/// Close targets are read without regard to the case of ASCII letters:
/// texts that differ only in it name the same target.
pub proof fn law_close_target_ignores_case(a: Seq<char>, b: Seq<char>)
    requires
        eq_ignore_case_spec(a, b),
    ensures
        close_type_spec(a) == close_type_spec(b),
{
    assert forall|t: Seq<char>| eq_ignore_case_spec(a, t) == eq_ignore_case_spec(b, t) by {
        if eq_ignore_case_spec(a, t) {
            assert forall|i: int| 0 <= i < b.len() implies ascii_lower(#[trigger] b[i]) == ascii_lower(t[i]) by {
                assert(ascii_lower(a[i]) == ascii_lower(b[i]));
            }
        }
        if eq_ignore_case_spec(b, t) {
            assert forall|i: int| 0 <= i < a.len() implies ascii_lower(#[trigger] a[i]) == ascii_lower(t[i]) by {
                assert(ascii_lower(a[i]) == ascii_lower(b[i]));
            }
        }
    }
}

} // verus!
