//! The decisions of the actors: what the LoRa actor answers, what the
//! emulator bridge commits, what the supervisor starts, how a ping over the
//! HTTP interface collects its answers, and how the command line shapes the
//! configuration.
use crate::global::{ECLAConfig, LoRaConfig, StrategyConfig};
use crate::parse::{split_char, split_spec, trim_char, trim_char_spec};
use crate::protocol::{Content, Packet, PacketType, PingPong, PingPongType, Position};
use crate::strmap::StrMap;
use crate::text::{same_text, string_views};
use vstd::prelude::*;

verus! {

/// The pong that answers `ping` at the node `own_node_id`: a ping that is
/// for all nodes (empty node id) or for us is answered with a pong carrying
/// our node id; anything else gets no answer.
pub fn answer_ping(ping: &PingPong, own_node_id: &String) -> (r: Option<Packet>)
    ensures
        (ping.kind == PingPongType::TypePing && (ping.node_id@.len() == 0 || ping.node_id@
            == own_node_id@)) ==> (r matches Some(p) && p.kind == PacketType::TypePingPong
            && (p.content matches Some(Content::PingPong(q)) && q.kind == PingPongType::TypePong
            && q.node_id@ == own_node_id@)),
        !(ping.kind == PingPongType::TypePing && (ping.node_id@.len() == 0 || ping.node_id@
            == own_node_id@)) ==> r is None,
{
    let for_us = ping.node_id.as_str().unicode_len() == 0 || same_text(
        ping.node_id.as_str(),
        own_node_id.as_str(),
    );
    if ping.kind == PingPongType::TypePing && for_us {
        Some(Packet::ping_pong(PingPongType::TypePong, own_node_id.clone()))
    } else {
        None
    }
}

/// The advertisement the strategy actor recommends: our node name and
/// position without extra data; none while we have no node name.
pub fn advertise_recommendation(own_node_id: String, position: Position) -> (r: Option<Packet>)
    ensures
        own_node_id@.len() == 0 ==> r is None,
        own_node_id@.len() > 0 ==> (r matches Some(p) && p.kind == PacketType::TypeAdvertise
            && (p.content matches Some(Content::Advertise(a)) && a.node_name == own_node_id
            && a.position == Some(position) && a.data@ == Map::<Seq<char>, String>::empty()
            && a.data.wf())),
{
    if own_node_id.as_str().unicode_len() == 0 {
        None
    } else {
        Some(Packet::advertise(own_node_id, position, StrMap::new()))
    }
}

/// A ping sent from the HTTP interface.
pub struct PingPongRequest {
    /// The node to ping; empty pings all nodes.
    pub node_id: String,
    /// How long to wait for answers.
    pub timeout_ms: u32,
}

/// The ping that a request sends; none for a request without time to wait,
/// which is refused.
pub fn ping_for_request(req: &PingPongRequest) -> (r: Option<Packet>)
    ensures
        req.timeout_ms == 0 ==> r is None,
        req.timeout_ms != 0 ==> (r matches Some(p) && p.kind == PacketType::TypePingPong
            && (p.content matches Some(Content::PingPong(q)) && q.kind == PingPongType::TypePing
            && q.node_id@ == req.node_id@)),
{
    if req.timeout_ms == 0 {
        None
    } else {
        Some(Packet::ping_pong(PingPongType::TypePing, req.node_id.clone()))
    }
}

/// The answers a ping from the HTTP interface has collected.
pub struct PingSession {
    /// The node id the ping was for.
    pub target: String,
    /// Our node id when the ping was sent.
    pub own_node_id: String,
    /// The node ids of the pongs heard, in order.
    pub answers: Vec<String>,
}

impl PingSession {
    pub fn new(target: String, own_node_id: String) -> (s: PingSession)
        ensures
            s.target == target,
            s.own_node_id == own_node_id,
            s.answers@.len() == 0,
    {
        PingSession { target, own_node_id, answers: Vec::new() }
    }

    /// Takes a received packet: a pong adds its node id to the answers, and
    /// the session ends on it when the ping was for our own node id. Returns
    /// whether the session is over.
    pub fn on_packet(&mut self, content: &Option<Content>) -> (done: bool)
        ensures
            final(self).target == old(self).target,
            final(self).own_node_id == old(self).own_node_id,
            (content matches Some(Content::PingPong(q)) && q.kind == PingPongType::TypePong) ==> {
                &&& string_views(final(self).answers@) == string_views(old(self).answers@).push(
                    content->0->PingPong_0.node_id@,
                )
                &&& done == (old(self).target@ == old(self).own_node_id@)
            },
            !(content matches Some(Content::PingPong(q)) && q.kind == PingPongType::TypePong) ==> {
                &&& final(self).answers@ == old(self).answers@
                &&& !done
            },
    {
        match content {
            Some(Content::PingPong(q)) => {
                if q.kind != PingPongType::TypePong {
                    return false;
                }
                let ghost before = self.answers@;
                self.answers.push(q.node_id.clone());
                proof {
                    assert(string_views(self.answers@) =~= string_views(before).push(q.node_id@));
                }
                same_text(self.target.as_str(), self.own_node_id.as_str())
            },
            _ => false,
        }
    }
}

/// What the emulator bridge knows: whether the LoRa agent is an emulator's
/// websocket, the parts of its argument, and the meta data for the emulator.
pub struct EmuState {
    pub is_emu: bool,
    pub config: Vec<String>,
    pub meta: StrMap<String>,
}

/// What the emulator bridge does after an event.
pub enum EmuCommit {
    Nothing,
    /// Send the meta data to the emulator at `ip:port` for `node_id`.
    Commit { ip: String, port: String, node_id: String },
    /// The agent argument has too few parts to address the emulator.
    Malformed,
}

/// The meta data with each entry of `config` added, later ones replacing.
pub open spec fn with_entries(meta: Map<Seq<char>, String>, keys: Seq<Seq<char>>, config: Map<
    Seq<char>,
    String,
>) -> Map<Seq<char>, String>
    decreases keys.len(),
{
    if keys.len() == 0 {
        meta
    } else {
        with_entries(meta, keys.drop_last(), config).insert(keys.last(), config[keys.last()])
    }
}

impl EmuState {
    pub fn new() -> (s: EmuState)
        ensures
            !s.is_emu,
            s.config@.len() == 0,
            s.meta.wf(),
            s.meta@ == Map::<Seq<char>, String>::empty(),
    {
        EmuState { is_emu: false, config: Vec::new(), meta: StrMap::new() }
    }

    /// The commit due after the meta data changed: with an emulator agent
    /// whose argument has been read, commit to the address it gives.
    fn commit_decision(&self) -> (r: EmuCommit)
        ensures
            r == self.commit_spec(),
    {
        if self.is_emu && self.config.len() > 0 {
            if self.config.len() >= 3 {
                EmuCommit::Commit {
                    ip: self.config[0].clone(),
                    port: self.config[1].clone(),
                    node_id: self.config[2].clone(),
                }
            } else {
                EmuCommit::Malformed
            }
        } else {
            EmuCommit::Nothing
        }
    }

    /// A LoRa start: a websocket agent means an emulator, addressed by the
    /// parts of the agent argument.
    pub fn on_lora_start(&mut self, start: &LoRaConfig)
        requires
            old(self).meta.wf(),
        ensures
            final(self).meta == old(self).meta,
            start.agent_type@ == "websocket"@ ==> final(self).is_emu && string_views(
                final(self).config@,
            ) == split_spec(start.agent_arg@, ':'),
            start.agent_type@ != "websocket"@ ==> final(self).is_emu == old(self).is_emu
                && final(self).config == old(self).config,
    {
        if same_text(start.agent_type.as_str(), "websocket") {
            self.is_emu = true;
            self.config = split_char(start.agent_arg.as_str(), ':');
        }
    }

    /// A strategy start: its name and configuration go into the meta data,
    /// which is then committed.
    pub fn on_strategy_start(&mut self, start: &StrategyConfig) -> (r: EmuCommit)
        requires
            old(self).meta.wf(),
            start.config.wf(),
        ensures
            final(self).meta.wf(),
            final(self).meta@ == with_entries(
                old(self).meta@.insert("strategy"@, start.name),
                start.config.key_seq(),
                start.config@,
            ),
            final(self).is_emu == old(self).is_emu,
            final(self).config == old(self).config,
            r == final(self).commit_spec(),
    {
        self.meta.insert("strategy".to_owned(), start.name.clone());
        let ghost base = self.meta@;
        let n = start.config.len();
        let mut i: usize = 0;
        while i < n
            invariant
                self.meta.wf(),
                start.config.wf(),
                self.is_emu == old(self).is_emu,
                self.config == old(self).config,
                n == start.config.key_seq().len(),
                i <= n,
                self.meta@ == with_entries(base, start.config.key_seq().take(i as int), start.config@),
            decreases n - i,
        {
            let k = start.config.key_at(i);
            let v = start.config.value_at(i);
            proof {
                assert(start.config.key_seq().take(i + 1).drop_last() =~= start.config.key_seq().take(
                    i as int,
                ));
            }
            self.meta.insert(k.clone(), v.clone());
            i = i + 1;
        }
        proof {
            assert(start.config.key_seq().take(n as int) =~= start.config.key_seq());
        }
        self.commit_decision()
    }

    /// An ECLA start: the address of the DTN daemon goes into the meta data,
    /// which is then committed.
    pub fn on_ecla_start(&mut self, start: &ECLAConfig) -> (r: EmuCommit)
        requires
            old(self).meta.wf(),
        ensures
            final(self).meta.wf(),
            final(self).meta@.dom() == old(self).meta@.dom().insert("dtnd"@),
            final(self).meta@["dtnd"@]@ == "http://"@ + start.addr@,
            forall|k: Seq<char>|
                k != "dtnd"@ && #[trigger] old(self).meta@.contains_key(k) ==> final(self).meta@[k]
                    == old(self).meta@[k],
            final(self).is_emu == old(self).is_emu,
            final(self).config == old(self).config,
            r == final(self).commit_spec(),
    {
        let mut url = "http://".to_owned();
        url.append(start.addr.as_str());
        self.meta.insert("dtnd".to_owned(), url);
        proof {
            assert(self.meta@.dom() =~= old(self).meta@.dom().insert("dtnd"@));
        }
        self.commit_decision()
    }

    /// The commit due after the meta data changed.
    pub open spec fn commit_spec(&self) -> EmuCommit {
        if self.is_emu && self.config@.len() > 0 {
            if self.config@.len() >= 3 {
                EmuCommit::Commit {
                    ip: self.config@[0],
                    port: self.config@[1],
                    node_id: self.config@[2],
                }
            } else {
                EmuCommit::Malformed
            }
        } else {
            EmuCommit::Nothing
        }
    }
}

/// The events the supervisor reacts to.
#[derive(PartialEq, Eq, Structural, Clone, Copy, Debug)]
pub enum SupervisorEvent {
    /// The supervisor has just started.
    Started,
    /// The DTN daemon is up.
    DtndStarted,
    /// Everything is shutting down.
    CloseAll,
    /// Anything else.
    Other,
}

/// What the supervisor does.
#[derive(PartialEq, Eq, Structural, Clone, Copy, Debug)]
pub enum SupervisorAction {
    /// Ask for LoRa and the DTN daemon to start.
    StartLoraAndDtnd,
    /// Ask for the ECLA and the strategy to start.
    StartEclaAndStrategy,
    Stop,
    Nothing,
}

/// What the supervisor does on `event`.
pub open spec fn supervisor_action(event: SupervisorEvent) -> SupervisorAction {
    match event {
        SupervisorEvent::Started => SupervisorAction::StartLoraAndDtnd,
        SupervisorEvent::DtndStarted => SupervisorAction::StartEclaAndStrategy,
        SupervisorEvent::CloseAll => SupervisorAction::Stop,
        SupervisorEvent::Other => SupervisorAction::Nothing,
    }
}

/// The supervisor starts LoRa and the daemon first, the ECLA and the
/// strategy once the daemon is up, and stops when everything closes.
pub fn supervisor_step(event: SupervisorEvent) -> (r: SupervisorAction)
    ensures
        r == supervisor_action(event),
{
    match event {
        SupervisorEvent::Started => SupervisorAction::StartLoraAndDtnd,
        SupervisorEvent::DtndStarted => SupervisorAction::StartEclaAndStrategy,
        SupervisorEvent::CloseAll => SupervisorAction::Stop,
        SupervisorEvent::Other => SupervisorAction::Nothing,
    }
}

/// The actions of a supervisor that steps through `events` in turn: once
/// it has stopped it takes no more events.
pub open spec fn supervisor_run(events: Seq<SupervisorEvent>) -> Seq<SupervisorAction>
    decreases events.len(),
{
    if events.len() == 0 {
        Seq::empty()
    } else {
        let prev = supervisor_run(events.drop_last());
        if prev.len() > 0 && prev.last() == SupervisorAction::Stop {
            prev
        } else {
            prev.push(supervisor_action(events.last()))
        }
    }
}

/// A run answers each event it takes with its step, and takes the events up
/// to and including the first that closes everything.
proof fn lemma_supervisor_run(events: Seq<SupervisorEvent>)
    ensures
        ({
            let r = supervisor_run(events);
            &&& r.len() <= events.len()
            &&& events.len() > 0 ==> r.len() > 0
            &&& forall|i: int| 0 <= i < r.len() ==> #[trigger] r[i] == supervisor_action(events[i])
            &&& forall|i: int| 0 <= i < r.len() - 1 ==> events[i] != SupervisorEvent::CloseAll
            &&& r.len() < events.len() ==> events[r.len() - 1] == SupervisorEvent::CloseAll
        }),
    decreases events.len(),
{
    if events.len() > 0 {
        let init = events.drop_last();
        lemma_supervisor_run(init);
        let prev = supervisor_run(init);
        if prev.len() > 0 && prev.last() == SupervisorAction::Stop {
            assert(prev[prev.len() - 1] == supervisor_action(init[prev.len() - 1]));
            assert(init[prev.len() - 1] == events[prev.len() - 1]);
            assert forall|i: int| 0 <= i < prev.len() implies #[trigger] prev[i] == supervisor_action(
                events[i],
            ) by {
                assert(init[i] == events[i]);
            }
            assert forall|i: int| 0 <= i < prev.len() - 1 implies events[i]
                != SupervisorEvent::CloseAll by {
                assert(init[i] == events[i]);
            }
        } else {
            let r = supervisor_run(events);
            assert forall|i: int| 0 <= i < r.len() implies #[trigger] r[i] == supervisor_action(
                events[i],
            ) by {
                if i < prev.len() {
                    assert(init[i] == events[i]);
                }
            }
            if prev.len() < init.len() {
                assert(prev[prev.len() - 1] == supervisor_action(init[prev.len() - 1]));
            }
            assert forall|i: int| 0 <= i < r.len() - 1 implies events[i]
                != SupervisorEvent::CloseAll by {
                assert(init[i] == events[i]);
                if i == prev.len() - 1 {
                    assert(prev[i] == supervisor_action(init[i]));
                }
            }
        }
    }
}

/// The supervisor over a run of events that starts with its own start: it
/// first starts LoRa and the daemon; it starts the
/// ECLA and the strategy exactly on each event that the daemon is up, so
/// never before the first; it stops exactly on the first event that closes
/// everything, and takes no event after it.
pub proof fn law_supervisor_run(events: Seq<SupervisorEvent>)
    requires
        events.len() > 0,
        events[0] == SupervisorEvent::Started,
    ensures
        ({
            let r = supervisor_run(events);
            &&& r.len() > 0 && r[0] == SupervisorAction::StartLoraAndDtnd
            &&& forall|i: int|
                0 <= i < r.len() ==> (#[trigger] r[i] == SupervisorAction::StartEclaAndStrategy
                    <==> events[i] == SupervisorEvent::DtndStarted)
            &&& forall|i: int|
                0 <= i < r.len() ==> (#[trigger] r[i] == SupervisorAction::Stop <==> events[i]
                    == SupervisorEvent::CloseAll)
            &&& forall|i: int| 0 <= i < r.len() - 1 ==> events[i] != SupervisorEvent::CloseAll
            &&& r.len() == events.len() || (r.len() < events.len() && events[r.len() - 1]
                == SupervisorEvent::CloseAll)
        }),
{
    lemma_supervisor_run(events);
    let r = supervisor_run(events);
    assert(r[0] == supervisor_action(events[0]));
    assert forall|i: int| 0 <= i < r.len() implies (#[trigger] r[i]
        == SupervisorAction::StartEclaAndStrategy <==> events[i] == SupervisorEvent::DtndStarted) && (
    r[i] == SupervisorAction::Stop <==> events[i] == SupervisorEvent::CloseAll) by {
        assert(r[i] == supervisor_action(events[i]));
    }
}

/// Each `KEY=VAL` piece is a pair of exactly two parts.
pub open spec fn all_pairs(pieces: Seq<Seq<char>>) -> bool {
    forall|i: int| 0 <= i < pieces.len() ==> split_spec(#[trigger] pieces[i], '=').len() == 2
}

/// The map the pieces give, later keys replacing earlier ones.
pub open spec fn pairs_map(pieces: Seq<Seq<char>>) -> Map<Seq<char>, Seq<char>>
    decreases pieces.len(),
{
    if pieces.len() == 0 {
        Map::empty()
    } else {
        let kv = split_spec(pieces.last(), '=');
        pairs_map(pieces.drop_last()).insert(kv[0], kv[1])
    }
}

/// The texts of a map of strings.
pub open spec fn text_map(m: Map<Seq<char>, String>) -> Map<Seq<char>, Seq<char>> {
    m.map_values(|s: String| s@)
}

/// Reads the strategy arguments of the command line, `KEY=VAL` pairs joined
/// by commas; `None` when a piece is not a pair.
pub fn parse_strategy_args(raw: &str) -> (r: Option<StrMap<String>>)
    ensures
        r is Some == all_pairs(split_spec(raw@, ',')),
        r matches Some(m) ==> m.wf() && text_map(m@) == pairs_map(split_spec(raw@, ',')),
{
    let pieces = split_char(raw, ',');
    let ghost ps = split_spec(raw@, ',');
    let mut m: StrMap<String> = StrMap::new();
    let mut i: usize = 0;
    while i < pieces.len()
        invariant
            ps == split_spec(raw@, ','),
            string_views(pieces@) == ps,
            i <= pieces@.len(),
            m.wf(),
            all_pairs(ps.take(i as int)),
            text_map(m@) == pairs_map(ps.take(i as int)),
        decreases pieces@.len() - i,
    {
        let kv = split_char(pieces[i].as_str(), '=');
        proof {
            assert(ps[i as int] == pieces@[i as int]@);
            assert(ps.take(i + 1).drop_last() =~= ps.take(i as int));
            assert(ps.take(i + 1).last() == ps[i as int]);
        }
        if kv.len() != 2 {
            proof {
                assert(string_views(kv@).len() == kv@.len());
                assert(split_spec(ps[i as int], '=').len() != 2);
                assert(!all_pairs(ps));
            }
            return None;
        }
        let ghost before = m@;
        m.insert(kv[0].clone(), kv[1].clone());
        proof {
            assert(all_pairs(ps.take(i + 1))) by {
                assert forall|j: int| 0 <= j < i + 1 implies split_spec(
                    #[trigger] ps.take(i + 1)[j],
                    '=',
                ).len() == 2 by {
                    if j < i {
                        assert(ps.take(i + 1)[j] == ps.take(i as int)[j]);
                    }
                }
            }
            assert(text_map(m@) =~= text_map(before).insert(kv@[0]@, kv@[1]@));
        }
        i = i + 1;
    }
    proof {
        assert(ps.take(pieces@.len() as int) =~= ps);
    }
    Some(m)
}

/// `s` without the quotes around it: single quotes trimmed first, then
/// double quotes.
pub open spec fn unquote_spec(s: Seq<char>) -> Seq<char> {
    trim_char_spec(trim_char_spec(s, '\''), '"')
}

/// `s` without the quotes around it, as paths and arguments from the
/// configuration are cleaned.
pub fn unquote(s: &str) -> (r: String)
    ensures
        r@ == unquote_spec(s@),
{
    let inner = trim_char(s, '\'');
    trim_char(inner.as_str(), '"')
}

} // verus!
