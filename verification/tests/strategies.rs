use lora_ecla::bundlequeue::{Bundle, QueueContext};
use lora_ecla::global::{publish_node_id, publish_position, get_node_id, get_position, NodeState, PeerTable, StrategyConfig};
use lora_ecla::protocol::{Advertise, BundleForward, Content, PacketType, Position};
use lora_ecla::strategy::digest::digest_ids;
use lora_ecla::strategy::proto::BundleProtoMeta;
use lora_ecla::strategy::quadrant::{quad_distance, send_offset, BundleRecord, QuadrantCore, QuadrantSettings, RecentNeighbor};
use lora_ecla::strategy::random::{draw_priority, draw_start_delay, random_priority, start_delay, RandomCore};
use lora_ecla::strategy::settings::{strategy_kind, RandomSettings, SaWSettings, Setting, StrategyKind};
use lora_ecla::strategy::settings::{duration_units_within, MAX_DURATION_UNITS};
use lora_ecla::clock::{context_now, dtn_time_now, dtn_time_of, MS1970_TO2K};
use lora_ecla::strategy::sprayandwait::{
    handle_new_bundle, handle_received, saw_decide, saw_enqueue_and_rescore, saw_forward_packet, saw_pop_sends, saw_queue,
    sendable_bundles, take_copy, SaWBundleData, SawContext,
};
use lora_ecla::strategy::Interval;
use lora_ecla::strmap::StrMap;
use std::hash::{Hash, Hasher};

fn settings() -> QuadrantSettings {
    QuadrantSettings::from_config(&StrMap::new()).unwrap()
}

fn advertise(name: &str, hash: Option<&str>, position: Option<Position>) -> Advertise {
    let mut data = StrMap::new();
    if let Some(h) = hash {
        data.insert("BH".to_string(), h.to_string());
    }
    Advertise { node_name: name.to_string(), position, data }
}

fn bundle(id: &str, node: Option<&str>) -> Bundle {
    Bundle {
        id: id.to_string(),
        cbor: vec![1, 2, 3],
        destination_service: None,
        destination_node: node.map(|s| s.to_string()),
        creation_time: 0,
        lifetime_ms: 0,
    }
}

#[test]
fn default_settings() {
    let s = settings();
    assert_eq!((s.send_interval.secs, s.send_interval.nanos), (10, 0));
    assert_eq!(s.spread_interval.secs, 35);
    assert_eq!(s.advertise_interval.secs, 60);
    assert_eq!(s.send_packets, 2);
    assert_eq!(s.spread_priority, 2);
    assert_eq!(s.self_forward_priority, 10);
    assert_eq!(s.advertise_priority, 0);
    assert_eq!(s.random_delay_max, 0);
    let saw = SaWSettings::from_config(&StrMap::new()).unwrap();
    assert_eq!((saw.max_copies, saw.max_peer_age, saw.send_packets), (7, 30, 2));
    let random = RandomSettings::from_config(&StrMap::new()).unwrap();
    assert_eq!((random.min_score, random.max_score, random.max_peer_age), (0, 100, 30));
}

#[test]
fn configured_settings_and_their_errors() {
    let mut c = StrMap::new();
    c.insert("SEND_INTERVAL".to_string(), "1m 30s".to_string());
    c.insert("MAX_COPIES".to_string(), "3".to_string());
    let saw = SaWSettings::from_config(&c).unwrap();
    assert_eq!(saw.send_interval.secs, 90);
    assert_eq!(saw.max_copies, 3);
    c.insert("MAX_PEER_AGE".to_string(), "old".to_string());
    assert!(matches!(SaWSettings::from_config(&c), Err(Setting::MaxPeerAge)));
    c.insert("SEND_INTERVAL".to_string(), "soon".to_string());
    assert!(matches!(SaWSettings::from_config(&c), Err(Setting::SendInterval)));
    let mut r = StrMap::new();
    r.insert("RANDOM_DELAY_MAX".to_string(), "-1".to_string());
    assert!(matches!(RandomSettings::from_config(&r), Err(Setting::RandomDelayMax)));
    let mut q = StrMap::new();
    q.insert("SELF_FORWARD_PRIORITY".to_string(), "2147483648".to_string());
    assert!(matches!(QuadrantSettings::from_config(&q), Err(Setting::SelfForwardPriority)));
    assert_eq!(Setting::SpreadInterval.key(), "SPREAD_INTERVAL");
    assert_eq!(Setting::MaxScore.default_text(), "100");
}

#[test]
fn strategy_names() {
    assert_eq!(strategy_kind("quadrant"), Some(StrategyKind::Quadrant));
    assert_eq!(strategy_kind("random"), Some(StrategyKind::Random));
    assert_eq!(strategy_kind("spray_and_wait"), Some(StrategyKind::SprayAndWait));
    assert_eq!(strategy_kind("dummy"), None);
}

#[test]
fn quad_distances_are_one_or_two() {
    assert_eq!(quad_distance(0, 3), 1);
    assert_eq!(quad_distance(2, 0), 1);
    assert_eq!(quad_distance(1, 2), 1);
    assert_eq!(quad_distance(4, 1), 1);
    assert_eq!(quad_distance(1, 3), 2);
    assert_eq!(quad_distance(2, 4), 2);
}

#[test]
fn digest_ignores_order_of_ids() {
    let a = digest_ids(vec!["b".to_string(), "a".to_string(), "c".to_string()]);
    let b = digest_ids(vec!["c".to_string(), "b".to_string(), "a".to_string()]);
    assert_eq!(a, b);
    assert_ne!(a, digest_ids(vec!["a".to_string(), "b".to_string()]));
    assert!(a.chars().all(|c| c.is_ascii_digit() || ('A'..='F').contains(&c)));
}

#[test]
fn forward_data_is_queued_once() {
    let mut core = QuadrantCore::new(settings());
    let p = core.on_forward_data("b1".to_string(), "dtn://n2/".to_string(), vec![9, 9], "n1".to_string(), 100).unwrap();
    assert_eq!(p.kind, PacketType::TypeBundleForward);
    match p.content {
        Some(Content::BundleForward(f)) => {
            assert_eq!(f.sender, "n1");
            assert_eq!(f.destination, "dtn://n2/");
            assert_eq!(f.bundle_id, "b1");
            assert_eq!(f.bundle_data, vec![9, 9]);
        }
        _ => panic!("expected a bundle forward"),
    }
    assert!(core.has_bundle("b1".to_string()));
    assert!(core.was_bundle_seen_at("b1".to_string(), 10, 105));
    assert!(!core.was_bundle_seen_at("b1".to_string(), 10, 110));
    assert!(core.on_forward_data("b1".to_string(), "dtn://n2/".to_string(), vec![9, 9], "n1".to_string(), 159).is_none());
    assert!(!core.was_bundle_seen_at("b1".to_string(), 1, 159));
    assert_eq!(core.bundles_hash(), digest_ids(vec!["b1".to_string()]));
}

#[test]
fn forward_data_is_queued_again_after_the_window() {
    let mut core = QuadrantCore::new(settings());
    assert!(core.on_forward_data("b1".to_string(), "dtn://n2/".to_string(), vec![9, 9], "n1".to_string(), 100).is_some());
    let again = core.on_forward_data("b1".to_string(), "dtn://n3/".to_string(), vec![7], "n1".to_string(), 160).unwrap();
    match again.content {
        Some(Content::BundleForward(f)) => {
            assert_eq!(f.destination, "dtn://n3/");
            assert_eq!(f.bundle_data, vec![7]);
        }
        _ => panic!("expected a bundle forward"),
    }
    assert!(core.was_bundle_seen_at("b1".to_string(), 1, 160));
    assert!(core.on_forward_data("b1".to_string(), "dtn://n3/".to_string(), vec![7], "n1".to_string(), 219).is_none());
    assert_eq!(core.bundles_hash(), digest_ids(vec!["b1".to_string()]));
}

#[test]
fn advertisements_record_neighbours() {
    let mut core = QuadrantCore::new(settings());
    assert!(!core.on_advertise(advertise("", Some("X"), None), 5));
    assert!(core.on_advertise(advertise("n2", Some("ABC"), Some(Position::Xy { x: 1, y: 2 })), 5));
    assert!(core.on_advertise(advertise("n3", None, None), 6));
    assert!(matches!(core.sender_position("n2"), Position::Xy { x: 1, y: 2 }));
    assert!(matches!(core.sender_position("n3"), Position::NoPos));
    assert!(matches!(core.sender_position("n9"), Position::NoPos));
    assert_eq!(core.neighbor_positions().len(), 2);
}

#[test]
fn retransmission_priority_counts_neighbours_in_other_quadrants() {
    let mut core = QuadrantCore::new(settings());
    core.on_advertise(advertise("a", Some("H1"), None), 1);
    core.on_advertise(advertise("b", Some("H2"), None), 1);
    core.on_advertise(advertise("s", Some("H3"), None), 1);
    let quads = vec![1, 3, 2];
    let fwd = BundleForward {
        destination: "dtn://x/".to_string(),
        sender: "s".to_string(),
        bundle_id: "bid".to_string(),
        bundle_data: vec![7],
        data: StrMap::new(),
    };
    // sender in quadrant 2: a (1) is a neighbouring quadrant, b (3) too, s is the sender
    let (prio, packet) = core.on_bundle_forward(fwd, 2, &quads, "me".to_string(), 50);
    assert_eq!(prio, 20);
    match packet.content {
        Some(Content::BundleForward(f)) => assert_eq!(f.sender, "me"),
        _ => panic!("expected a bundle forward"),
    }
    assert!(core.has_bundle("bid".to_string()));
    // the bundle was heard from s
    let again = BundleForward {
        destination: "dtn://x/".to_string(),
        sender: "a".to_string(),
        bundle_id: "bid".to_string(),
        bundle_data: vec![7],
        data: StrMap::new(),
    };
    let (prio2, _) = core.on_bundle_forward(again, 4, &quads, "me".to_string(), 51);
    // a is the sender now; b (3) is in another quadrant than 4 at distance 1; s has the bundle
    assert_eq!(prio2, 10);
}

#[test]
fn spreading_and_advertising() {
    let mut core = QuadrantCore::new(settings());
    core.set_bundle_seen(BundleRecord { destination: "d".to_string(), bundle_id: "b1".to_string(), bundle_data: vec![1] }, String::new(), 1);
    core.on_advertise(advertise("n2", Some("other"), None), 1);
    core.on_advertise(advertise("n3", Some("other"), None), 1);
    let spread = core.spreadable_bundles();
    assert_eq!(spread.len(), 1);
    assert_eq!(spread[0].0.bundle_id, "b1");
    assert_eq!(spread[0].1, 4);
    let own_hash = core.bundles_hash();
    core.on_advertise(advertise("n3", Some(own_hash.as_str()), None), 2);
    assert_eq!(core.spreadable_bundles()[0].1, 2);

    assert!(core.advertise_packet(String::new(), Position::NoPos, "NP".to_string()).is_none());
    let adv = core.advertise_packet("n1".to_string(), Position::NoPos, "NP".to_string()).unwrap();
    match adv.content {
        Some(Content::Advertise(a)) => {
            assert_eq!(a.data.get("BH").unwrap(), &own_hash);
            assert_eq!(a.data.get("P").unwrap(), "NP");
        }
        _ => panic!("expected an advertisement"),
    }
}

#[test]
fn quadrant_queue_and_send_tick() {
    let mut s = settings();
    s.send_packets = 1;
    let mut core = QuadrantCore::new(s);
    let c = QueueContext { now: 100, dtn_now: 0, extra: () };
    let m = BundleProtoMeta { proto_type: PacketType::TypeAdvertise, proto_packet: vec![1; 10], queued: 100 };
    assert_eq!(core.queue_packet(&c, 3, m), (true, 3));
    let big = BundleProtoMeta { proto_type: PacketType::TypeAdvertise, proto_packet: vec![1; 300], queued: 100 };
    assert_eq!(core.queue_packet(&c, 3, big), (false, 0));
    let older = BundleProtoMeta { proto_type: PacketType::TypeAdvertise, proto_packet: vec![2; 10], queued: 40 };
    assert_eq!(core.queue_packet(&c, 0, older), (true, 6));
    assert_eq!(core.send_tick(&c), vec![vec![2; 10]]);
    assert_eq!(core.send_tick(&c), vec![vec![1; 10]]);
    assert_eq!(core.send_tick(&c), Vec::<Vec<u8>>::new());
}

#[test]
fn send_offsets_stay_in_range() {
    assert_eq!(send_offset(&"n1".to_string(), 0), 0);
    let o = send_offset(&"n1".to_string(), 5);
    assert!((1..=5).contains(&o));
    assert_eq!(o, send_offset(&"n1".to_string(), 5));
}

#[test]
fn spray_and_wait_copies() {
    let mut h: StrMap<SaWBundleData> = StrMap::new();
    handle_new_bundle(&mut h, bundle("dtn://n1/-1-0", Some("dtn://n9/")), "dtn://n1/-1-0".to_string(), 7, &"dtn://n1/".to_string());
    handle_new_bundle(&mut h, bundle("dtn://n5/-1-0", Some("dtn://n9/")), "dtn://n5/-1-0".to_string(), 7, &"dtn://n1/".to_string());
    assert_eq!(h.get("dtn://n1/-1-0").unwrap().remaining_copies, 7);
    assert_eq!(h.get("dtn://n5/-1-0").unwrap().remaining_copies, 1);
    // a second pass changes nothing
    handle_new_bundle(&mut h, bundle("dtn://n1/-1-0", None), "dtn://n1/-1-0".to_string(), 2, &"dtn://n1/".to_string());
    assert_eq!(h.get("dtn://n1/-1-0").unwrap().remaining_copies, 7);
    assert!(h.get("dtn://n1/-1-0").unwrap().bundle.destination_node.is_some());

    handle_received(&mut h, "dtn://n1/-1-0".to_string(), "n2".to_string());
    handle_received(&mut h, "dtn://n1/-1-0".to_string(), "n2".to_string());
    assert_eq!(h.get("dtn://n1/-1-0").unwrap().remaining_copies, 6);
    assert_eq!(h.get("dtn://n1/-1-0").unwrap().nodes, vec!["n2".to_string()]);

    let mut peers = PeerTable::new();
    peers.on_advertise(advertise("n3", None, None), 100);
    peers.on_advertise(advertise("n2", None, None), 100);
    assert!(take_copy(&mut h, &peers, &"dtn://n1/-1-0".to_string(), &"dtn://n9/".to_string(), 30, 110));
    let d = h.get("dtn://n1/-1-0").unwrap();
    assert_eq!(d.remaining_copies, 5);
    assert_eq!(d.nodes, vec!["n2".to_string(), "n3".to_string()]);
    // the last copy of a foreign bundle only goes to its destination
    assert!(!take_copy(&mut h, &peers, &"dtn://n5/-1-0".to_string(), &"dtn://n9/".to_string(), 30, 110));
    assert_eq!(h.get("dtn://n5/-1-0").unwrap().remaining_copies, 1);
    peers.on_advertise(advertise("dtn://n9/", None, None), 105);
    assert!(take_copy(&mut h, &peers, &"dtn://n5/-1-0".to_string(), &"dtn://n9/".to_string(), 30, 110));
    assert_eq!(h.get("dtn://n5/-1-0").unwrap().remaining_copies, 0);
    assert!(!take_copy(&mut h, &peers, &"unknown".to_string(), &"dtn://n9/".to_string(), 30, 110));

    let sendable = sendable_bundles(&h);
    assert_eq!(sendable.len(), 1);
    assert_eq!(sendable[0].0, "dtn://n1/-1-0");
}

#[test]
fn spray_and_wait_decisions() {
    let mut h: StrMap<SaWBundleData> = StrMap::new();
    handle_new_bundle(&mut h, bundle("x", Some("dtn://n9/")), "x".to_string(), 2, &"n1".to_string());
    let peers = PeerTable::new();
    let m = || Some(BundleProtoMeta { proto_type: PacketType::TypeBundleForward, proto_packet: vec![4, 2], queued: 0 });
    assert_eq!(saw_decide(&mut h, &peers, None, m(), 30, 0), Some(vec![4, 2]));
    assert_eq!(saw_decide(&mut h, &peers, Some(bundle("x", Some("dtn://n9/"))), None, 30, 0), None);
    // x is foreign: one copy, destination unseen
    assert_eq!(saw_decide(&mut h, &peers, Some(bundle("x", Some("dtn://n9/"))), m(), 30, 0), None);
    assert_eq!(saw_decide(&mut h, &peers, Some(bundle("x", None)), m(), 30, 0), None);
    let mut own: StrMap<SaWBundleData> = StrMap::new();
    handle_new_bundle(&mut own, bundle("n1-1", Some("dtn://n9/")), "n1-1".to_string(), 3, &"n1".to_string());
    assert_eq!(saw_decide(&mut own, &peers, Some(bundle("n1-1", Some("dtn://n9/"))), m(), 30, 0), Some(vec![4, 2]));
    assert_eq!(own.get("n1-1").unwrap().remaining_copies, 2);

    let p = saw_forward_packet(&"x".to_string(), &bundle("x", Some("dtn://n9/")), &"n1".to_string()).unwrap();
    assert!(matches!(p.content, Some(Content::BundleForward(ref f)) if f.destination == "dtn://n9/" && f.bundle_data == vec![1, 2, 3]));
    assert!(saw_forward_packet(&"x".to_string(), &bundle("x", None), &"n1".to_string()).is_none());
}

#[test]
fn random_priorities_and_delays() {
    assert_eq!(random_priority(0, 100, 250), Some(50));
    assert_eq!(random_priority(10, 100, -250), Some(-40));
    assert_eq!(random_priority(0, 0, 5), None);
    assert_eq!(random_priority(i32::MAX, 100, 5), None);
    assert_eq!(random_priority(0, -1, i32::MIN), None);
    assert_eq!(start_delay(0, 77), 0);
    assert_eq!(start_delay(10, 77), 8);
}

#[test]
fn random_send_tick() {
    let mut core = RandomCore::new(RandomSettings::from_config(&StrMap::new()).unwrap());
    let c = QueueContext { now: 0, dtn_now: 0, extra: () };
    let m = |b: u8| BundleProtoMeta { proto_type: PacketType::TypeBundleForward, proto_packet: vec![b], queued: 0 };
    assert_eq!(core.queue_bundle(&c, 5, vec![0], m(5)), (true, 5));
    assert_eq!(core.queue_bundle(&c, 9, vec![0], m(9)), (true, 9));
    assert_eq!(core.queue_bundle(&c, 1, vec![0], m(1)), (true, 1));
    core.recommend_advertise(vec![42]);
    let lonely = PeerTable::new();
    assert_eq!(core.send_tick(&lonely, 100), vec![vec![42]]);
    let mut peers = PeerTable::new();
    peers.on_advertise(advertise("n2", None, None), 95);
    core.recommend_advertise(vec![43]);
    assert_eq!(core.send_tick(&peers, 100), vec![vec![43], vec![9]]);
    assert_eq!(core.send_tick(&peers, 100), vec![vec![5], vec![1]]);
    assert_eq!(core.send_tick(&peers, 200), Vec::<Vec<u8>>::new());
}

#[test]
fn peers_and_node_state() {
    let mut peers = PeerTable::new();
    peers.on_advertise(advertise("n2", Some("h"), Some(Position::NoPos)), 100);
    assert!(peers.has_seen_peer_at("n2", 1, 100));
    assert!(!peers.has_seen_peer_at("n2", 10, 110));
    assert!(!peers.has_seen_peer_at("n3", 10, 100));
    peers.on_advertise(advertise("n3", None, None), 105);
    assert_eq!(peers.peer_names_at(10, 110), vec!["n3".to_string()]);
    assert_eq!(peers.peer_names_at(20, 110), vec!["n2".to_string(), "n3".to_string()]);
    assert_eq!(peers.get("n2").unwrap().last_data.get("BH").unwrap(), "h");

    let mut s = NodeState::new();
    assert_eq!(get_node_id(&s), "");
    publish_node_id(&mut s, "dtn://n1/".to_string());
    publish_position(&mut s, Position::LatLng { lat: 1, lng: 2 });
    assert_eq!(get_node_id(&s), "dtn://n1/");
    assert!(matches!(get_position(&s), Position::LatLng { lat: 1, lng: 2 }));
    let _ = StrategyConfig { name: "random".to_string(), config: StrMap::new() };
    let _ = Interval { secs: 1, nanos: 0 };
    let _ = RecentNeighbor::new(0, String::new(), Position::NoPos);
}

#[test]
fn spray_and_wait_send_tick() {
    let mut h: StrMap<SaWBundleData> = StrMap::new();
    handle_new_bundle(&mut h, bundle("n1-1", Some("dtn://n9/")), "n1-1".to_string(), 3, &"n1".to_string());
    let mut peers = PeerTable::new();
    peers.on_advertise(advertise("n2", None, None), 100);
    let mut q = saw_queue(30);
    let ctx = QueueContext { now: 100, dtn_now: 0, extra: SawContext::new(h, peers) };
    let m = |b: u8, queued: u64| Some(BundleProtoMeta { proto_type: PacketType::TypeBundleForward, proto_packet: vec![b], queued });
    assert_eq!(q.push(&ctx, 0, Some(bundle("n1-1", Some("dtn://n9/"))), m(1, 40)), (true, 2));
    assert_eq!(q.push(&ctx, 5, None, m(9, 100)), (true, 5));
    // a bundle without history passes the rule, one without copies does not
    assert_eq!(q.push(&ctx, 0, Some(bundle("other", Some("dtn://n9/"))), m(3, 100)), (true, 0));
    let (mut h, peers) = ctx.extra.into_parts();
    let sends = saw_pop_sends(&mut q, &mut h, &peers, 2, 30, 100);
    assert_eq!(sends, vec![vec![9], vec![1]]);
    let d = h.get("n1-1").unwrap();
    assert_eq!(d.remaining_copies, 2);
    assert_eq!(d.nodes, vec!["n2".to_string()]);
    // the bundle without history is popped but does not go out
    assert_eq!(saw_pop_sends(&mut q, &mut h, &peers, 5, 30, 100), Vec::<Vec<u8>>::new());
    assert_eq!(q.len(), 0);
}

#[test]
fn spray_and_wait_hands_out_at_most_its_copies() {
    let mut h: StrMap<SaWBundleData> = StrMap::new();
    handle_new_bundle(&mut h, bundle("n1-1", Some("dtn://n9/")), "n1-1".to_string(), 3, &"n1".to_string());
    let mut peers = PeerTable::new();
    let mut q = saw_queue(30);
    let mut sent = 0;
    for (tick, newcomer) in ["n2", "n2", "n3", "n4", "dtn://n9/", "n5"].iter().enumerate() {
        peers.on_advertise(advertise(newcomer, None, None), 100);
        let ctx = QueueContext { now: 100, dtn_now: 0, extra: SawContext::new(h, peers) };
        let m = Some(BundleProtoMeta { proto_type: PacketType::TypeBundleForward, proto_packet: vec![tick as u8], queued: 100 });
        q.push(&ctx, 0, Some(bundle("n1-1", Some("dtn://n9/"))), m);
        q.rescore(&ctx);
        let (h2, p2) = ctx.extra.into_parts();
        h = h2;
        peers = p2;
        sent += saw_pop_sends(&mut q, &mut h, &peers, 2, 30, 100).len();
        assert_eq!(sent + h.get("n1-1").unwrap().remaining_copies, 3);
    }
    assert_eq!(sent, 3);
    assert_eq!(h.get("n1-1").unwrap().remaining_copies, 0);
    assert!(sendable_bundles(&h).is_empty());
}

#[test]
fn random_draws_and_clock() {
    for _ in 0..20 {
        let d = draw_start_delay(5);
        assert!((1..=5).contains(&d));
        let p = draw_priority(10, 100).unwrap();
        assert!((-89..=109).contains(&p));
    }
    assert_eq!(draw_start_delay(0), 0);
    assert_eq!(draw_priority(0, 0), None);
    let m = BundleProtoMeta::new(PacketType::TypeAdvertise, vec![1]);
    assert!(m.queued > 1_600_000_000);
    let ctx = lora_ecla::clock::context_now(7u8);
    assert_eq!(ctx.extra, 7);
    assert!(ctx.now > 1_600_000_000);
    assert!(ctx.dtn_now > 0);
}

#[test]
fn durations_that_could_overflow_are_refused() {
    assert_eq!(MAX_DURATION_UNITS, 500_000_000_000);
    let mut c = StrMap::new();
    c.insert("SEND_INTERVAL".to_string(), "1000000000ns".to_string());
    let saw = SaWSettings::from_config(&c).unwrap();
    assert_eq!((saw.send_interval.secs, saw.send_interval.nanos), (1, 0));
    c.insert("SEND_INTERVAL".to_string(), "10000000000s".to_string());
    assert_eq!(SaWSettings::from_config(&c).unwrap().send_interval.secs, 10_000_000_000);
    c.insert("SEND_INTERVAL".to_string(), "1 2s".to_string());
    assert_eq!(SaWSettings::from_config(&c).unwrap().send_interval.secs, 12);
    c.insert("SEND_INTERVAL".to_string(), "18446744073709551615s 1000000000ns".to_string());
    assert!(matches!(SaWSettings::from_config(&c), Err(Setting::SendInterval)));
    assert!(duration_units_within("499999999999s"));
    assert!(!duration_units_within("500000000000s"));
    assert!(!duration_units_within("250000000000s 250000000000ms"));
    assert!(duration_units_within("249999999999s 249999999999ms"));
    assert!(!duration_units_within("5000 00000000s"));
    assert!(duration_units_within("4999 99999999s"));
    assert!(duration_units_within("1.5h 30m"));
    assert!(duration_units_within(""));
}

#[test]
fn dtn_time_saturates_before_2000() {
    assert_eq!(MS1970_TO2K, 946_684_800_000);
    assert_eq!(dtn_time_of(946_684_800_000 + 1234), 1234);
    assert_eq!(dtn_time_of(946_684_800_000), 0);
    assert_eq!(dtn_time_of(5_000), 0);
    let now = dtn_time_now();
    assert!(now > 0);
    assert!(now <= bp7::dtn_time_now() + 1000);
    assert_eq!(context_now(7u8).extra, 7);
}

#[test]
fn random_send_tick_without_peers_needs_no_budget() {
    let mut c = StrMap::new();
    c.insert("SEND_PACKETS".to_string(), "-2147483648".to_string());
    let mut core = RandomCore::new(RandomSettings::from_config(&c).unwrap());
    let ctx = QueueContext { now: 0, dtn_now: 0, extra: () };
    let m = BundleProtoMeta { proto_type: PacketType::TypeBundleForward, proto_packet: vec![7], queued: 0 };
    core.queue_bundle(&ctx, 5, vec![0], m);
    core.recommend_advertise(vec![42]);
    assert_eq!(core.send_tick(&PeerTable::new(), 100), vec![vec![42]]);
    assert_eq!(core.send_tick(&PeerTable::new(), 100), Vec::<Vec<u8>>::new());
}

#[test]
fn neighbour_has_exactly_the_bundles_heard() {
    let mut n = RecentNeighbor::new(10, "H".to_string(), Position::NoPos);
    assert!(!n.has_bundle("b1".to_string()));
    n.set_bundle_seen("b1".to_string(), 5);
    n.set_bundle_seen("b2".to_string(), 0);
    n.set_bundle_seen("b1".to_string(), 900);
    assert!(n.has_bundle("b1".to_string()));
    assert!(n.has_bundle("b2".to_string()));
    assert!(!n.has_bundle("b3".to_string()));
    assert!(n.was_bundle_seen_at("b1".to_string(), 60, 920));
    assert!(!n.was_bundle_seen_at("b2".to_string(), 60, 920));
}

#[test]
fn recent_peer_names_grow_with_age() {
    let mut peers = PeerTable::new();
    peers.on_advertise(advertise("n2", None, None), 100);
    peers.on_advertise(advertise("n3", None, None), 80);
    peers.on_advertise(advertise("n2", None, None), 105);
    peers.on_advertise(advertise("n4", None, None), 50);
    let short = peers.peer_names_at(10, 110);
    let long = peers.peer_names_at(40, 110);
    assert_eq!(short, vec!["n2".to_string()]);
    assert_eq!(long.len(), 2);
    assert!(long.contains(&"n2".to_string()) && long.contains(&"n3".to_string()));
    assert!(short.iter().all(|n| long.contains(n)));
    for (i, a) in long.iter().enumerate() {
        assert!(long.iter().skip(i + 1).all(|b| b != a));
        assert!(peers.has_seen_peer_at(a, 40, 110));
    }
    assert!(!peers.has_seen_peer_at("n4", 40, 110));
}

#[test]
fn spray_and_wait_copies_never_grow() {
    let mut h: StrMap<SaWBundleData> = StrMap::new();
    handle_new_bundle(&mut h, bundle("n1-1", Some("dtn://n9/")), "n1-1".to_string(), 3, &"n1".to_string());
    handle_new_bundle(&mut h, bundle("n7-1", Some("dtn://n9/")), "n7-1".to_string(), 3, &"n1".to_string());
    assert_eq!(h.get("n1-1").unwrap().remaining_copies, 3);
    assert_eq!(h.get("n7-1").unwrap().remaining_copies, 1);
    let mut last = 3;
    // passing it again, receiving it back, and send ticks never raise the count
    handle_new_bundle(&mut h, bundle("n1-1", Some("dtn://n9/")), "n1-1".to_string(), 3, &"n1".to_string());
    assert_eq!(h.get("n1-1").unwrap().remaining_copies, last);
    handle_received(&mut h, "n1-1".to_string(), "n5".to_string());
    assert_eq!(h.get("n1-1").unwrap().remaining_copies, 2);
    handle_received(&mut h, "n1-1".to_string(), "n5".to_string());
    assert_eq!(h.get("n1-1").unwrap().remaining_copies, 2);
    last = 2;
    let mut peers = PeerTable::new();
    peers.on_advertise(advertise("n2", None, None), 100);
    let mut q = saw_queue(30);
    for tick in 0..3u8 {
        let ctx = QueueContext { now: 100, dtn_now: 0, extra: SawContext::new(h, peers) };
        let m = BundleProtoMeta { proto_type: PacketType::TypeBundleForward, proto_packet: vec![tick], queued: 100 };
        saw_enqueue_and_rescore(&mut q, &ctx, vec![(bundle("n1-1", Some("dtn://n9/")), m)]);
        let (h2, p2) = ctx.extra.into_parts();
        h = h2;
        peers = p2;
        let sends = saw_pop_sends(&mut q, &mut h, &peers, 1, 30, 100);
        assert!(sends.len() <= 1);
        let now_left = h.get("n1-1").unwrap().remaining_copies;
        assert!(now_left <= last);
        last = now_left;
        assert!(h.get("n7-1").is_some());
    }
    assert_eq!(last, 1);
}

#[test]
fn enqueue_and_rescore_pushes_in_turn() {
    let mut h: StrMap<SaWBundleData> = StrMap::new();
    handle_new_bundle(&mut h, bundle("n1-1", Some("dtn://n9/")), "n1-1".to_string(), 3, &"n1".to_string());
    handle_new_bundle(&mut h, bundle("n1-2", Some("dtn://n9/")), "n1-2".to_string(), 0, &"n1".to_string());
    let mut peers = PeerTable::new();
    peers.on_advertise(advertise("n2", None, None), 150);
    let mut q = saw_queue(30);
    let ctx = QueueContext { now: 160, dtn_now: 0, extra: SawContext::new(h, peers) };
    let m = |b: u8, queued: u64| BundleProtoMeta { proto_type: PacketType::TypeBundleForward, proto_packet: vec![b], queued };
    saw_enqueue_and_rescore(
        &mut q,
        &ctx,
        vec![
            (bundle("n1-1", Some("dtn://n9/")), m(1, 100)),
            (bundle("n1-2", Some("dtn://n9/")), m(2, 100)),
            (bundle("n1-1", Some("dtn://n9/")), m(1, 130)),
        ],
    );
    // the bundle without copies is refused, the repeated one kept once,
    // rescored by the half minutes its first packet has waited
    assert_eq!(q.len(), 1);
    let (b, meta, prio) = q.pop().unwrap();
    assert_eq!(b.unwrap().id, "n1-1");
    assert_eq!(meta.unwrap().proto_packet, vec![1]);
    assert_eq!(prio, 2);
}

#[test]
fn digest_is_the_upper_hex_hash_of_the_sorted_ids() {
    for ids in [vec!["b", "a", "c"], vec!["dtn://n1/-1"], vec![]] {
        let mut sorted: Vec<String> = ids.iter().map(|s| s.to_string()).collect();
        sorted.sort();
        let mut hasher = std::collections::hash_map::DefaultHasher::new();
        sorted.concat().hash(&mut hasher);
        let expected = format!("{:X}", hasher.finish());
        assert_eq!(digest_ids(ids.iter().map(|s| s.to_string()).collect()), expected);
    }
}
