use lora_ecla::bundlequeue::allower::{is_lifetime_exceeded, AllowBundleSize, AllowStillAlive};
use lora_ecla::bundlequeue::scorer::{ScoreBundleSize, ScoreEndpointService};
use lora_ecla::bundlequeue::{Allower, Bundle, BundleQueue, NoMeta, NoRule, QueueContext, Scorer};
use lora_ecla::protocol::PacketType;
use lora_ecla::strategy::proto::{generate_sends, BundleProtoMeta};
use lora_ecla::strmap::StrMap;

fn ctx() -> QueueContext<()> {
    QueueContext { now: 1000, dtn_now: 0, extra: () }
}

fn meta(bytes: &[u8], queued: u64) -> BundleProtoMeta {
    BundleProtoMeta { proto_type: PacketType::TypeAdvertise, proto_packet: bytes.to_vec(), queued }
}

fn bundle_bytes(dst: &str, payload: &[u8]) -> Vec<u8> {
    let mut b = bp7::bundle::new_std_payload_bundle(
        bp7::EndpointID::try_from("dtn://src/").unwrap(),
        bp7::EndpointID::try_from(dst).unwrap(),
        payload.to_vec(),
    );
    b.to_cbor()
}

fn plain_bundle(id: &str, size: usize, service: Option<&str>) -> Bundle {
    Bundle {
        id: id.to_string(),
        cbor: vec![0; size],
        destination_service: service.map(|s| s.to_string()),
        destination_node: Some("dtn://n2/".to_string()),
        creation_time: 0,
        lifetime_ms: 0,
    }
}

type PlainQueue = BundleQueue<BundleProtoMeta, (), NoRule, NoRule>;

#[test]
fn pop_returns_highest_priority_first() {
    let mut q: PlainQueue = BundleQueue::new();
    assert_eq!(q.push(&ctx(), 5, None, Some(meta(b"a", 0))), (true, 5));
    assert_eq!(q.push(&ctx(), 9, None, Some(meta(b"b", 0))), (true, 9));
    assert_eq!(q.push(&ctx(), -1, None, Some(meta(b"c", 0))), (true, -1));
    assert_eq!(q.len(), 3);
    let first = q.pop().unwrap();
    assert_eq!(first.1.unwrap().proto_packet, b"b".to_vec());
    assert_eq!(first.2, 9);
    assert_eq!(q.pop().unwrap().2, 5);
    assert_eq!(q.pop().unwrap().2, -1);
    assert!(q.pop().is_none());
}

#[test]
fn an_entry_without_bundle_and_meta_is_refused() {
    let mut q: PlainQueue = BundleQueue::new();
    assert_eq!(q.push(&ctx(), 5, None, None), (false, 0));
    assert_eq!(q.len(), 0);
}

#[test]
fn pushing_the_same_entry_twice_keeps_one() {
    let mut q: PlainQueue = BundleQueue::new();
    let b = plain_bundle("dtn://src/-1-0", 10, None);
    assert_eq!(q.push(&ctx(), 1, Some(b.duplicate()), Some(meta(b"x", 0))), (true, 1));
    assert_eq!(q.push(&ctx(), 7, Some(b.duplicate()), Some(meta(b"x", 5))), (true, 7));
    assert_eq!(q.len(), 1);
    assert_eq!(q.pop().unwrap().2, 7);
    // entries without a bundle are never merged
    assert_eq!(q.push(&ctx(), 1, None, Some(meta(b"y", 0))), (true, 1));
    assert_eq!(q.push(&ctx(), 1, None, Some(meta(b"y", 0))), (true, 1));
    assert_eq!(q.len(), 2);
}

#[test]
fn push_buf_decodes_bundles() {
    let mut q: PlainQueue = BundleQueue::new();
    let bytes = bundle_bytes("dtn://n2/inbox", b"hello");
    let decoded = bp7::bundle::Bundle::try_from(bytes.clone()).unwrap();
    assert_eq!(q.push_buf(&ctx(), 3, bytes, Some(meta(b"m", 0))), (true, 3));
    let (bndl, _, prio) = q.pop().unwrap();
    let b = bndl.unwrap();
    assert_eq!(prio, 3);
    assert_eq!(b.id, decoded.id());
    assert_eq!(b.destination_service.as_deref(), Some("inbox"));
    assert_eq!(b.destination_node.as_deref(), Some("dtn://n2/"));
    assert!(b.lifetime_ms > 0);

    assert_eq!(q.push_buf(&ctx(), 3, vec![1, 2, 3], Some(meta(b"m", 0))), (true, 3));
    let (none, m, _) = q.pop().unwrap();
    assert!(none.is_none());
    assert_eq!(m.unwrap().proto_packet, b"m".to_vec());
}

#[test]
fn rescore_drops_disallowed_and_is_stable() {
    let mut q: BundleQueue<BundleProtoMeta, (), AllowBundleSize, ScoreBundleSize> = BundleQueue::new();
    q.add_scorer(ScoreBundleSize::new(10, 0, 1));
    q.add_allower(AllowBundleSize::new(100));
    assert_eq!(q.push(&ctx(), 0, Some(plain_bundle("b1", 50, None)), Some(meta(b"1", 0))), (true, 40));
    assert_eq!(q.push(&ctx(), 2, Some(plain_bundle("b2", 5, None)), Some(meta(b"2", 0))), (true, 2));
    assert_eq!(q.push(&ctx(), 0, Some(plain_bundle("b3", 100, None)), Some(meta(b"3", 0))), (false, 0));
    assert_eq!(q.len(), 2);
    q.rescore(&ctx());
    assert_eq!(q.len(), 2);
    q.rescore(&ctx());
    assert_eq!(q.len(), 2);
    assert_eq!(q.pop().unwrap().2, 40);
    assert_eq!(q.pop().unwrap().2, 2);
}

#[test]
fn size_scores() {
    let s = ScoreBundleSize::new(100, 5, -2);
    let c = ctx();
    assert_eq!(<ScoreBundleSize as Scorer<NoMeta, ()>>::score(&s, &c, &Some(plain_bundle("b", 80, None)), &None), 5);
    assert_eq!(<ScoreBundleSize as Scorer<NoMeta, ()>>::score(&s, &c, &Some(plain_bundle("b", 130, None)), &None), -55);
    assert_eq!(<ScoreBundleSize as Scorer<NoMeta, ()>>::score(&s, &c, &None, &None), 0);
}

#[test]
fn service_scores() {
    let mut m = StrMap::new();
    m.insert("inbox".to_string(), 12);
    let s = ScoreEndpointService::new(m);
    let c = ctx();
    assert_eq!(<ScoreEndpointService as Scorer<NoMeta, ()>>::score(&s, &c, &Some(plain_bundle("b", 1, Some("inbox"))), &None), 12);
    assert_eq!(<ScoreEndpointService as Scorer<NoMeta, ()>>::score(&s, &c, &Some(plain_bundle("b", 1, Some("other"))), &None), 0);
    assert_eq!(<ScoreEndpointService as Scorer<NoMeta, ()>>::score(&s, &c, &Some(plain_bundle("b", 1, None)), &None), 0);
}

#[test]
fn lifetimes() {
    let mut b = plain_bundle("b", 1, None);
    b.creation_time = 1000;
    b.lifetime_ms = 500;
    assert!(!is_lifetime_exceeded(&b, 1499));
    assert!(is_lifetime_exceeded(&b, 1500));
    b.creation_time = 0;
    assert!(!is_lifetime_exceeded(&b, u64::MAX));
    let a = AllowStillAlive::new();
    let late = QueueContext { now: 0, dtn_now: 10_000, extra: () };
    b.creation_time = 1000;
    assert!(!<AllowStillAlive as Allower<NoMeta, ()>>::allow(&a, &late, &Some(b.duplicate()), &None));
    assert!(<AllowStillAlive as Allower<NoMeta, ()>>::allow(&a, &late, &None, &None));
}

#[test]
fn sends_are_limited_and_ordered() {
    let mut q: PlainQueue = BundleQueue::new();
    q.push(&ctx(), 1, None, Some(meta(b"low", 0)));
    q.push(&ctx(), 3, None, Some(meta(b"high", 0)));
    q.push(&ctx(), 2, None, Some(meta(b"mid", 0)));
    let sends = generate_sends(&mut q, &ctx(), 2, true);
    assert_eq!(sends, vec![b"high".to_vec(), b"mid".to_vec()]);
    assert_eq!(q.len(), 1);
    assert_eq!(generate_sends(&mut q, &ctx(), -3, false), Vec::<Vec<u8>>::new());
    assert_eq!(generate_sends(&mut q, &ctx(), 5, false), vec![b"low".to_vec()]);
}

#[test]
fn what_is_pushed_into_an_empty_queue_pops_out() {
    let mut q: PlainQueue = BundleQueue::new();
    let b = plain_bundle("dtn://src/-7-0", 4, Some("inbox"));
    assert_eq!(q.push(&ctx(), 11, Some(b.duplicate()), Some(meta(b"z", 3))), (true, 11));
    let (bndl, m, prio) = q.pop().unwrap();
    let bndl = bndl.unwrap();
    assert_eq!(bndl.id, b.id);
    assert_eq!(bndl.destination_service, b.destination_service);
    let m = m.unwrap();
    assert_eq!(m.proto_packet, b"z".to_vec());
    assert_eq!(m.queued, 3);
    assert_eq!(prio, 11);
    assert_eq!(q.len(), 0);
    assert!(q.pop().is_none());
}

#[test]
fn queue_lengths_follow_push_pop_and_rescore() {
    let mut q: BundleQueue<BundleProtoMeta, (), AllowBundleSize, ScoreBundleSize> = BundleQueue::new();
    q.add_allower(AllowBundleSize::new(100));
    q.push(&ctx(), 0, Some(plain_bundle("b1", 50, None)), Some(meta(b"1", 0)));
    assert_eq!(q.len(), 1);
    q.push(&ctx(), 3, Some(plain_bundle("b1", 50, None)), Some(meta(b"1", 9)));
    assert_eq!(q.len(), 1);
    q.push(&ctx(), 0, Some(plain_bundle("b2", 200, None)), Some(meta(b"2", 0)));
    assert_eq!(q.len(), 1);
    q.push(&ctx(), 0, Some(plain_bundle("b3", 10, None)), Some(meta(b"3", 0)));
    assert_eq!(q.len(), 2);
    q.rescore(&ctx());
    assert_eq!(q.len(), 2);
    assert!(q.pop().is_some());
    assert_eq!(q.len(), 1);
    assert!(q.pop().is_some());
    assert_eq!(q.len(), 0);
    assert!(q.pop().is_none());
    assert_eq!(q.len(), 0);
}

#[test]
fn draining_leaves_what_was_not_sent() {
    let mut q: PlainQueue = BundleQueue::new();
    for i in 0..5u8 {
        q.push(&ctx(), i as i32, None, Some(meta(&[i], 0)));
    }
    let sends = generate_sends(&mut q, &ctx(), 3, false);
    assert_eq!(sends, vec![vec![4], vec![3], vec![2]]);
    assert_eq!(q.len(), 2);
    let rest = generate_sends(&mut q, &ctx(), 3, true);
    assert_eq!(rest.len(), 2);
    assert_eq!(q.len(), 0);
}
