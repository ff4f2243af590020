//! A priority queue of bundles and protocol packets. Allowers decide whether
//! an entry may be queued at all, scorers add up to its priority.
pub mod allower;
pub mod scorer;

use priority_queue::PriorityQueue;
use std::hash::Hash;
use vstd::prelude::*;

verus! {

#[verifier::external_type_specification]
#[verifier::external_body]
#[verifier::reject_recursive_types(I)]
#[verifier::reject_recursive_types(P)]
#[verifier::reject_recursive_types(H)]
pub struct ExPriorityQueue<I, P, H>(PriorityQueue<I, P, H>) where I: Hash + Eq, P: Ord;

/// What a `PriorityQueue<u64, i32>` holds: each item with its priority.
pub uninterp spec fn pq_contents(q: PriorityQueue<u64, i32>) -> Map<u64, i32>;

/// `PriorityQueue::new`: an empty queue.
#[verifier::external_body]
fn pq_new() -> (q: PriorityQueue<u64, i32>)
    ensures
        pq_contents(q) =~= Map::empty(),
{
    PriorityQueue::new()
}

/// `PriorityQueue::len`: the number of items held.
#[verifier::external_body]
fn pq_len(q: &PriorityQueue<u64, i32>) -> (n: usize)
    ensures
        n == pq_contents(*q).len(),
{
    q.len()
}

/// `PriorityQueue::push`: sets the priority of `item`, inserting it when it
/// is not held yet, and hands back the priority it had before.
#[verifier::external_body]
fn pq_push(q: &mut PriorityQueue<u64, i32>, item: u64, priority: i32) -> (prev: Option<i32>)
    ensures
        pq_contents(*final(q)) == pq_contents(*old(q)).insert(item, priority),
        prev == (if pq_contents(*old(q)).contains_key(item) {
            Some(pq_contents(*old(q))[item])
        } else {
            None
        }),
{
    q.push(item, priority)
}

/// `PriorityQueue::pop`: removes an item of greatest priority; `None` only
/// when the queue is empty.
#[verifier::external_body]
fn pq_pop(q: &mut PriorityQueue<u64, i32>) -> (r: Option<(u64, i32)>)
    ensures
        match r {
            None => pq_contents(*old(q)).dom() == Set::<u64>::empty() && pq_contents(*final(q))
                == pq_contents(*old(q)),
            Some((item, p)) => {
                &&& pq_contents(*old(q)).contains_key(item)
                &&& pq_contents(*old(q))[item] == p
                &&& forall|j: u64| #[trigger]
                    pq_contents(*old(q)).contains_key(j) ==> pq_contents(*old(q))[j] <= p
                &&& pq_contents(*final(q)) == pq_contents(*old(q)).remove(item)
            },
        },
{
    q.pop()
}

/// `PriorityQueue::clear`: drops every item.
#[verifier::external_body]
fn pq_clear(q: &mut PriorityQueue<u64, i32>)
    ensures
        pq_contents(*final(q)) =~= Map::empty(),
{
    q.clear()
}

/// The facts of a DTN bundle that queueing rules read.
pub struct Bundle {
    /// `<source>-<creation time>-<sequence number>`, plus the fragment offset
    /// for fragments.
    pub id: String,
    /// The bundle encoded as CBOR.
    pub cbor: Vec<u8>,
    /// Service part of the destination endpoint, if it names one.
    pub destination_service: Option<String>,
    /// Node part of the destination endpoint (`dtn://node/`), if any.
    pub destination_node: Option<String>,
    /// Creation time in milliseconds of DTN time; 0 when unknown.
    pub creation_time: u64,
    /// Lifetime in milliseconds.
    pub lifetime_ms: u128,
}

impl Bundle {
    /// A copy of the bundle facts.
    pub fn duplicate(&self) -> (r: Bundle)
        ensures
            r@ == self@,
    {
        Bundle {
            id: self.id.clone(),
            cbor: copy_byte_vec(&self.cbor),
            destination_service: match &self.destination_service {
                Some(s) => Some(s.clone()),
                None => None,
            },
            destination_node: match &self.destination_node {
                Some(s) => Some(s.clone()),
                None => None,
            },
            creation_time: self.creation_time,
            lifetime_ms: self.lifetime_ms,
        }
    }
}

/// A copy of a byte buffer.
pub fn copy_byte_vec(v: &Vec<u8>) -> (r: Vec<u8>)
    ensures
        r@ == v@,
{
    let mut r: Vec<u8> = Vec::new();
    let mut i: usize = 0;
    while i < v.len()
        invariant
            i <= v@.len(),
            r@ == v@.take(i as int),
        decreases v@.len() - i,
    {
        r.push(v[i]);
        i = i + 1;
        assert(r@ =~= v@.take(i as int));
    }
    assert(v@.take(i as int) =~= v@);
    r
}

pub struct BundleView {
    pub id: Seq<char>,
    pub cbor: Seq<u8>,
    pub destination_service: Option<Seq<char>>,
    pub destination_node: Option<Seq<char>>,
    pub creation_time: u64,
    pub lifetime_ms: u128,
}

pub open spec fn opt_str_view(s: Option<String>) -> Option<Seq<char>> {
    match s {
        Some(x) => Some(x@),
        None => None,
    }
}

impl View for Bundle {
    type V = BundleView;

    open spec fn view(&self) -> BundleView {
        BundleView {
            id: self.id@,
            cbor: self.cbor@,
            destination_service: opt_str_view(self.destination_service),
            destination_node: opt_str_view(self.destination_node),
            creation_time: self.creation_time,
            lifetime_ms: self.lifetime_ms,
        }
    }
}

pub open spec fn opt_bundle_view(b: Option<Bundle>) -> Option<BundleView> {
    match b {
        Some(x) => Some(x@),
        None => None,
    }
}

/// The bundle that bp7 decodes from CBOR `bytes`, or `None` when they are not
/// a bundle.
pub uninterp spec fn decoded_bundle(bytes: Seq<u8>) -> Option<BundleView>;

/// `bp7::bundle::Bundle::try_from` on CBOR bytes; the decoded bundle is read
/// out into a [`Bundle`] (its id, its re-encoding, its destination and its
/// creation time and lifetime). What comes back is the name
/// [`decoded_bundle`] of the bytes.
#[verifier::external_body]
pub(crate) fn decode_bundle(bytes: &Vec<u8>) -> (r: Option<Bundle>)
    ensures
        opt_bundle_view(r) == decoded_bundle(bytes@),
{
    match bp7::bundle::Bundle::try_from(bytes.clone()) {
        Ok(mut b) => Some(Bundle {
            id: b.id(),
            destination_service: b.primary.destination.service_name(),
            destination_node: b.primary.destination.node_id(),
            creation_time: b.primary.creation_timestamp.dtntime(),
            lifetime_ms: b.primary.lifetime.as_millis(),
            cbor: b.to_cbor(),
        }),
        Err(_) => None,
    }
}

/// Equality of metadata, which decides whether a pushed entry is the same as
/// one already queued.
pub trait QueueMeta {
    spec fn same_as(&self, other: &Self) -> bool;

    fn equals(&self, other: &Self) -> (r: bool)
        ensures
            r == self.same_as(other),
    ;
}

/// Metadata for queues whose entries carry none of their own.
pub struct NoMeta {}

impl QueueMeta for NoMeta {
    open spec fn same_as(&self, other: &Self) -> bool {
        true
    }

    fn equals(&self, other: &Self) -> (r: bool) {
        true
    }
}

/// The state the rules of a queue are evaluated against: the clock and
/// whatever else a strategy keeps.
pub struct QueueContext<X> {
    /// Seconds since the UNIX epoch.
    pub now: u64,
    /// Milliseconds of DTN time (since 2000-01-01).
    pub dtn_now: u64,
    pub extra: X,
}

/// One queued entry: a bundle, metadata or both, with the priority it was
/// pushed with before scoring.
pub struct QueueEntry<T> {
    pub base_priority: i32,
    pub bndl: Option<Bundle>,
    pub meta: Option<T>,
}

pub struct QueueEntryView<T> {
    pub base_priority: i32,
    pub bndl: Option<BundleView>,
    pub meta: Option<T>,
}

impl<T> View for QueueEntry<T> {
    type V = QueueEntryView<T>;

    open spec fn view(&self) -> QueueEntryView<T> {
        QueueEntryView {
            base_priority: self.base_priority,
            bndl: opt_bundle_view(self.bndl),
            meta: self.meta,
        }
    }
}

/// Two entries are the same entry when both carry a bundle and metadata, the
/// bundles have the same id and the metadata are the same.
pub open spec fn entries_match<T: QueueMeta>(a: QueueEntryView<T>, b: QueueEntryView<T>) -> bool {
    &&& a.meta is Some
    &&& b.meta is Some
    &&& a.meta->0.same_as(&b.meta->0)
    &&& a.bndl is Some
    &&& b.bndl is Some
    &&& a.bndl->0.id == b.bndl->0.id
}

/// A scorer adds a positive or negative amount to the priority of an entry.
pub trait Scorer<T, X> {
    spec fn score_of(&self, ctx: QueueContext<X>, bndl: Option<BundleView>, meta: Option<T>) -> i32;

    fn score(&self, ctx: &QueueContext<X>, bndl: &Option<Bundle>, meta: &Option<T>) -> (r: i32)
        ensures
            r == self.score_of(*ctx, opt_bundle_view(*bndl), *meta),
    ;
}

/// An allower decides whether an entry may be queued.
pub trait Allower<T, X> {
    spec fn allows(&self, ctx: QueueContext<X>, bndl: Option<BundleView>, meta: Option<T>) -> bool;

    fn allow(&self, ctx: &QueueContext<X>, bndl: &Option<Bundle>, meta: &Option<T>) -> (r: bool)
        ensures
            r == self.allows(*ctx, opt_bundle_view(*bndl), *meta),
    ;
}

/// Every allower of `rules` allows the entry.
pub open spec fn all_allow<T, X, A: Allower<T, X>>(
    rules: Seq<A>,
    ctx: QueueContext<X>,
    bndl: Option<BundleView>,
    meta: Option<T>,
) -> bool
    decreases rules.len(),
{
    if rules.len() == 0 {
        true
    } else {
        all_allow(rules.drop_last(), ctx, bndl, meta) && rules.last().allows(ctx, bndl, meta)
    }
}

/// The scores of `rules` added up, wrapping around on overflow of `i32`.
pub open spec fn sum_scores<T, X, S: Scorer<T, X>>(
    rules: Seq<S>,
    ctx: QueueContext<X>,
    bndl: Option<BundleView>,
    meta: Option<T>,
) -> i32
    decreases rules.len(),
{
    if rules.len() == 0 {
        0
    } else {
        vstd::wrapping::i32_specs::wrapping_add(
            sum_scores(rules.drop_last(), ctx, bndl, meta),
            rules.last().score_of(ctx, bndl, meta),
        )
    }
}

/// Every allower has a veto: an entry is allowed exactly when each allower
/// of the rules allows it, so with no allower everything is allowed.
pub proof fn law_every_allower_must_allow<T, X, A: Allower<T, X>>(
    rules: Seq<A>,
    ctx: QueueContext<X>,
    bndl: Option<BundleView>,
    meta: Option<T>,
)
    ensures
        all_allow(rules, ctx, bndl, meta) <==> forall|i: int|
            0 <= i < rules.len() ==> #[trigger] rules[i].allows(ctx, bndl, meta),
    decreases rules.len(),
{
    if rules.len() > 0 {
        let init = rules.drop_last();
        law_every_allower_must_allow(init, ctx, bndl, meta);
        if all_allow(rules, ctx, bndl, meta) {
            assert forall|i: int| 0 <= i < rules.len() implies #[trigger] rules[i].allows(
                ctx,
                bndl,
                meta,
            ) by {
                if i < rules.len() - 1 {
                    assert(init[i] == rules[i]);
                }
            }
        }
        if forall|i: int| 0 <= i < rules.len() ==> #[trigger] rules[i].allows(ctx, bndl, meta) {
            assert forall|i: int| 0 <= i < init.len() implies #[trigger] init[i].allows(
                ctx,
                bndl,
                meta,
            ) by {
                assert(init[i] == rules[i]);
            }
            assert(rules[rules.len() - 1].allows(ctx, bndl, meta));
        }
    }
}

/// An entry is queued exactly when it holds a bundle or metadata and every
/// allower allows it; a refused entry gets priority 0.
pub proof fn law_queued_exactly_when_allowed<T, X, A: Allower<T, X>, S: Scorer<T, X>>(
    allowers: Seq<A>,
    scorers: Seq<S>,
    ctx: QueueContext<X>,
    base_priority: i32,
    bndl: Option<BundleView>,
    meta: Option<T>,
)
    ensures
        priority_of(allowers, scorers, ctx, base_priority, bndl, meta).0 <==> ((bndl is Some
            || meta is Some) && forall|i: int|
            0 <= i < allowers.len() ==> #[trigger] allowers[i].allows(ctx, bndl, meta)),
        !priority_of(allowers, scorers, ctx, base_priority, bndl, meta).0 ==> priority_of(
            allowers,
            scorers,
            ctx,
            base_priority,
            bndl,
            meta,
        ).1 == 0,
{
    law_every_allower_must_allow(allowers, ctx, bndl, meta);
}

/// The scores of all scorers count: with no scorer the sum is 0, and adding
/// a scorer adds its score to the sum of the others (wrapping on overflow of
/// `i32`), so the sum does not depend on which scorer came last alone.
pub proof fn law_scores_add_up<T, X, S: Scorer<T, X>>(
    rules: Seq<S>,
    s: S,
    ctx: QueueContext<X>,
    bndl: Option<BundleView>,
    meta: Option<T>,
)
    ensures
        sum_scores(Seq::<S>::empty(), ctx, bndl, meta) == 0,
        sum_scores(rules.push(s), ctx, bndl, meta) == vstd::wrapping::i32_specs::wrapping_add(
            sum_scores(rules, ctx, bndl, meta),
            s.score_of(ctx, bndl, meta),
        ),
        sum_scores(seq![s], ctx, bndl, meta) == s.score_of(ctx, bndl, meta),
{
    assert(rules.push(s).drop_last() =~= rules);
    assert(seq![s].drop_last() =~= Seq::<S>::empty());
    assert(vstd::wrapping::i32_specs::wrapping_add(0, s.score_of(ctx, bndl, meta)) == s.score_of(
        ctx,
        bndl,
        meta,
    ));
}

/// An admitted entry gets its base priority plus the score of every scorer:
/// adding a scorer to the rules raises the priority of an entry by that
/// scorer's score (wrapping on overflow of `i32`).
pub proof fn law_priority_adds_each_scorer<T, X, A: Allower<T, X>, S: Scorer<T, X>>(
    allowers: Seq<A>,
    scorers: Seq<S>,
    s: S,
    ctx: QueueContext<X>,
    base_priority: i32,
    bndl: Option<BundleView>,
    meta: Option<T>,
)
    ensures
        priority_of(allowers, scorers.push(s), ctx, base_priority, bndl, meta).0 == priority_of(
            allowers,
            scorers,
            ctx,
            base_priority,
            bndl,
            meta,
        ).0,
        priority_of(allowers, scorers.push(s), ctx, base_priority, bndl, meta).0 ==> priority_of(
            allowers,
            scorers.push(s),
            ctx,
            base_priority,
            bndl,
            meta,
        ).1 == vstd::wrapping::i32_specs::wrapping_add(
            priority_of(allowers, scorers, ctx, base_priority, bndl, meta).1,
            s.score_of(ctx, bndl, meta),
        ),
        priority_of(allowers, Seq::<S>::empty(), ctx, base_priority, bndl, meta).0
            ==> priority_of(allowers, Seq::<S>::empty(), ctx, base_priority, bndl, meta).1
            == base_priority,
{
    law_scores_add_up(scorers, s, ctx, bndl, meta);
    let a = sum_scores(scorers, ctx, bndl, meta);
    let c = s.score_of(ctx, bndl, meta);
    assert(vstd::wrapping::i32_specs::wrapping_add(vstd::wrapping::i32_specs::wrapping_add(a, c), base_priority)
        == vstd::wrapping::i32_specs::wrapping_add(vstd::wrapping::i32_specs::wrapping_add(a, base_priority), c)) by (bit_vector);
    assert(vstd::wrapping::i32_specs::wrapping_add(0, base_priority) == base_priority);
}

/// Whether an entry can be queued and with which priority: not when it holds
/// neither bundle nor metadata or when an allower denies it; otherwise with
/// the sum of all scores plus its base priority (wrapping on overflow).
pub open spec fn priority_of<T, X, A: Allower<T, X>, S: Scorer<T, X>>(
    allowers: Seq<A>,
    scorers: Seq<S>,
    ctx: QueueContext<X>,
    base_priority: i32,
    bndl: Option<BundleView>,
    meta: Option<T>,
) -> (bool, i32) {
    if bndl is None && meta is None {
        (false, 0)
    } else if !all_allow(allowers, ctx, bndl, meta) {
        (false, 0)
    } else {
        (
            true,
            vstd::wrapping::i32_specs::wrapping_add(
                sum_scores(scorers, ctx, bndl, meta),
                base_priority,
            ),
        )
    }
}

/// A queue of entries with metadata `T`, whose rules see a context holding
/// `X`, admitted by allowers of type `A` and scored by scorers of type `S`.
#[verifier::reject_recursive_types(T)]
#[verifier::reject_recursive_types(X)]
#[verifier::reject_recursive_types(A)]
#[verifier::reject_recursive_types(S)]
pub struct BundleQueue<T, X, A, S> {
    queue: PriorityQueue<u64, i32>,
    slots: Vec<Option<QueueEntry<T>>>,
    scorer: Vec<S>,
    allower: Vec<A>,
    context: std::marker::PhantomData<X>,
}

impl<T, X, A, S> View for BundleQueue<T, X, A, S> {
    /// Each queued entry under its handle, with its priority.
    type V = Map<u64, (QueueEntryView<T>, i32)>;

    closed spec fn view(&self) -> Map<u64, (QueueEntryView<T>, i32)> {
        Map::new(
            |h: u64| pq_contents(self.queue).contains_key(h),
            |h: u64| (self.slots@[h as int]->0@, pq_contents(self.queue)[h]),
        )
    }
}

impl<T: QueueMeta, X, A: Allower<T, X>, S: Scorer<T, X>> BundleQueue<T, X, A, S> {
    pub closed spec fn wf(&self) -> bool {
        &&& pq_contents(self.queue).dom().finite()
        &&& forall|h: u64| #[trigger]
            pq_contents(self.queue).contains_key(h) <==> ((h as int) < self.slots@.len()
                && self.slots@[h as int] is Some)
    }

    pub closed spec fn scorers(&self) -> Seq<S> {
        self.scorer@
    }

    pub closed spec fn allowers(&self) -> Seq<A> {
        self.allower@
    }

    /// `priority_of` with the rules of this queue.
    pub open spec fn spec_priority(
        &self,
        ctx: QueueContext<X>,
        base_priority: i32,
        bndl: Option<BundleView>,
        meta: Option<T>,
    ) -> (bool, i32) {
        priority_of(self.allowers(), self.scorers(), ctx, base_priority, bndl, meta)
    }

    /// Whether a queued entry would be queued again, and with which priority.
    pub open spec fn entry_priority(&self, ctx: QueueContext<X>, e: QueueEntryView<T>) -> (
        bool,
        i32,
    ) {
        self.spec_priority(ctx, e.base_priority, e.bndl, e.meta)
    }

    /// After a rescore of this queue: exactly the entries that are still
    /// admitted are kept, each with its recomputed priority.
    pub open spec fn rescore_outcome(
        &self,
        ctx: QueueContext<X>,
        after: Map<u64, (QueueEntryView<T>, i32)>,
    ) -> bool {
        rescored(self.allowers(), self.scorers(), ctx, self@, after)
    }

    proof fn lemma_dom(&self)
        requires
            self.wf(),
        ensures
            self@.dom() == pq_contents(self.queue).dom(),
            self@.dom().finite(),
    {
        assert(self@.dom() =~= pq_contents(self.queue).dom());
    }

    /// A queue holds finitely many entries, so its length is that of its view.
    pub proof fn lemma_view_finite(&self)
        requires
            self.wf(),
        ensures
            self@.dom().finite(),
    {
        self.lemma_dom();
    }

    pub fn new() -> (q: Self)
        ensures
            q.wf(),
            q@ == Map::<u64, (QueueEntryView<T>, i32)>::empty(),
            q.scorers().len() == 0,
            q.allowers().len() == 0,
    {
        let q = BundleQueue {
            queue: pq_new(),
            slots: Vec::new(),
            scorer: Vec::new(),
            allower: Vec::new(),
            context: std::marker::PhantomData,
        };
        assert(q@ =~= Map::<u64, (QueueEntryView<T>, i32)>::empty());
        q
    }

    pub fn len(&self) -> (n: usize)
        requires
            self.wf(),
        ensures
            n == self@.len(),
    {
        proof {
            self.lemma_dom();
        }
        pq_len(&self.queue)
    }

    fn all_allowed(&self, ctx: &QueueContext<X>, bndl: &Option<Bundle>, meta: &Option<T>) -> (r:
        bool)
        ensures
            r == all_allow(self.allowers(), *ctx, opt_bundle_view(*bndl), *meta),
    {
        let mut i: usize = 0;
        while i < self.allower.len()
            invariant
                i <= self.allower@.len(),
                all_allow(self.allower@.take(i as int), *ctx, opt_bundle_view(*bndl), *meta),
            decreases self.allower@.len() - i,
        {
            assert(self.allower@.take(i + 1).drop_last() =~= self.allower@.take(i as int));
            if !self.allower[i].allow(ctx, bndl, meta) {
                proof {
                    lemma_all_allow_prefix(
                        self.allower@,
                        (i + 1) as int,
                        *ctx,
                        opt_bundle_view(*bndl),
                        *meta,
                    );
                }
                return false;
            }
            i = i + 1;
        }
        assert(self.allower@.take(i as int) =~= self.allower@);
        true
    }

    fn score_sum(&self, ctx: &QueueContext<X>, bndl: &Option<Bundle>, meta: &Option<T>) -> (r: i32)
        ensures
            r == sum_scores(self.scorers(), *ctx, opt_bundle_view(*bndl), *meta),
    {
        let mut acc: i32 = 0;
        let mut i: usize = 0;
        while i < self.scorer.len()
            invariant
                i <= self.scorer@.len(),
                acc == sum_scores(self.scorer@.take(i as int), *ctx, opt_bundle_view(*bndl), *meta),
            decreases self.scorer@.len() - i,
        {
            assert(self.scorer@.take(i + 1).drop_last() =~= self.scorer@.take(i as int));
            let s = self.scorer[i].score(ctx, bndl, meta);
            acc = acc.wrapping_add(s);
            i = i + 1;
        }
        assert(self.scorer@.take(i as int) =~= self.scorer@);
        acc
    }

    /// Whether the entry would be queued, and with which priority.
    pub fn priority(
        &self,
        ctx: &QueueContext<X>,
        base_priority: i32,
        bndl: &Option<Bundle>,
        meta: &Option<T>,
    ) -> (r: (bool, i32))
        ensures
            r == self.spec_priority(*ctx, base_priority, opt_bundle_view(*bndl), *meta),
    {
        if bndl.is_none() && meta.is_none() {
            return (false, 0);
        }
        if !self.all_allowed(ctx, bndl, meta) {
            return (false, 0);
        }
        let prio = self.score_sum(ctx, bndl, meta);
        (true, prio.wrapping_add(base_priority))
    }

    fn find_match(&self, entry: &QueueEntry<T>) -> (r: Option<u64>)
        requires
            self.wf(),
        ensures
            match r {
                Some(h) => self@.contains_key(h) && entries_match(self@[h].0, entry@),
                None => forall|h: u64| #[trigger]
                    self@.contains_key(h) ==> !entries_match(self@[h].0, entry@),
            },
    {
        let mut i: usize = 0;
        while i < self.slots.len()
            invariant
                self.wf(),
                i <= self.slots@.len(),
                forall|h: u64|
                    (h as int) < i && #[trigger] self@.contains_key(h) ==> !entries_match(
                        self@[h].0,
                        entry@,
                    ),
            decreases self.slots@.len() - i,
        {
            let matched = match &self.slots[i] {
                Some(e) => entry_matches(e, entry),
                None => false,
            };
            if matched {
                proof {
                    assert(pq_contents(self.queue).contains_key(i as u64));
                }
                return Some(i as u64);
            }
            proof {
                assert forall|h: u64|
                    (h as int) < i + 1 && #[trigger] self@.contains_key(h) implies !entries_match(
                    self@[h].0,
                    entry@,
                ) by {
                    if (h as int) == i as int {
                        assert(h == i as u64);
                    }
                }
            }
            i = i + 1;
        }
        proof {
            assert forall|h: u64| #[trigger] self@.contains_key(h) implies !entries_match(
                self@[h].0,
                entry@,
            ) by {
                assert(pq_contents(self.queue).contains_key(h));
            }
        }
        None
    }

    /// Puts `entry` into a slot that holds nothing and returns its handle.
    fn store(&mut self, entry: QueueEntry<T>) -> (h: u64)
        requires
            old(self).wf(),
        ensures
            (h as int) <= old(self).slots@.len(),
            (h as int) < old(self).slots@.len() ==> old(self).slots@[h as int] is None
                && final(self).slots@ == old(self).slots@.update(h as int, Some(entry)),
            (h as int) == old(self).slots@.len() ==> final(self).slots@ == old(self).slots@.push(
                Some(entry),
            ),
            !old(self)@.contains_key(h),
            final(self).queue == old(self).queue,
            final(self).scorer == old(self).scorer,
            final(self).allower == old(self).allower,
    {
        let mut i: usize = 0;
        while i < self.slots.len()
            invariant
                i <= self.slots@.len(),
                self.slots == old(self).slots,
                self.queue == old(self).queue,
                self.scorer == old(self).scorer,
                self.allower == old(self).allower,
                old(self).wf(),
            decreases self.slots@.len() - i,
        {
            if self.slots[i].is_none() {
                proof {
                    assert(!pq_contents(self.queue).contains_key(i as u64));
                }
                self.slots.set(i, Some(entry));
                return i as u64;
            }
            i = i + 1;
        }
        let h = self.slots.len();
        proof {
            assert(!pq_contents(self.queue).contains_key(h as u64));
        }
        self.slots.push(Some(entry));
        h as u64
    }

    /// Queues an entry unless it is denied. An entry that is the same as one
    /// already queued only changes the priority of that one.
    pub fn push(
        &mut self,
        ctx: &QueueContext<X>,
        base_priority: i32,
        bndl: Option<Bundle>,
        meta: Option<T>,
    ) -> (res: (bool, i32))
        requires
            old(self).wf(),
        ensures
            final(self).wf(),
            final(self).scorers() == old(self).scorers(),
            final(self).allowers() == old(self).allowers(),
            res == old(self).spec_priority(*ctx, base_priority, opt_bundle_view(bndl), meta),
            !res.0 ==> final(self)@ == old(self)@,
            res.0 ==> push_outcome(
                old(self)@,
                final(self)@,
                (QueueEntryView { base_priority, bndl: opt_bundle_view(bndl), meta }),
                res.1,
            ),
            final(self)@.len() == old(self)@.len() + (if res.0 && !has_match(
                old(self)@,
                (QueueEntryView { base_priority, bndl: opt_bundle_view(bndl), meta }),
            ) {
                1int
            } else {
                0int
            }),
    {
        proof {
            self.lemma_dom();
        }
        let ghost ev0 = QueueEntryView { base_priority, bndl: opt_bundle_view(bndl), meta };
        let res = self.priority(ctx, base_priority, &bndl, &meta);
        if !res.0 {
            return res;
        }
        let entry = QueueEntry { base_priority, bndl, meta };
        let ghost ev = entry@;
        let ghost old_view = self@;
        match self.find_match(&entry) {
            Some(h) => {
                let _ = pq_push(&mut self.queue, h, res.1);
                proof {
                    assert(self@ =~= old_view.insert(h, (old_view[h].0, res.1)));
                }
            },
            None => {
                let h = self.store(entry);
                let _ = pq_push(&mut self.queue, h, res.1);
                proof {
                    assert forall|g: u64| #[trigger]
                        pq_contents(self.queue).contains_key(g) <==> ((g as int)
                            < self.slots@.len() && self.slots@[g as int] is Some) by {
                        if g != h {
                            if (g as int) < old(self).slots@.len() {
                                assert(self.slots@[g as int] == old(self).slots@[g as int]);
                            }
                            assert(pq_contents(self.queue).contains_key(g)
                                == pq_contents(old(self).queue).contains_key(g));
                        }
                    }
                    assert forall|g: u64| #[trigger]
                        self@.contains_key(g) implies self@[g] == old_view.insert(h, (ev, res.1))[g] by {
                        if g != h {
                            assert(pq_contents(old(self).queue).contains_key(g));
                            assert(self.slots@[g as int] == old(self).slots@[g as int]);
                        }
                    }
                    assert(self@ =~= old_view.insert(h, (ev, res.1)));
                }
            },
        }
        proof {
            lemma_push_outcome_len(old_view, self@, ev0, res.1);
        }
        res
    }

    /// Decodes CBOR bytes as a bundle and queues it; bytes that are no bundle
    /// are queued as an entry without bundle.
    pub fn push_buf(
        &mut self,
        ctx: &QueueContext<X>,
        base_priority: i32,
        bndl: Vec<u8>,
        meta: Option<T>,
    ) -> (res: (bool, i32))
        requires
            old(self).wf(),
        ensures
            final(self).wf(),
            final(self).scorers() == old(self).scorers(),
            final(self).allowers() == old(self).allowers(),
            res == old(self).spec_priority(*ctx, base_priority, decoded_bundle(bndl@), meta),
            !res.0 ==> final(self)@ == old(self)@,
            res.0 ==> push_outcome(
                old(self)@,
                final(self)@,
                (QueueEntryView { base_priority, bndl: decoded_bundle(bndl@), meta }),
                res.1,
            ),
            final(self)@.len() == old(self)@.len() + (if res.0 && !has_match(
                old(self)@,
                (QueueEntryView { base_priority, bndl: decoded_bundle(bndl@), meta }),
            ) {
                1int
            } else {
                0int
            }),
    {
        let b = decode_bundle(&bndl);
        self.push(ctx, base_priority, b, meta)
    }

    /// Removes and returns an entry of greatest priority.
    pub fn pop(&mut self) -> (r: Option<(Option<Bundle>, Option<T>, i32)>)
        requires
            old(self).wf(),
        ensures
            final(self).wf(),
            final(self).scorers() == old(self).scorers(),
            final(self).allowers() == old(self).allowers(),
            r is None <==> old(self)@.dom() == Set::<u64>::empty(),
            r is None ==> final(self)@ == old(self)@,
            r matches Some(x) ==> exists|h: u64| #[trigger]
                old(self)@.contains_key(h) && pop_outcome(
                    old(self)@,
                    final(self)@,
                    h,
                    opt_bundle_view(x.0),
                    x.1,
                    x.2,
                ),
            r is Some ==> final(self)@.len() == old(self)@.len() - 1,
    {
        proof {
            self.lemma_dom();
        }
        let ghost old_view = self@;
        match pq_pop(&mut self.queue) {
            None => {
                proof {
                    assert(old_view.dom() =~= pq_contents(old(self).queue).dom());
                }
                None
            },
            Some((h, p)) => {
                proof {
                    assert(pq_contents(old(self).queue).contains_key(h));
                    assert((h as int) < self.slots@.len());
                }
                let hi = h as usize;
                proof {
                    assert(pq_contents(old(self).queue).contains_key(h));
                }
                let slot = self.slots.remove(hi);
                self.slots.insert(hi, None);
                proof {
                    assert(self.slots@ =~= old(self).slots@.update(hi as int, None));
                }
                let e = slot.unwrap();
                proof {
                    assert forall|g: u64| #[trigger]
                        pq_contents(self.queue).contains_key(g) <==> ((g as int)
                            < self.slots@.len() && self.slots@[g as int] is Some) by {
                        if g != h {
                            if (g as int) < old(self).slots@.len() {
                                assert(self.slots@[g as int] == old(self).slots@[g as int]);
                            }
                        }
                    }
                    assert forall|g: u64| #[trigger]
                        self@.contains_key(g) implies self@[g] == old_view.remove(h)[g] by {
                        assert(self.slots@[g as int] == old(self).slots@[g as int]);
                    }
                    assert(self@ =~= old_view.remove(h));
                    assert(old_view.contains_key(h));
                    assert forall|g: u64| #[trigger] old_view.contains_key(g) implies old_view[g].1
                        <= p by {
                        assert(pq_contents(old(self).queue).contains_key(g));
                    }
                    assert(self@.dom() =~= old_view.dom().remove(h));
                }
                Some((e.bndl, e.meta, p))
            },
        }
    }

    /// Recomputes the priority of every queued entry and drops those that may
    /// no longer be queued.
    pub fn rescore(&mut self, ctx: &QueueContext<X>)
        requires
            old(self).wf(),
        ensures
            final(self).wf(),
            final(self).scorers() == old(self).scorers(),
            final(self).allowers() == old(self).allowers(),
            old(self).rescore_outcome(*ctx, final(self)@),
            final(self)@.len() <= old(self)@.len(),
    {
        proof {
            self.lemma_dom();
        }
        let ghost old_view = self@;
        pq_clear(&mut self.queue);
        let mut i: usize = 0;
        while i < self.slots.len()
            invariant
                i <= self.slots@.len(),
                self.slots@.len() == old(self).slots@.len(),
                self.scorer == old(self).scorer,
                self.allower == old(self).allower,
                old(self).wf(),
                old_view == old(self)@,
                pq_contents(self.queue).dom().finite(),
                forall|h: u64| #[trigger]
                    pq_contents(self.queue).contains_key(h) ==> (h as int) < i,
                forall|j: int|
                    i <= j < self.slots@.len() ==> self.slots@[j] == old(self).slots@[j],
                forall|h: u64|
                    (h as int) < i ==> (#[trigger] pq_contents(self.queue).contains_key(h) <==> (
                    self.slots@[h as int] is Some)),
                forall|h: u64|
                    (h as int) < i && #[trigger] pq_contents(self.queue).contains_key(h) ==> (
                    old_view.contains_key(h) && self.slots@[h as int] == old(self).slots@[h as int]
                        && old(self).entry_priority(*ctx, old_view[h].0).0 && pq_contents(self.queue)[h] == old(self).entry_priority(*ctx, 
                        old_view[h].0,
                    ).1),
                forall|h: u64|
                    (h as int) < i && #[trigger] old_view.contains_key(h) && old(self).entry_priority(*ctx, old_view[h].0).0
                        ==> pq_contents(self.queue).contains_key(h),
            decreases self.slots@.len() - i,
        {
            if self.slots[i].is_some() {
                let keep: (bool, i32) = match &self.slots[i] {
                    Some(e) => {
                        let r = self.priority(ctx, e.base_priority, &e.bndl, &e.meta);
                        proof {
                            assert(self.scorers() == old(self).scorers());
                            assert(self.allowers() == old(self).allowers());
                            assert(r == old(self).entry_priority(*ctx, e@));
                        }
                        r
                    },
                    None => (false, 0),
                };
                proof {
                    assert(pq_contents(old(self).queue).contains_key(i as u64));
                    assert(old_view.contains_key(i as u64));
                    assert(old_view[i as u64].0 == self.slots@[i as int]->0@);
                    assert(old(self).entry_priority(*ctx, old_view[i as u64].0) == keep);
                }
                let ghost q0 = pq_contents(self.queue);
                if keep.0 {
                    let _ = pq_push(&mut self.queue, i as u64, keep.1);
                } else {
                    self.slots.set(i, None);
                }
                proof {
                    assert forall|h: u64|
                        (h as int) < i + 1 && #[trigger] pq_contents(self.queue).contains_key(h)
                            implies (old_view.contains_key(h) && self.slots@[h as int] == old(
                        self,
                    ).slots@[h as int] && old(self).entry_priority(*ctx, old_view[h].0).0 && pq_contents(self.queue)[h] == old(self).entry_priority(*ctx, 
                        old_view[h].0,
                    ).1) by {
                        if h != i as u64 {
                            assert(q0.contains_key(h));
                        }
                    }
                    assert forall|h: u64|
                        (h as int) < i + 1 && #[trigger] old_view.contains_key(h) && old(self).entry_priority(*ctx, 
                            old_view[h].0,
                        ).0 implies pq_contents(self.queue).contains_key(h) by {
                        if h != i as u64 {
                            assert(q0.contains_key(h));
                        }
                    }
                }
            } else {
                proof {
                    assert(!pq_contents(old(self).queue).contains_key(i as u64));
                }
            }
            i = i + 1;
        }
        proof {
            assert forall|h: u64| #[trigger]
                pq_contents(self.queue).contains_key(h) <==> ((h as int) < self.slots@.len()
                    && self.slots@[h as int] is Some) by {}
            assert forall|h: u64| #[trigger] self@.contains_key(h) implies self@[h] == (
            old_view[h].0,
            old(self).entry_priority(*ctx, old_view[h].0).1,
            ) by {}
            assert(self@.dom().subset_of(old_view.dom()));
            vstd::set_lib::lemma_len_subset(self@.dom(), old_view.dom());
        }
    }

    pub fn add_scorer(&mut self, scorer: S)
        requires
            old(self).wf(),
        ensures
            final(self).wf(),
            final(self)@ == old(self)@,
            final(self).scorers() == old(self).scorers().push(scorer),
            final(self).allowers() == old(self).allowers(),
    {
        self.scorer.push(scorer);
    }

    pub fn add_allower(&mut self, allower: A)
        requires
            old(self).wf(),
        ensures
            final(self).wf(),
            final(self)@ == old(self)@,
            final(self).allowers() == old(self).allowers().push(allower),
            final(self).scorers() == old(self).scorers(),
    {
        self.allower.push(allower);
    }
}

/// After a successful push: the entry that matched it got the new priority,
/// or, when none matched, the entry was added under a fresh handle.
pub open spec fn push_outcome<T: QueueMeta>(
    before: Map<u64, (QueueEntryView<T>, i32)>,
    after: Map<u64, (QueueEntryView<T>, i32)>,
    entry: QueueEntryView<T>,
    priority: i32,
) -> bool {
    ||| exists|h: u64| #[trigger]
        before.contains_key(h) && entries_match(before[h].0, entry) && after == before.insert(
            h,
            (before[h].0, priority),
        )
    ||| (forall|h: u64| #[trigger]
        before.contains_key(h) ==> !entries_match(before[h].0, entry)) && exists|h: u64|
        !before.contains_key(h) && after == #[trigger] before.insert(h, (entry, priority))
}

/// Whether some queued entry is the same as `entry`.
pub open spec fn has_match<T: QueueMeta>(
    items: Map<u64, (QueueEntryView<T>, i32)>,
    entry: QueueEntryView<T>,
) -> bool {
    exists|h: u64| #[trigger] items.contains_key(h) && entries_match(items[h].0, entry)
}

/// A push adds one entry when no queued entry was the same, and none when
/// one was.
pub proof fn lemma_push_outcome_len<T: QueueMeta>(
    before: Map<u64, (QueueEntryView<T>, i32)>,
    after: Map<u64, (QueueEntryView<T>, i32)>,
    entry: QueueEntryView<T>,
    priority: i32,
)
    requires
        before.dom().finite(),
        push_outcome(before, after, entry, priority),
    ensures
        after.dom().finite(),
        after.len() == before.len() + (if has_match(before, entry) {
            0int
        } else {
            1int
        }),
{
    if exists|h: u64| #[trigger]
        before.contains_key(h) && entries_match(before[h].0, entry) && after == before.insert(
            h,
            (before[h].0, priority),
        ) {
        let h = choose|h: u64| #[trigger]
            before.contains_key(h) && entries_match(before[h].0, entry) && after == before.insert(
                h,
                (before[h].0, priority),
            );
        assert(after.dom() =~= before.dom());
    } else {
        let h = choose|h: u64| !before.contains_key(h) && after == #[trigger] before.insert(h, (entry, priority));
        assert(after.dom() =~= before.dom().insert(h));
        assert(!has_match(before, entry));
    }
}

/// One push under the given rules: an entry that may not be queued leaves
/// the entries as they were; any other has the outcome of a push with the
/// priority the rules give it.
pub open spec fn push_step<T: QueueMeta, X, A: Allower<T, X>, S: Scorer<T, X>>(
    allowers: Seq<A>,
    scorers: Seq<S>,
    ctx: QueueContext<X>,
    before: Map<u64, (QueueEntryView<T>, i32)>,
    after: Map<u64, (QueueEntryView<T>, i32)>,
    entry: QueueEntryView<T>,
) -> bool {
    let r = priority_of(allowers, scorers, ctx, entry.base_priority, entry.bndl, entry.meta);
    &&& !r.0 ==> after == before
    &&& r.0 ==> push_outcome(before, after, entry, r.1)
}

/// A rescore under the given rules: exactly the entries that may still be
/// queued are kept, each with its recomputed priority.
pub open spec fn rescored<T, X, A: Allower<T, X>, S: Scorer<T, X>>(
    allowers: Seq<A>,
    scorers: Seq<S>,
    ctx: QueueContext<X>,
    before: Map<u64, (QueueEntryView<T>, i32)>,
    after: Map<u64, (QueueEntryView<T>, i32)>,
) -> bool {
    &&& forall|h: u64| #[trigger]
        after.contains_key(h) <==> (before.contains_key(h) && priority_of(
            allowers,
            scorers,
            ctx,
            before[h].0.base_priority,
            before[h].0.bndl,
            before[h].0.meta,
        ).0)
    &&& forall|h: u64| #[trigger]
        after.contains_key(h) ==> after[h] == (before[h].0, priority_of(
            allowers,
            scorers,
            ctx,
            before[h].0.base_priority,
            before[h].0.bndl,
            before[h].0.meta,
        ).1)
}

/// After a pop of handle `h`: it held the returned entry with a greatest
/// priority, and it is gone.
pub open spec fn pop_outcome<T>(
    before: Map<u64, (QueueEntryView<T>, i32)>,
    after: Map<u64, (QueueEntryView<T>, i32)>,
    h: u64,
    bndl: Option<BundleView>,
    meta: Option<T>,
    priority: i32,
) -> bool {
    &&& before[h].0.bndl == bndl
    &&& before[h].0.meta == meta
    &&& before[h].1 == priority
    &&& forall|g: u64| #[trigger] before.contains_key(g) ==> before[g].1 <= priority
    &&& after == before.remove(h)
}

/// A queue holds an entry at most once: pushing an entry that is already
/// queued (same metadata, same bundle id) changes its priority and adds
/// nothing, so a second push of the same entry leaves as many entries as
/// the first.
pub proof fn law_repeat_push_keeps_one_entry<T: QueueMeta>(
    q0: Map<u64, (QueueEntryView<T>, i32)>,
    q1: Map<u64, (QueueEntryView<T>, i32)>,
    q2: Map<u64, (QueueEntryView<T>, i32)>,
    e: QueueEntryView<T>,
    p1: i32,
    p2: i32,
)
    requires
        entries_match(e, e),
        push_outcome(q0, q1, e, p1),
        push_outcome(q1, q2, e, p2),
    ensures
        q2.dom() == q1.dom(),
        exists|h: u64| #[trigger] q2.contains_key(h) && q2[h].1 == p2 && entries_match(q2[h].0, e),
{
    let h1 = if exists|h: u64| #[trigger]
        q0.contains_key(h) && entries_match(q0[h].0, e) && q1 == q0.insert(h, (q0[h].0, p1)) {
        choose|h: u64| #[trigger]
            q0.contains_key(h) && entries_match(q0[h].0, e) && q1 == q0.insert(h, (q0[h].0, p1))
    } else {
        choose|h: u64| !q0.contains_key(h) && q1 == #[trigger] q0.insert(h, (e, p1))
    };
    assert(q1.contains_key(h1) && entries_match(q1[h1].0, e));
    let h2 = choose|h: u64| #[trigger]
        q1.contains_key(h) && entries_match(q1[h].0, e) && q2 == q1.insert(h, (q1[h].0, p2));
    assert(q2.dom() =~= q1.dom());
    assert(q2.contains_key(h2) && q2[h2].1 == p2 && entries_match(q2[h2].0, e));
}

/// What is pushed into an empty queue is what the next pop returns, with
/// the priority it was queued with, and the queue is empty again.
pub proof fn law_pop_after_push_into_empty<T: QueueMeta>(
    q1: Map<u64, (QueueEntryView<T>, i32)>,
    q2: Map<u64, (QueueEntryView<T>, i32)>,
    e: QueueEntryView<T>,
    p: i32,
    h: u64,
    bndl: Option<BundleView>,
    meta: Option<T>,
    priority: i32,
)
    requires
        push_outcome(Map::empty(), q1, e, p),
        q1.contains_key(h),
        pop_outcome(q1, q2, h, bndl, meta, priority),
    ensures
        bndl == e.bndl,
        meta == e.meta,
        priority == p,
        q2 == Map::<u64, (QueueEntryView<T>, i32)>::empty(),
{
    let q0 = Map::<u64, (QueueEntryView<T>, i32)>::empty();
    let g = choose|g: u64| !q0.contains_key(g) && q1 == #[trigger] q0.insert(g, (e, p));
    assert(h == g);
    assert(q2 =~= Map::<u64, (QueueEntryView<T>, i32)>::empty());
}

impl<T: QueueMeta, X, A: Allower<T, X>, S: Scorer<T, X>> BundleQueue<T, X, A, S> {
    /// Rescoring twice in the same context gives what the first rescore
    /// gave: what was kept stays, with the same priority.
    pub proof fn law_rescore_idempotent(
        &self,
        again: &Self,
        ctx: QueueContext<X>,
        after: Map<u64, (QueueEntryView<T>, i32)>,
    )
        requires
            self.rescore_outcome(ctx, again@),
            again.allowers() == self.allowers(),
            again.scorers() == self.scorers(),
            again.rescore_outcome(ctx, after),
        ensures
            after == again@,
    {
        assert(after =~= again@);
    }
}

fn entry_matches<T: QueueMeta>(a: &QueueEntry<T>, b: &QueueEntry<T>) -> (r: bool)
    ensures
        r == entries_match(a@, b@),
{
    match (&a.meta, &b.meta, &a.bndl, &b.bndl) {
        (Some(ma), Some(mb), Some(ba), Some(bb)) => ma.equals(mb) && ba.id == bb.id,
        _ => false,
    }
}

proof fn lemma_all_allow_prefix<T, X, A: Allower<T, X>>(
    rules: Seq<A>,
    n: int,
    ctx: QueueContext<X>,
    bndl: Option<BundleView>,
    meta: Option<T>,
)
    requires
        0 <= n <= rules.len(),
        !all_allow(rules.take(n), ctx, bndl, meta),
    ensures
        !all_allow(rules, ctx, bndl, meta),
    decreases rules.len() - n,
{
    if n < rules.len() {
        assert(rules.take(n + 1).drop_last() =~= rules.take(n));
        lemma_all_allow_prefix(rules, n + 1, ctx, bndl, meta);
    } else {
        assert(rules.take(n) =~= rules);
    }
}

} // verus!

verus! {

/// A rule of one of two kinds, for queues that combine rules of different
/// types.
pub enum Either<L, R> {
    Left(L),
    Right(R),
}

impl<T, X, L: Allower<T, X>, R: Allower<T, X>> Allower<T, X> for Either<L, R> {
    open spec fn allows(&self, ctx: QueueContext<X>, bndl: Option<BundleView>, meta: Option<T>) -> bool {
        match self {
            Either::Left(l) => l.allows(ctx, bndl, meta),
            Either::Right(r) => r.allows(ctx, bndl, meta),
        }
    }

    fn allow(&self, ctx: &QueueContext<X>, bndl: &Option<Bundle>, meta: &Option<T>) -> (r: bool) {
        match self {
            Either::Left(l) => l.allow(ctx, bndl, meta),
            Either::Right(r) => r.allow(ctx, bndl, meta),
        }
    }
}

impl<T, X, L: Scorer<T, X>, R: Scorer<T, X>> Scorer<T, X> for Either<L, R> {
    open spec fn score_of(&self, ctx: QueueContext<X>, bndl: Option<BundleView>, meta: Option<T>) -> i32 {
        match self {
            Either::Left(l) => l.score_of(ctx, bndl, meta),
            Either::Right(r) => r.score_of(ctx, bndl, meta),
        }
    }

    fn score(&self, ctx: &QueueContext<X>, bndl: &Option<Bundle>, meta: &Option<T>) -> (r: i32) {
        match self {
            Either::Left(l) => l.score(ctx, bndl, meta),
            Either::Right(r) => r.score(ctx, bndl, meta),
        }
    }
}

/// A rule that allows everything and scores nothing, for queues without
/// rules of a kind.
pub struct NoRule {}

impl<T, X> Allower<T, X> for NoRule {
    open spec fn allows(&self, ctx: QueueContext<X>, bndl: Option<BundleView>, meta: Option<T>) -> bool {
        true
    }

    fn allow(&self, ctx: &QueueContext<X>, bndl: &Option<Bundle>, meta: &Option<T>) -> (r: bool) {
        true
    }
}

impl<T, X> Scorer<T, X> for NoRule {
    open spec fn score_of(&self, ctx: QueueContext<X>, bndl: Option<BundleView>, meta: Option<T>) -> i32 {
        0
    }

    fn score(&self, ctx: &QueueContext<X>, bndl: &Option<Bundle>, meta: &Option<T>) -> (r: i32) {
        0
    }
}

} // verus!
