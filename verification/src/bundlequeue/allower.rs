//! Allowers shipped with the queue.
use crate::bundlequeue::{Allower, Bundle, BundleView, QueueContext};
use vstd::prelude::*;

verus! {

/// A lifetime in milliseconds as bp7 counts it: capped at `u64::MAX`.
pub open spec fn lifetime_millis(lifetime_ms: u128) -> u64 {
    if lifetime_ms > u64::MAX as u128 {
        u64::MAX
    } else {
        lifetime_ms as u64
    }
}

/// A bundle has outlived its lifetime when it has a creation time and that
/// time plus the lifetime (saturating) is not after `dtn_now`.
pub open spec fn lifetime_exceeded(b: BundleView, dtn_now: u64) -> bool {
    b.creation_time != 0 && (if b.creation_time + lifetime_millis(b.lifetime_ms) > u64::MAX {
        u64::MAX
    } else {
        (b.creation_time + lifetime_millis(b.lifetime_ms)) as u64
    }) <= dtn_now
}

/// Whether the bundle has outlived its lifetime at `dtn_now`.
pub fn is_lifetime_exceeded(b: &Bundle, dtn_now: u64) -> (r: bool)
    ensures
        r == lifetime_exceeded(b@, dtn_now),
{
    if b.creation_time == 0 {
        return false;
    }
    let lifetime: u64 = if b.lifetime_ms > u64::MAX as u128 {
        u64::MAX
    } else {
        b.lifetime_ms as u64
    };
    b.creation_time.saturating_add(lifetime) <= dtn_now
}

/// AllowBundleSize denies any bundles that exceed the max length.
pub struct AllowBundleSize {
    max: i32,
}

impl AllowBundleSize {
    pub closed spec fn max_len(&self) -> i32 {
        self.max
    }

    pub fn new(max: i32) -> (r: AllowBundleSize)
        ensures
            r.max_len() == max,
    {
        AllowBundleSize { max }
    }
}

impl<T, X> Allower<T, X> for AllowBundleSize {
    /// Entries without bundle pass; a bundle passes when its CBOR encoding is
    /// shorter than the maximum (taken as `usize`).
    open spec fn allows(&self, ctx: QueueContext<X>, bndl: Option<BundleView>, meta: Option<T>) -> bool {
        match bndl {
            None => true,
            Some(b) => b.cbor.len() < (self.max_len() as usize),
        }
    }

    fn allow(&self, ctx: &QueueContext<X>, bndl: &Option<Bundle>, meta: &Option<T>) -> (r: bool) {
        match bndl {
            None => true,
            Some(b) => b.cbor.len() < self.max as usize,
        }
    }
}

/// AllowStillAlive denies any bundles that have exceeded their lifetime.
pub struct AllowStillAlive {}

impl AllowStillAlive {
    pub fn new() -> (r: AllowStillAlive) {
        AllowStillAlive {}
    }
}

impl<T, X> Allower<T, X> for AllowStillAlive {
    /// Entries without bundle pass; a bundle passes while its lifetime is
    /// not exceeded at the DTN time of the context.
    open spec fn allows(&self, ctx: QueueContext<X>, bndl: Option<BundleView>, meta: Option<T>) -> bool {
        match bndl {
            None => true,
            Some(b) => !lifetime_exceeded(b, ctx.dtn_now),
        }
    }

    fn allow(&self, ctx: &QueueContext<X>, bndl: &Option<Bundle>, meta: &Option<T>) -> (r: bool) {
        match bndl {
            None => true,
            Some(b) => !is_lifetime_exceeded(b, ctx.dtn_now),
        }
    }
}

/// A check on the metadata of an entry.
pub trait MetaCheck {
    type Meta;
    type Extra;

    spec fn holds(&self, ctx: QueueContext<Self::Extra>, meta: Self::Meta) -> bool;

    fn check(&self, ctx: &QueueContext<Self::Extra>, meta: &Self::Meta) -> (r: bool)
        ensures
            r == self.holds(*ctx, *meta),
    ;
}

/// A check on the metadata of an entry together with its bundle.
pub trait MetaBundleCheck {
    type Meta;
    type Extra;

    spec fn holds(
        &self,
        ctx: QueueContext<Self::Extra>,
        meta: Self::Meta,
        bndl: Option<BundleView>,
    ) -> bool;

    fn check(&self, ctx: &QueueContext<Self::Extra>, meta: &Self::Meta, bndl: &Option<Bundle>) -> (r:
        bool)
        ensures
            r == self.holds(*ctx, *meta, crate::bundlequeue::opt_bundle_view(*bndl)),
    ;
}

/// AllowMetaCheck allows to evaluate the meta value based on some function.
pub struct AllowMetaCheck<C> {
    check: C,
}

impl<C> AllowMetaCheck<C> {
    pub closed spec fn rule(&self) -> C {
        self.check
    }

    pub fn new(check: C) -> (r: AllowMetaCheck<C>)
        ensures
            r.rule() == check,
    {
        AllowMetaCheck { check }
    }
}

impl<C: MetaCheck> Allower<C::Meta, C::Extra> for AllowMetaCheck<C> {
    /// Entries without metadata pass; otherwise the check decides.
    open spec fn allows(
        &self,
        ctx: QueueContext<C::Extra>,
        bndl: Option<BundleView>,
        meta: Option<C::Meta>,
    ) -> bool {
        match meta {
            None => true,
            Some(m) => self.rule().holds(ctx, m),
        }
    }

    fn allow(&self, ctx: &QueueContext<C::Extra>, bndl: &Option<Bundle>, meta: &Option<C::Meta>) -> (r:
        bool) {
        match meta {
            None => true,
            Some(m) => self.check.check(ctx, m),
        }
    }
}

/// AllowMetaBundleCheck allows to evaluate the meta and bundle value based on
/// some function.
pub struct AllowMetaBundleCheck<C> {
    check: C,
}

impl<C> AllowMetaBundleCheck<C> {
    pub closed spec fn rule(&self) -> C {
        self.check
    }

    pub fn new(check: C) -> (r: AllowMetaBundleCheck<C>)
        ensures
            r.rule() == check,
    {
        AllowMetaBundleCheck { check }
    }
}

impl<C: MetaBundleCheck> Allower<C::Meta, C::Extra> for AllowMetaBundleCheck<C> {
    /// Entries without metadata pass; otherwise the check decides.
    open spec fn allows(
        &self,
        ctx: QueueContext<C::Extra>,
        bndl: Option<BundleView>,
        meta: Option<C::Meta>,
    ) -> bool {
        match meta {
            None => true,
            Some(m) => self.rule().holds(ctx, m, bndl),
        }
    }

    fn allow(&self, ctx: &QueueContext<C::Extra>, bndl: &Option<Bundle>, meta: &Option<C::Meta>) -> (r:
        bool) {
        match meta {
            None => true,
            Some(m) => self.check.check(ctx, m, bndl),
        }
    }
}

} // verus!
