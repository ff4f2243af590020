//! Scorers shipped with the queue.
use crate::bundlequeue::{Bundle, BundleView, QueueContext, Scorer};
use crate::strmap::StrMap;
use vstd::prelude::*;

verus! {

/// An integer clamped into the range of `i32`.
pub open spec fn clamp_i32(x: int) -> i32 {
    if x > i32::MAX {
        i32::MAX
    } else if x < i32::MIN {
        i32::MIN
    } else {
        x as i32
    }
}

/// ScoreBundleSize scores a dtn bundle based on it's size.
pub struct ScoreBundleSize {
    /// min size
    min: i32,
    /// the basic priority if size <= min
    base_prio: i32,
    /// the points to get or lose per positive deviation from min
    per_deviation: i32,
}

impl ScoreBundleSize {
    pub closed spec fn min_size(&self) -> i32 {
        self.min
    }

    pub closed spec fn base(&self) -> i32 {
        self.base_prio
    }

    pub closed spec fn deviation(&self) -> i32 {
        self.per_deviation
    }

    pub fn new(min: i32, base_prio: i32, per_deviation: i32) -> (r: ScoreBundleSize)
        ensures
            r.min_size() == min,
            r.base() == base_prio,
            r.deviation() == per_deviation,
    {
        ScoreBundleSize { min, base_prio, per_deviation }
    }

    /// The score of a bundle whose CBOR encoding is `size` bytes long: the
    /// base priority plus `per_deviation` for each byte above `min`, the
    /// product saturating at the bounds of `i32`, the sum wrapping.
    pub open spec fn size_score(&self, size: int) -> i32 {
        let over = if size - self.min_size() > 0 {
            size - self.min_size()
        } else {
            0
        };
        vstd::wrapping::i32_specs::wrapping_add(self.base(), clamp_i32(over * self.deviation()))
    }
}

impl<T, X> Scorer<T, X> for ScoreBundleSize {
    open spec fn score_of(&self, ctx: QueueContext<X>, bndl: Option<BundleView>, meta: Option<T>) -> i32 {
        match bndl {
            None => 0,
            Some(b) => self.size_score(b.cbor.len() as int),
        }
    }

    fn score(&self, ctx: &QueueContext<X>, bndl: &Option<Bundle>, meta: &Option<T>) -> (r: i32) {
        match bndl {
            None => 0,
            Some(b) => {
                let size = b.cbor.len() as i128;
                let diff = size - self.min as i128;
                let over: i128 = if diff > 0 {
                    diff
                } else {
                    0
                };
                assert(0 <= over <= 0x1_0000_0000_0000_0000 + 0x8000_0000);
                assert(-0x8000_0000 * over <= over * (self.per_deviation as i128) <= 0x8000_0000
                    * over) by (nonlinear_arith)
                    requires
                        0 <= over,
                        -0x8000_0000 <= self.per_deviation <= 0x7fff_ffff,
                ;
                let prod: i128 = over * self.per_deviation as i128;
                let clamped: i32 = if prod > i32::MAX as i128 {
                    i32::MAX
                } else if prod < i32::MIN as i128 {
                    i32::MIN
                } else {
                    prod as i32
                };
                self.base_prio.wrapping_add(clamped)
            },
        }
    }
}

/// ScoreEndpointService gives specific services (dtn://nodeX/service) score
/// points.
pub struct ScoreEndpointService {
    services: StrMap<i32>,
}

impl ScoreEndpointService {
    #[verifier::type_invariant]
    spec fn inv(self) -> bool {
        self.services.wf()
    }

    pub closed spec fn points(&self) -> Map<Seq<char>, i32> {
        self.services@
    }

    pub fn new(services: StrMap<i32>) -> (r: ScoreEndpointService)
        requires
            services.wf(),
        ensures
            r.points() == services@,
    {
        ScoreEndpointService { services }
    }

    /// The points of the service a bundle is destined to; bundles without
    /// service name count as the empty name, unknown services score 0.
    pub open spec fn service_score(&self, service: Option<Seq<char>>) -> i32 {
        let name = match service {
            Some(s) => s,
            None => Seq::<char>::empty(),
        };
        if self.points().contains_key(name) {
            self.points()[name]
        } else {
            0
        }
    }
}

impl<T, X> Scorer<T, X> for ScoreEndpointService {
    open spec fn score_of(&self, ctx: QueueContext<X>, bndl: Option<BundleView>, meta: Option<T>) -> i32 {
        match bndl {
            None => 0,
            Some(b) => self.service_score(b.destination_service),
        }
    }

    fn score(&self, ctx: &QueueContext<X>, bndl: &Option<Bundle>, meta: &Option<T>) -> (r: i32) {
        proof {
            use_type_invariant(self);
        }
        match bndl {
            None => 0,
            Some(b) => {
                let r = match &b.destination_service {
                    Some(s) => self.services.get(s.as_str()),
                    None => self.services.get(""),
                };
                proof {
                    reveal_strlit("");
                    assert(""@ =~= Seq::<char>::empty());
                }
                match r {
                    Some(p) => *p,
                    None => 0,
                }
            },
        }
    }
}

/// A score computed from the metadata of an entry.
pub trait MetaScore {
    type Meta;
    type Extra;

    spec fn score_of(&self, ctx: QueueContext<Self::Extra>, meta: Self::Meta) -> i32;

    fn score(&self, ctx: &QueueContext<Self::Extra>, meta: &Self::Meta) -> (r: i32)
        ensures
            r == self.score_of(*ctx, *meta),
    ;
}

/// ScoreMetaCheck allows to evaluate the meta values score based on some
/// function.
pub struct ScoreMetaCheck<C> {
    check: C,
}

impl<C> ScoreMetaCheck<C> {
    pub closed spec fn rule(&self) -> C {
        self.check
    }

    pub fn new(check: C) -> (r: ScoreMetaCheck<C>)
        ensures
            r.rule() == check,
    {
        ScoreMetaCheck { check }
    }
}

impl<C: MetaScore> Scorer<C::Meta, C::Extra> for ScoreMetaCheck<C> {
    /// Entries without metadata score 0; otherwise the function decides.
    open spec fn score_of(
        &self,
        ctx: QueueContext<C::Extra>,
        bndl: Option<BundleView>,
        meta: Option<C::Meta>,
    ) -> i32 {
        match meta {
            None => 0,
            Some(m) => self.rule().score_of(ctx, m),
        }
    }

    fn score(&self, ctx: &QueueContext<C::Extra>, bndl: &Option<Bundle>, meta: &Option<C::Meta>) -> (r:
        i32) {
        match meta {
            None => 0,
            Some(m) => self.check.score(ctx, m),
        }
    }
}

} // verus!
