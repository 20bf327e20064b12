use vstd::prelude::*;

use super::feature::Feature;
use super::incremental::MAX_PIXELS;
use crate::extract::region_detector::ExtremalRegion;
use crate::image::{GridView, Image};
use crate::structures::{Point, Ratio, Rect};

verus! {

/// Weights are kept as a whole number of fiftieths.
pub const WEIGHT_SCALE: i32 = 50;

/// The weight of a region that has not grown yet: minus one, in fiftieths.
pub const WEIGHT_UNSET: i32 = -50;

/// The mathematical value of a [`Region`] whose feature state has the value
/// type `M`.
pub struct RegionModel<M> {
    pub feature: M,
    pub bounds: Rect,
    pub points: Seq<Point>,
    /// Current weight, in fiftieths.
    pub weight: int,
    /// Weight before the latest step, in fiftieths.
    pub prev_weight: int,
    pub peaks: Seq<(Rect, M)>,
    pub threshold: int,
}

/// Whether a weight is a peak: it exceeds the weight before it and the
/// weight after it by more than a twentieth. All three are in fiftieths.
pub open spec fn is_peak_between(prev_weight: int, weight: int, new_weight: int) -> bool {
    20 * (weight - prev_weight) > WEIGHT_SCALE && 20 * (weight - new_weight) > WEIGHT_SCALE
}

/// The weight of a region of `count` pixels, in fiftieths.
pub open spec fn weight_for_count(count: nat) -> int {
    (count % 50) as int
}

impl<M> RegionModel<M> {
    /// Closes a step at threshold `thres`: the weight for the current pixel
    /// count comes in, the current weight becomes the previous one, and the
    /// current bounds and feature state are recorded if the current weight
    /// is a peak.
    pub open spec fn advanced(self, thres: int) -> RegionModel<M> {
        let new_weight = weight_for_count(self.points.len());
        RegionModel {
            peaks: if is_peak_between(self.prev_weight, self.weight, new_weight) {
                self.peaks.push((self.bounds, self.feature))
            } else {
                self.peaks
            },
            prev_weight: self.weight,
            weight: new_weight,
            threshold: thres,
            ..self
        }
    }
}

/// A region that absorbs another has as many pixels as both had. Its peaks
/// are its own peaks so far and, if the step is a peak, one more; when the
/// absorbed region has no peaks, these are the peaks of both.
pub proof fn lemma_merge_counts_and_history<A: Feature>(
    m: RegionModel<A::Model>,
    other: RegionModel<A::Model>,
    thres: i32,
)
    ensures
        Region::<A>::merge_model(m, other, thres).points == m.points + other.points,
        Region::<A>::merge_model(m, other, thres).points.len() == m.points.len() + other.points.len(),
        Region::<A>::merge_model(m, other, thres).peaks == m.peaks || Region::<A>::merge_model(
            m,
            other,
            thres,
        ).peaks == m.peaks.push(
            (m.bounds.spec_expand(other.bounds), A::merge_model(m.feature, other.feature)),
        ),
        other.peaks.len() == 0 ==> Region::<A>::merge_model(m, other, thres).peaks == m.peaks + other.peaks
            || Region::<A>::merge_model(m, other, thres).peaks == (m.peaks + other.peaks).push(
            (m.bounds.spec_expand(other.bounds), A::merge_model(m.feature, other.feature)),
        ),
{
    if other.peaks.len() == 0 {
        assert(m.peaks + other.peaks =~= m.peaks);
    }
}

/// Two regions of one pixel each make a region of two pixels without peaks
/// when one absorbs the other.
pub proof fn lemma_merge_of_single_pixels<A: Feature>(p: Point, q: Point, i: usize, j: usize, t: i32, thres: i32)
    ensures
        Region::<A>::merge_model(
            Region::<A>::init_model(p, i, t),
            Region::<A>::init_model(q, j, t),
            thres,
        ).points == seq![p, q],
        Region::<A>::merge_model(
            Region::<A>::init_model(p, i, t),
            Region::<A>::init_model(q, j, t),
            thres,
        ).peaks.len() == 0,
{
    assert(seq![p] + seq![q] =~= seq![p, q]);
}

/// A region that keeps, next to its pixels and bounding box, a feature state
/// of type `A` and the history of its peaks.
#[derive(Debug)]
pub struct Region<A: Feature> {
    features: A,
    bounds: Rect,
    points: Vec<Point>,
    weight: i32,
    peaks: Vec<(Rect, A)>,
    prev_weight: i32,
    threshold: i32,
}

impl<A: Feature> Region<A> {
    /// The feature state of the region.
    pub closed spec fn spec_features(&self) -> A {
        self.features
    }

    /// The feature values that were recorded with the peaks.
    pub open spec fn peak_models(peaks: Seq<(Rect, A)>) -> Seq<(Rect, A::Model)> {
        Seq::new(peaks.len(), |i: int| (peaks[i].0, peaks[i].1.model()))
    }

    fn is_peak(&self, new_weight: i32) -> (b: bool)
        requires
            WEIGHT_UNSET <= self.weight < WEIGHT_SCALE,
            WEIGHT_UNSET <= self.prev_weight < WEIGHT_SCALE,
            0 <= new_weight < WEIGHT_SCALE,
        ensures
            b == is_peak_between(self.prev_weight as int, self.weight as int, new_weight as int),
    {
        20 * (self.weight - self.prev_weight) > WEIGHT_SCALE && 20 * (self.weight - new_weight) > WEIGHT_SCALE
    }

    /// Closes a step: see [`RegionModel::advanced`].
    fn advance(&mut self, thres: i32)
        requires
            WEIGHT_UNSET <= old(self).weight < WEIGHT_SCALE,
            WEIGHT_UNSET <= old(self).prev_weight < WEIGHT_SCALE,
        ensures
            final(self).model() == old(self).model().advanced(thres as int),
            final(self).features == old(self).features,
            final(self).points == old(self).points,
            0 <= final(self).weight < WEIGHT_SCALE,
            WEIGHT_UNSET <= final(self).prev_weight < WEIGHT_SCALE,
    {
        let ghost before = self.model();
        let new_weight: i32 = (self.points.len() % 50) as i32;
        if self.is_peak(new_weight) {
            let snap = self.features.snapshot();
            self.peaks.push((self.bounds, snap));
            assert(Self::peak_models(self.peaks@) =~= before.peaks.push((before.bounds, before.feature)));
        }
        self.prev_weight = self.weight;
        self.weight = new_weight;
        self.threshold = thres;
    }

    /// The feature state of the region.
    pub fn features(&self) -> (f: &A)
        ensures
            *f == self.spec_features(),
            f.model() == self.model().feature,
    {
        &self.features
    }

    /// How many pixels the region has.
    pub fn point_count(&self) -> (n: usize)
        ensures
            n == self.model().points.len(),
    {
        self.points.len()
    }
}

impl<A: Feature> ExtremalRegion for Region<A> {
    type F = A;

    type Model = RegionModel<A::Model>;

    closed spec fn model(&self) -> RegionModel<A::Model> {
        RegionModel {
            feature: self.features.model(),
            bounds: self.bounds,
            points: self.points@,
            weight: self.weight as int,
            prev_weight: self.prev_weight as int,
            peaks: Self::peak_models(self.peaks@),
            threshold: self.threshold as int,
        }
    }

    closed spec fn wf(&self) -> bool {
        &&& self.features.wf()
        &&& self.features.within(self.points@.len())
        &&& forall|i: int| 0 <= i < self.points@.len() ==> self.features.spans(#[trigger] self.points@[i])
        &&& 1 <= self.points@.len() <= MAX_PIXELS
        &&& WEIGHT_UNSET <= self.weight < WEIGHT_SCALE
        &&& WEIGHT_UNSET <= self.prev_weight < WEIGHT_SCALE
    }

    open spec fn points_of(m: RegionModel<A::Model>) -> Seq<Point> {
        m.points
    }

    open spec fn threshold_of(m: RegionModel<A::Model>) -> int {
        m.threshold
    }

    open spec fn bounds_of(m: RegionModel<A::Model>) -> Rect {
        m.bounds
    }

    /// The weight as a fraction of one: so many fiftieths.
    open spec fn weight_of(m: RegionModel<A::Model>) -> Ratio {
        Ratio { num: m.weight as i64, den: WEIGHT_SCALE as i64 }
    }

    closed spec fn spec_peaks(&self) -> Seq<(Rect, A)> {
        self.peaks@
    }

    open spec fn feature_values(&self) -> Seq<Ratio> {
        self.spec_features().values()
    }

    open spec fn init_model(p: Point, reg_idx: usize, thres: i32) -> RegionModel<A::Model> {
        RegionModel {
            feature: A::init_model(p, reg_idx),
            bounds: Rect::at(p),
            points: seq![p],
            weight: WEIGHT_UNSET as int,
            prev_weight: WEIGHT_UNSET as int,
            peaks: Seq::empty(),
            threshold: thres as int,
        }
    }

    open spec fn increment_model(
        m: RegionModel<A::Model>,
        p: Point,
        thres: i32,
        img: GridView<u8>,
        own: GridView<Option<usize>>,
    ) -> RegionModel<A::Model> {
        (RegionModel {
            feature: A::increment_model(m.feature, p, img, own),
            bounds: m.bounds.spec_expand(Rect::at(p)),
            points: m.points.push(p),
            ..m
        }).advanced(thres as int)
    }

    open spec fn merge_model(m: RegionModel<A::Model>, other: RegionModel<A::Model>, thres: i32) -> RegionModel<
        A::Model,
    > {
        (RegionModel {
            feature: A::merge_model(m.feature, other.feature),
            bounds: m.bounds.spec_expand(other.bounds),
            points: m.points + other.points,
            ..m
        }).advanced(thres as int)
    }

    fn init(p: Point, reg_idx: usize, thres: i32) -> (r: Self) {
        let mut points: Vec<Point> = Vec::new();
        points.push(p);
        let r = Region {
            features: A::init(p, reg_idx),
            bounds: Rect(p, p),
            points,
            weight: WEIGHT_UNSET,
            peaks: Vec::new(),
            prev_weight: WEIGHT_UNSET,
            threshold: thres,
        };
        assert(r.points@ =~= seq![p]);
        assert(Self::peak_models(r.peaks@) =~= Seq::empty());
        r
    }

    fn increment(&mut self, p: Point, thres: i32, img: &Image<u8>, reg_img: &Image<Option<usize>>) {
        let ghost before = *self;
        proof {
            let i = choose|i: int|
                0 <= i < Self::points_of(old(self).model()).len() && (#[trigger] Self::points_of(
                    old(self).model(),
                )[i]).adjacent(p);
            assert(self.features.spans(self.points@[i]) && self.points@[i].adjacent(p));
            self.features.lemma_within_more(self.points@.len(), (MAX_PIXELS - 1) as nat);
        }
        self.features.increment(p, img, reg_img);
        self.bounds = self.bounds.expand(Rect(p, p));
        self.points.push(p);
        assert(before.features.within(before.points@.len()));
        assert forall|i: int| 0 <= i < self.points@.len() implies self.features.spans(#[trigger] self.points@[i]) by {
            if i < before.points@.len() {
                assert(before.features.spans(before.points@[i]));
            }
        }
        self.advance(thres);
    }

    fn merge(&mut self, other: &Self, thres: i32, img: &Image<u8>, reg_img: &Image<Option<usize>>) {
        let ghost before = *self;
        proof {
            let (i, j) = choose|i: int, j: int|
                0 <= i < Self::points_of(old(self).model()).len() && 0 <= j < Self::points_of(other.model()).len()
                    && (#[trigger] Self::points_of(old(self).model())[i]).adjacent(
                    #[trigger] Self::points_of(other.model())[j],
                );
            assert(self.features.spans(self.points@[i]) && other.features.spans(other.points@[j])
                && self.points@[i].adjacent(other.points@[j]));
            assert(self.features.within(self.points@.len()) && other.features.within(other.points@.len()));
        }
        self.bounds = self.bounds.expand(other.bounds);
        let mut k: usize = 0;
        while k < other.points.len()
            invariant
                k <= other.points.len(),
                self.points@ == before.points@ + other.points@.subrange(0, k as int),
                self.features == before.features,
                self.peaks == before.peaks,
                self.weight == before.weight,
                self.prev_weight == before.prev_weight,
                self.bounds == before.bounds.spec_expand(other.bounds),
            decreases other.points.len() - k,
        {
            self.points.push(other.points[k]);
            k += 1;
        }
        assert(self.points@ =~= before.points@ + other.points@);
        self.features.merge(&other.features, img, reg_img);
        assert(before.features.within(before.points@.len()) && other.features.within(other.points@.len()));
        assert forall|i: int| 0 <= i < self.points@.len() implies self.features.spans(#[trigger] self.points@[i]) by {
            if i < before.points@.len() {
                assert(before.features.spans(before.points@[i]));
            } else {
                assert(other.features.spans(other.points@[i - before.points@.len()]));
            }
        }
        self.advance(thres);
    }

    fn threshold(&self) -> (t: i32) {
        self.threshold
    }

    fn points<'a>(&'a self) -> (pts: &'a [Point]) {
        self.points.as_slice()
    }

    fn weight(&self) -> (w: Ratio) {
        Ratio::new(self.weight as i64, WEIGHT_SCALE as i64)
    }

    fn bounds(&self) -> (b: Rect) {
        self.bounds
    }

    fn peaks<'a>(&'a self) -> (pks: &'a [(Rect, A)])
        ensures
            Self::peak_models(pks@) == self.model().peaks,
    {
        self.peaks.as_slice()
    }

    fn feature_vec(&self, v: &mut Vec<Ratio>) {
        proof {
            self.features.lemma_within_more(self.points@.len(), MAX_PIXELS as nat);
        }
        self.features.value(v);
    }
}

} // verus!
