use vstd::prelude::*;

use crate::extract::cser::detector::model::is_swept;
use crate::extract::cser::incremental::MAX_PIXELS;
use crate::extract::cser::trace::Trace;
use crate::image::{GridView, Image};
use crate::structures::{Point, Ratio, Rect};

verus! {

/// A connected set of pixels that grows during a threshold sweep: it starts
/// from one pixel, takes up pixels that border on it, and absorbs other
/// regions that it comes to touch.
pub trait ExtremalRegion: Sized {
    /// The feature state that is kept with each peak.
    type F;

    /// The mathematical value of the region.
    type Model;

    spec fn model(&self) -> Self::Model;

    /// The region is consistent in itself.
    spec fn wf(&self) -> bool;

    /// The pixels of a region, in the order in which they joined.
    spec fn points_of(m: Self::Model) -> Seq<Point>;

    /// The threshold at which a region last changed.
    spec fn threshold_of(m: Self::Model) -> int;

    /// The smallest rectangle that covers a region.
    spec fn bounds_of(m: Self::Model) -> Rect;

    /// The stability weight of a region.
    spec fn weight_of(m: Self::Model) -> Ratio;

    /// The peaks recorded so far, oldest first.
    spec fn spec_peaks(&self) -> Seq<(Rect, Self::F)>;

    /// The scalars that the features of the region stand for.
    spec fn feature_values(&self) -> Seq<Ratio>;

    /// The region that consists of `p` alone.
    spec fn init_model(p: Point, reg_idx: usize, thres: i32) -> Self::Model;

    /// The region after `p` has joined it at threshold `thres`. `own` is the
    /// ownership grid from before `p` is marked in it.
    spec fn increment_model(
        m: Self::Model,
        p: Point,
        thres: i32,
        img: GridView<u8>,
        own: GridView<Option<usize>>,
    ) -> Self::Model;

    /// The region after it has absorbed `other` at threshold `thres`.
    spec fn merge_model(m: Self::Model, other: Self::Model, thres: i32) -> Self::Model;

    /// Starts region number `reg_idx` from the pixel `p`, met at threshold
    /// `thres`.
    fn init(p: Point, reg_idx: usize, thres: i32) -> (r: Self)
        ensures
            r.wf(),
            r.model() == Self::init_model(p, reg_idx, thres),
            Self::points_of(r.model()) == seq![p],
    ;

    /// Takes up the pixel `p` of `img`, which borders on a pixel of the
    /// region.
    fn increment(&mut self, p: Point, thres: i32, img: &Image<u8>, reg_img: &Image<Option<usize>>)
        requires
            old(self).wf(),
            Self::points_of(old(self).model()).len() < MAX_PIXELS,
            exists|i: int|
                0 <= i < Self::points_of(old(self).model()).len() && (#[trigger] Self::points_of(
                    old(self).model(),
                )[i]).adjacent(p),
            img@.inside(p.x as int, p.y as int),
            img@.addressable(),
        ensures
            final(self).wf(),
            final(self).model() == Self::increment_model(old(self).model(), p, thres, img@, reg_img@),
            Self::points_of(final(self).model()) == Self::points_of(old(self).model()).push(p),
    ;

    /// Absorbs `other`, a region with a pixel that borders on a pixel of
    /// this one.
    fn merge(&mut self, other: &Self, thres: i32, img: &Image<u8>, reg_img: &Image<Option<usize>>)
        requires
            old(self).wf(),
            other.wf(),
            Self::points_of(old(self).model()).len() + Self::points_of(other.model()).len() <= MAX_PIXELS,
            exists|i: int, j: int|
                0 <= i < Self::points_of(old(self).model()).len() && 0 <= j < Self::points_of(other.model()).len()
                    && (#[trigger] Self::points_of(old(self).model())[i]).adjacent(
                    #[trigger] Self::points_of(other.model())[j],
                ),
        ensures
            final(self).wf(),
            final(self).model() == Self::merge_model(old(self).model(), other.model(), thres),
            Self::points_of(final(self).model()) == Self::points_of(old(self).model()) + Self::points_of(
                other.model(),
            ),
    ;

    /// The threshold at which the region last changed.
    fn threshold(&self) -> (t: i32)
        ensures
            t == Self::threshold_of(self.model()),
    ;

    /// The pixels of the region, in the order in which they joined.
    fn points<'a>(&'a self) -> (pts: &'a [Point])
        ensures
            pts@ == Self::points_of(self.model()),
    ;

    /// The smallest rectangle that covers the region.
    fn bounds(&self) -> (b: Rect)
        ensures
            b == Self::bounds_of(self.model()),
    ;

    /// The peaks recorded so far, oldest first.
    fn peaks<'a>(&'a self) -> (pks: &'a [(Rect, Self::F)])
        ensures
            pks@ == self.spec_peaks(),
    ;

    /// The current stability weight.
    fn weight(&self) -> (w: Ratio)
        ensures
            w == Self::weight_of(self.model()),
    ;

    /// Appends the scalars of the region's features to `v`.
    fn feature_vec(&self, v: &mut Vec<Ratio>)
        requires
            self.wf(),
        ensures
            final(v)@ == old(v)@ + self.feature_values(),
    ;
}

/// A way to find the extremal regions of a grayscale image.
pub trait RegionDetector {
    type Region: ExtremalRegion;

    type Trace: Trace<Self::Region>;

    /// The regions of `img`, absorbed ones included. They are what a sweep
    /// leaves behind, together with some ownership grid.
    fn detect(img: &Image<u8>, trace: &mut Self::Trace) -> (regions: Vec<Self::Region>)
        requires
            img@.addressable(),
            img@.cells.len() <= MAX_PIXELS,
            old(trace).fits(img@.width, img@.height),
        ensures
            exists|own: GridView<Option<usize>>| is_swept(img@, regions@, own),
            final(trace).fits(img@.width, img@.height),
    ;
}

} // verus!
