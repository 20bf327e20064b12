use vstd::prelude::*;

use super::detector::ledger::{consistent, lemma_total_push, total};
use super::incremental::MAX_PIXELS;
use crate::extract::region_detector::ExtremalRegion;
use crate::image::pixel::{Rgba, ToLuma, ToRgba};
use crate::image::{GridView, Image};
use crate::structures::{Point, Ratio, Rect};

verus! {

/// Keys of recorded regions are the threshold times this, plus the index of
/// the region.
pub const MAX_THRES_REGS: i32 = 1000000;

/// Every cell of the grid has an owner.
pub open spec fn complete(own: GridView<Option<usize>>) -> bool {
    forall|k: int| 0 <= k < own.cells.len() ==> (#[trigger] own.cells[k]) is Some
}

/// std's `BuildHasher::hash_one` for `SipHasher` with its default keys: the
/// digest of the one number `v`. The digest depends on the byte order of
/// the machine, so nothing is said of it.
#[verifier::external_body]
#[allow(deprecated)]
fn sip_hash(v: i32) -> u64 {
    std::hash::BuildHasher::hash_one(&std::hash::BuildHasherDefault::<std::hash::SipHasher>::default(), v)
}

/// The colour that stands for a digest: the colour of its low 32 bits.
pub fn colour_of_digest(h: u64) -> (c: Rgba)
    ensures
        c == Rgba::spec_from_i32(h as i32),
{
    Rgba::from_i32(#[verifier::truncate] (h as i32))
}

impl ToLuma for Option<usize> {
    /// White for an owned cell, black for an unowned one.
    fn to_luma(&self) -> (l: u8)
        ensures
            l == if self is Some { 255u8 } else { 0u8 },
    {
        if self.is_some() {
            255
        } else {
            0
        }
    }
}

impl ToRgba for Option<usize> {
    /// Black for an unowned cell; for an owned cell a colour picked by a
    /// digest of the owner's index.
    fn to_rgba(&self) -> (c: Rgba)
        ensures
            self is None ==> c == Rgba::spec_from_i32(0),
    {
        if let Some(val) = *self {
            colour_of_digest(sip_hash(#[verifier::truncate] (val as i32)))
        } else {
            Rgba::from_i32(0i32)
        }
    }
}

/// An observer of a threshold sweep. It is shown the regions and the
/// ownership grid after each threshold and once more at the end.
pub trait Trace<R: ExtremalRegion> {
    /// The observer is set up for grids of this width and height.
    spec fn fits(&self, width: nat, height: nat) -> bool;

    /// Called when all pixels of intensity `num` have been taken in. The
    /// regions and the grid agree with each other.
    fn step(&mut self, num: i32, all_regions: &[R], reg_img: &Image<Option<usize>>)
        requires
            old(self).fits(reg_img@.width, reg_img@.height),
            0 <= num <= 255,
            consistent(all_regions@, reg_img@),
            all_regions@.len() <= MAX_PIXELS,
        ensures
            final(self).fits(reg_img@.width, reg_img@.height),
    ;

    /// Called when the sweep is over. Every pixel has an owner.
    fn result(&mut self, all_regions: &[R], reg_img: &Image<Option<usize>>)
        requires
            old(self).fits(reg_img@.width, reg_img@.height),
            consistent(all_regions@, reg_img@),
            complete(reg_img@),
            all_regions@.len() <= MAX_PIXELS,
        ensures
            final(self).fits(reg_img@.width, reg_img@.height),
    ;
}

/// An observer that takes no notice.
pub struct EmptyTrace;

impl<R: ExtremalRegion> Trace<R> for EmptyTrace {
    open spec fn fits(&self, width: nat, height: nat) -> bool {
        true
    }

    fn step(&mut self, num: i32, all_regions: &[R], reg_img: &Image<Option<usize>>) {
    }

    fn result(&mut self, all_regions: &[R], reg_img: &Image<Option<usize>>) {
    }
}

/// One line of a sweep report.
#[derive(Debug, Clone, Copy, PartialEq, Eq, Structural)]
pub enum Report {
    /// After threshold `num` there were `regions` regions.
    Step { num: i32, regions: usize },
    /// The sweep ended with `regions` regions and `peaks` peaks in all.
    Finished { regions: usize, peaks: u128 },
}

/// For each region the number of its peaks.
pub open spec fn peak_counts<R: ExtremalRegion>(regs: Seq<R>) -> Seq<int> {
    Seq::new(regs.len(), |i: int| regs[i].spec_peaks().len() as int)
}

/// An observer that keeps a report of the sweep, one line per call, for
/// printing.
pub struct PrintTrace {
    reports: Vec<Report>,
}

impl PrintTrace {
    /// The lines reported so far.
    pub closed spec fn spec_reports(&self) -> Seq<Report> {
        self.reports@
    }

    /// An observer with an empty report.
    pub fn new() -> (t: PrintTrace)
        ensures
            t.spec_reports() == Seq::<Report>::empty(),
    {
        PrintTrace { reports: Vec::new() }
    }

    /// The lines reported so far, oldest first.
    pub fn reports<'a>(&'a self) -> (r: &'a [Report])
        ensures
            r@ == self.spec_reports(),
    {
        self.reports.as_slice()
    }

    /// How many peaks the regions have in all.
    pub fn count_peaks<R: ExtremalRegion>(regions: &[R]) -> (sum: u128)
        requires
            regions@.len() <= MAX_PIXELS,
        ensures
            sum == total(peak_counts(regions@)),
    {
        let mut sum: u128 = 0;
        let mut i: usize = 0;
        while i < regions.len()
            invariant
                i <= regions@.len(),
                regions@.len() <= MAX_PIXELS,
                sum == total(peak_counts(regions@).subrange(0, i as int)),
                sum <= i * 0xFFFF_FFFF_FFFF_FFFF,
            decreases regions@.len() - i,
        {
            let n: usize = regions[i].peaks().len();
            proof {
                let s = peak_counts(regions@);
                assert(s.subrange(0, i + 1) =~= s.subrange(0, i as int).push(s[i as int]));
                lemma_total_push(s.subrange(0, i as int), s[i as int]);
            }
            sum = sum + n as u128;
            i += 1;
        }
        proof {
            let s = peak_counts(regions@);
            assert(s.subrange(0, i as int) =~= s);
        }
        sum
    }
}

impl<R: ExtremalRegion> Trace<R> for PrintTrace {
    open spec fn fits(&self, width: nat, height: nat) -> bool {
        true
    }

    /// Reports the threshold and the number of regions.
    fn step(&mut self, num: i32, regions: &[R], reg_img: &Image<Option<usize>>)
        ensures
            final(self).spec_reports() == old(self).spec_reports().push(
                Report::Step { num, regions: regions@.len() as usize },
            ),
    {
        self.reports.push(Report::Step { num, regions: regions.len() });
    }

    /// Reports the number of regions and the number of their peaks.
    fn result(&mut self, regions: &[R], reg_img: &Image<Option<usize>>)
        ensures
            final(self).spec_reports() == old(self).spec_reports().push(
                Report::Finished {
                    regions: regions@.len() as usize,
                    peaks: total(peak_counts(regions@)) as u128,
                },
            ),
    {
        let sum_peaks: u128 = Self::count_peaks(regions);
        self.reports.push(Report::Finished { regions: regions.len(), peaks: sum_peaks });
    }
}

/// A region as a recording observer sees it: the region itself, open to
/// inspection.
#[derive(Debug)]
pub struct TracedRegion<R: ExtremalRegion> {
    pub region: R,
}

impl<R: ExtremalRegion> ExtremalRegion for TracedRegion<R> {
    type F = R::F;

    type Model = R::Model;

    open spec fn model(&self) -> R::Model {
        self.region.model()
    }

    open spec fn wf(&self) -> bool {
        self.region.wf()
    }

    open spec fn points_of(m: R::Model) -> Seq<Point> {
        R::points_of(m)
    }

    open spec fn threshold_of(m: R::Model) -> int {
        R::threshold_of(m)
    }

    open spec fn bounds_of(m: R::Model) -> Rect {
        R::bounds_of(m)
    }

    open spec fn weight_of(m: R::Model) -> Ratio {
        R::weight_of(m)
    }

    open spec fn spec_peaks(&self) -> Seq<(Rect, R::F)> {
        self.region.spec_peaks()
    }

    open spec fn feature_values(&self) -> Seq<Ratio> {
        self.region.feature_values()
    }

    open spec fn init_model(p: Point, reg_idx: usize, thres: i32) -> R::Model {
        R::init_model(p, reg_idx, thres)
    }

    open spec fn increment_model(
        m: R::Model,
        p: Point,
        thres: i32,
        img: GridView<u8>,
        own: GridView<Option<usize>>,
    ) -> R::Model {
        R::increment_model(m, p, thres, img, own)
    }

    open spec fn merge_model(m: R::Model, other: R::Model, thres: i32) -> R::Model {
        R::merge_model(m, other, thres)
    }

    fn init(p: Point, reg_idx: usize, thres: i32) -> (r: Self) {
        TracedRegion { region: R::init(p, reg_idx, thres) }
    }

    fn increment(&mut self, p: Point, thres: i32, img: &Image<u8>, reg_img: &Image<Option<usize>>) {
        self.region.increment(p, thres, img, reg_img);
    }

    fn merge(&mut self, other: &Self, thres: i32, img: &Image<u8>, reg_img: &Image<Option<usize>>) {
        self.region.merge(&other.region, thres, img, reg_img);
    }

    fn threshold(&self) -> (t: i32) {
        self.region.threshold()
    }

    fn points<'a>(&'a self) -> (pts: &'a [Point]) {
        self.region.points()
    }

    fn weight(&self) -> (w: Ratio) {
        self.region.weight()
    }

    fn bounds(&self) -> (b: Rect) {
        self.region.bounds()
    }

    fn peaks<'a>(&'a self) -> (pks: &'a [(Rect, R::F)]) {
        self.region.peaks()
    }

    fn feature_vec(&self, v: &mut Vec<Ratio>) {
        self.region.feature_vec(v);
    }
}

} // verus!
