use std::collections::HashMap;
use std::marker::PhantomData;
use vstd::prelude::*;

use super::detector::ledger::consistent;
use super::incremental::MAX_PIXELS;
use super::trace::{Trace, TracedRegion, MAX_THRES_REGS};
use crate::extract::region_detector::ExtremalRegion;
use crate::image::{GridView, Image};
use crate::structures::{Ratio, Rect};

verus! {

broadcast use vstd::std_specs::hash::group_hash_axioms;

/// What is recorded of a region: its feature scalars, its bounding box and
/// the threshold at which it last changed.
#[derive(Debug)]
pub struct RegionSnapshot {
    pub features: Vec<Ratio>,
    pub bounds: Rect,
    pub thres: i32,
}

/// The mathematical value of a [`RegionSnapshot`].
pub struct SnapshotView {
    pub features: Seq<Ratio>,
    pub bounds: Rect,
    pub thres: int,
}

impl View for RegionSnapshot {
    type V = SnapshotView;

    open spec fn view(&self) -> SnapshotView {
        SnapshotView { features: self.features@, bounds: self.bounds, thres: self.thres as int }
    }
}

/// The record of a sweep: the recorded regions by key, and for each pixel,
/// as `regions_map[y][x]`, the keys of the recorded regions that owned it.
#[derive(Debug)]
pub struct TraceResult {
    regions: HashMap<i32, RegionSnapshot>,
    regions_map: Vec<Vec<Vec<i32>>>,
}

/// The mathematical value of a [`TraceResult`].
pub struct TraceView {
    pub regions: Map<i32, SnapshotView>,
    pub regions_map: Seq<Seq<Seq<i32>>>,
}

impl View for TraceResult {
    type V = TraceView;

    closed spec fn view(&self) -> TraceView {
        TraceView {
            regions: self.regions@.map_values(|s: RegionSnapshot| s@),
            regions_map: Seq::new(
                self.regions_map@.len(),
                |y: int| Seq::new(self.regions_map@[y]@.len(), |x: int| self.regions_map@[y]@[x]@),
            ),
        }
    }
}

impl TraceResult {
    /// The recorded regions, by key.
    pub fn regions<'a>(&'a self) -> (m: &'a HashMap<i32, RegionSnapshot>)
        ensures
            m@.map_values(|s: RegionSnapshot| s@) == self@.regions,
    {
        &self.regions
    }

    /// For each pixel, as `regions_map[y][x]`, the keys of the recorded
    /// regions that owned it.
    pub fn regions_map<'a>(&'a self) -> (m: &'a Vec<Vec<Vec<i32>>>)
        ensures
            m@.len() == self@.regions_map.len(),
            forall|y: int, x: int|
                0 <= y < m@.len() && 0 <= x < m@[y]@.len() ==> #[trigger] m@[y]@[x]@ == self@.regions_map[y][x],
            forall|y: int| 0 <= y < m@.len() ==> (#[trigger] m@[y])@.len() == self@.regions_map[y].len(),
    {
        &self.regions_map
    }
}

/// Whether a bounding box is no smaller than `min` and no larger than
/// `max`, both given as width and height.
pub open spec fn is_good_box(b: Rect, min: (i32, i32), max: (i32, i32)) -> bool {
    min.0 <= b.spec_width() && min.1 <= b.spec_height() && max.0 >= b.spec_width() && max.1 >= b.spec_height()
}

/// Whether a region is recorded after threshold `num`: it last changed at
/// one of the ten thresholds up to `num`, and its bounding box has a good
/// size.
pub open spec fn selected<R: ExtremalRegion>(r: R, num: int, min: (i32, i32), max: (i32, i32)) -> bool {
    R::threshold_of(r.model()) > num - 10 && R::threshold_of(r.model()) <= num && is_good_box(
        R::bounds_of(r.model()),
        min,
        max,
    )
}

/// The key under which region `idx` is recorded when it last changed at
/// threshold `thres`.
pub open spec fn key_of(thres: int, idx: int) -> int {
    thres * MAX_THRES_REGS + idx
}

/// What is recorded of the region `r`.
pub open spec fn snapshot_of<R: ExtremalRegion>(r: R) -> SnapshotView {
    SnapshotView {
        features: r.feature_values(),
        bounds: R::bounds_of(r.model()),
        thres: R::threshold_of(r.model()),
    }
}

/// The recorded regions `m` after the first `upto` of `regs` have been gone
/// through after threshold `num`: each selected region is recorded under its
/// key, a later one in the place of an earlier one with the same key.
pub open spec fn recorded<R: ExtremalRegion>(
    m: Map<i32, SnapshotView>,
    regs: Seq<R>,
    upto: int,
    num: int,
    min: (i32, i32),
    max: (i32, i32),
) -> Map<i32, SnapshotView>
    decreases upto,
{
    if upto <= 0 {
        m
    } else {
        let prev = recorded(m, regs, upto - 1, num, min, max);
        let r = regs[upto - 1];
        if selected(r, num, min, max) {
            prev.insert(key_of(R::threshold_of(r.model()), upto - 1) as i32, snapshot_of(r))
        } else {
            prev
        }
    }
}

/// The keys noted for the pixel `(x, y)` after threshold `num`: the keys
/// `before`, and behind them the key of its owner if that region is
/// selected.
pub open spec fn noted<R: ExtremalRegion>(
    before: Seq<i32>,
    regs: Seq<R>,
    own: GridView<Option<usize>>,
    x: int,
    y: int,
    num: int,
    min: (i32, i32),
    max: (i32, i32),
) -> Seq<i32> {
    match own.at(x, y) {
        Some(idx) => if selected(regs[idx as int], num, min, max) {
            before.push(key_of(R::threshold_of(regs[idx as int].model()), idx as int) as i32)
        } else {
            before
        },
        None => before,
    }
}

/// Whether threshold `num` is one after which regions are recorded: every
/// tenth one, and not the last.
pub open spec fn records_at(num: int) -> bool {
    num % 10 == 0 && num < 255
}

/// An observer that records, after every tenth threshold, the regions that
/// changed since the last record and have a bounding box of a good size,
/// and which pixels they own.
pub struct FullTrace<'a, R: ExtremalRegion> {
    pub path: &'a str,
    trace_result: TraceResult,
    r: PhantomData<R>,
    min_region_dims: (i32, i32),
    max_region_dims: (i32, i32),
}

impl<'a, R: ExtremalRegion> FullTrace<'a, R> {
    /// Where the record is meant to go.
    pub closed spec fn spec_path(&self) -> &'a str {
        self.path
    }

    /// The record so far.
    pub closed spec fn spec_result(&self) -> TraceView {
        self.trace_result@
    }

    /// The smallest width and height of a bounding box that is recorded.
    pub closed spec fn spec_min(&self) -> (i32, i32) {
        self.min_region_dims
    }

    /// The largest width and height of a bounding box that is recorded.
    pub closed spec fn spec_max(&self) -> (i32, i32) {
        self.max_region_dims
    }

    /// The record has one list of keys for each pixel of a `width` by
    /// `height` grid.
    pub open spec fn covers(v: TraceView, width: nat, height: nat) -> bool {
        v.regions_map.len() == height && forall|y: int|
            0 <= y < height ==> (#[trigger] v.regions_map[y]).len() == width
    }

    /// An observer for images of the given size, with an empty record.
    pub fn new(
        path: &'a str,
        image_width: usize,
        image_height: usize,
        min_region_dims: (i32, i32),
        max_region_dims: (i32, i32),
    ) -> (t: Self)
        ensures
            t.spec_path() == path,
            t.spec_min() == min_region_dims,
            t.spec_max() == max_region_dims,
            t.spec_result().regions == Map::<i32, SnapshotView>::empty(),
            Self::covers(t.spec_result(), image_width as nat, image_height as nat),
            forall|y: int, x: int|
                0 <= y < image_height && 0 <= x < image_width ==> (#[trigger] t.spec_result().regions_map[y][x])
                    == Seq::<i32>::empty(),
    {
        let mut rows: Vec<Vec<Vec<i32>>> = Vec::new();
        let mut y: usize = 0;
        while y < image_height
            invariant
                y <= image_height,
                rows@.len() == y,
                forall|j: int| 0 <= j < y ==> (#[trigger] rows@[j])@.len() == image_width,
                forall|j: int, i: int|
                    0 <= j < y && 0 <= i < image_width ==> (#[trigger] rows@[j]@[i])@ == Seq::<i32>::empty(),
            decreases image_height - y,
        {
            let mut row: Vec<Vec<i32>> = Vec::new();
            let mut x: usize = 0;
            while x < image_width
                invariant
                    x <= image_width,
                    row@.len() == x,
                    forall|i: int| 0 <= i < x ==> (#[trigger] row@[i])@ == Seq::<i32>::empty(),
                decreases image_width - x,
            {
                row.push(Vec::new());
                x += 1;
            }
            rows.push(row);
            y += 1;
        }
        let regions: HashMap<i32, RegionSnapshot> = HashMap::new();
        assert(regions@.map_values(|s: RegionSnapshot| s@) =~= Map::<i32, SnapshotView>::empty());
        FullTrace {
            path,
            trace_result: TraceResult { regions, regions_map: rows },
            r: PhantomData,
            min_region_dims,
            max_region_dims,
        }
    }

    fn is_good(&self, b: Rect) -> (good: bool)
        ensures
            good == is_good_box(b, self.min_region_dims, self.max_region_dims),
    {
        let w: i64 = b.1.x as i64 - b.0.x as i64 + 1;
        let h: i64 = b.1.y as i64 - b.0.y as i64 + 1;
        self.min_region_dims.0 as i64 <= w && self.min_region_dims.1 as i64 <= h && self.max_region_dims.0 as i64
            >= w && self.max_region_dims.1 as i64 >= h
    }

    fn is_selected(&self, r: &TracedRegion<R>, num: i32) -> (s: bool)
        requires
            0 <= num <= 255,
        ensures
            s == selected(*r, num as int, self.min_region_dims, self.max_region_dims),
    {
        r.threshold() > num - 10 && r.threshold() <= num && self.is_good(r.bounds())
    }

    /// The record so far.
    pub fn get_trace_result<'b>(&'b self) -> (t: &'b TraceResult)
        ensures
            t@ == self.spec_result(),
    {
        &self.trace_result
    }
}

impl<'a, R: ExtremalRegion> Trace<TracedRegion<R>> for FullTrace<'a, R> {
    open spec fn fits(&self, width: nat, height: nat) -> bool {
        Self::covers(self.spec_result(), width, height)
    }

    /// Records after every tenth threshold but the last: the selected
    /// regions under their keys, and for each pixel the key of its owner if
    /// that is selected. After other thresholds nothing changes.
    fn step(&mut self, num: i32, all_regions: &[TracedRegion<R>], reg_img: &Image<Option<usize>>)
        ensures
            final(self).spec_path() == old(self).spec_path(),
            final(self).spec_min() == old(self).spec_min(),
            final(self).spec_max() == old(self).spec_max(),
            !records_at(num as int) ==> final(self).spec_result() == old(self).spec_result(),
            records_at(num as int) ==> {
                &&& final(self).spec_result().regions == recorded(
                    old(self).spec_result().regions,
                    all_regions@,
                    all_regions@.len() as int,
                    num as int,
                    old(self).spec_min(),
                    old(self).spec_max(),
                )
                &&& forall|y: int, x: int|
                    0 <= y < reg_img@.height && 0 <= x < reg_img@.width ==> (#[trigger] final(self).spec_result()
                        .regions_map[y][x]) == noted(
                        old(self).spec_result().regions_map[y][x],
                        all_regions@,
                        reg_img@,
                        x,
                        y,
                        num as int,
                        old(self).spec_min(),
                        old(self).spec_max(),
                    )
            },
    {
        if num % 10 == 0 && num < 255 {
            let ghost v0 = self.trace_result@;
            let ghost min = self.min_region_dims;
            let ghost max = self.max_region_dims;
            let regs_count: usize = all_regions.len();
            let mut i: usize = 0;
            while i < regs_count
                invariant
                    i <= regs_count,
                    regs_count == all_regions@.len(),
                    regs_count <= MAX_PIXELS,
                    0 <= num <= 255,
                    consistent(all_regions@, reg_img@),
                    self.path == old(self).path,
                    self.min_region_dims == min,
                    self.max_region_dims == max,
                    self.trace_result.regions_map == old(self).trace_result.regions_map,
                    self.trace_result@.regions == recorded(v0.regions, all_regions@, i as int, num as int, min, max),
                decreases regs_count - i,
            {
                let r = &all_regions[i];
                if self.is_selected(r, num) {
                    let mut f: Vec<Ratio> = Vec::new();
                    proof {
                        assert(all_regions@[i as int].wf());
                    }
                    r.feature_vec(&mut f);
                    let rs = RegionSnapshot { features: f, bounds: r.bounds(), thres: r.threshold() };
                    let key: i32 = r.threshold() * MAX_THRES_REGS + (i as i32);
                    let ghost before = self.trace_result.regions@;
                    self.trace_result.regions.insert(key, rs);
                    proof {
                        assert(f@ =~= r.feature_values());
                        assert(self.trace_result.regions@.map_values(|s: RegionSnapshot| s@) =~= before.map_values(
                            |s: RegionSnapshot| s@,
                        ).insert(key, rs@));
                    }
                }
                i += 1;
            }
            let w: usize = reg_img.width();
            let h: usize = reg_img.height();
            proof {
                use_type_invariant(reg_img);
                reg_img.lemma_view_wf();
                assert(v0.regions_map.len() == h);
                assert forall|yy: int| 0 <= yy < h implies (#[trigger] self.trace_result.regions_map@[yy])@.len()
                    == w by {
                    assert(v0.regions_map[yy].len() == w);
                }
                assert forall|yy: int, xx: int| 0 <= yy < h && 0 <= xx < w implies (
                #[trigger] self.trace_result.regions_map@[yy]@[xx])@ == v0.regions_map[yy][xx] by {
                    assert(v0.regions_map[yy].len() == w);
                }
            }
            let mut x: usize = 0;
            while x < w
                invariant
                    x <= w,
                    w == reg_img@.width,
                    h == reg_img@.height,
                    reg_img@.wf(),
                    regs_count == all_regions@.len(),
                    regs_count <= MAX_PIXELS,
                    0 <= num <= 255,
                    consistent(all_regions@, reg_img@),
                    self.path == old(self).path,
                    self.min_region_dims == min,
                    self.max_region_dims == max,
                    Self::covers(v0, w as nat, h as nat),
                    self.trace_result@.regions == recorded(
                        v0.regions,
                        all_regions@,
                        regs_count as int,
                        num as int,
                        min,
                        max,
                    ),
                    self.trace_result.regions_map@.len() == h,
                    forall|yy: int| 0 <= yy < h ==> (#[trigger] self.trace_result.regions_map@[yy])@.len() == w,
                    forall|yy: int, xx: int|
                        0 <= yy < h && 0 <= xx < w ==> (#[trigger] self.trace_result.regions_map@[yy]@[xx])@ == if xx
                            < x {
                            noted(v0.regions_map[yy][xx], all_regions@, reg_img@, xx, yy, num as int, min, max)
                        } else {
                            v0.regions_map[yy][xx]
                        },
                decreases w - x,
            {
                let mut y: usize = 0;
                while y < h
                    invariant
                        x < w,
                        y <= h,
                        w == reg_img@.width,
                        h == reg_img@.height,
                        reg_img@.wf(),
                        regs_count == all_regions@.len(),
                        regs_count <= MAX_PIXELS,
                        0 <= num <= 255,
                        consistent(all_regions@, reg_img@),
                        self.path == old(self).path,
                        self.min_region_dims == min,
                        self.max_region_dims == max,
                        Self::covers(v0, w as nat, h as nat),
                        self.trace_result@.regions == recorded(
                            v0.regions,
                            all_regions@,
                            regs_count as int,
                            num as int,
                            min,
                            max,
                        ),
                        self.trace_result.regions_map@.len() == h,
                        forall|yy: int|
                            0 <= yy < h ==> (#[trigger] self.trace_result.regions_map@[yy])@.len() == w,
                        forall|yy: int, xx: int|
                            0 <= yy < h && 0 <= xx < w ==> (#[trigger] self.trace_result.regions_map@[yy]@[xx])@
                                == if xx < x || (xx == x && yy < y) {
                                noted(v0.regions_map[yy][xx], all_regions@, reg_img@, xx, yy, num as int, min, max)
                            } else {
                                v0.regions_map[yy][xx]
                            },
                    decreases h - y,
                {
                    proof {
                        reg_img@.lemma_offset(x as int, y as int);
                    }
                    if let Some(reg_idx) = reg_img[(x, y)] {
                        proof {
                            let c = reg_img@.offset(x as int, y as int);
                            assert(reg_img@.cells[c] == Some(reg_idx));
                        }
                        let r = &all_regions[reg_idx];
                        if self.is_selected(r, num) {
                            let idx: i32 = r.threshold() * MAX_THRES_REGS + (reg_idx as i32);
                            let ghost before = self.trace_result.regions_map@;
                            let ghost regions_before = self.trace_result.regions@;
                            self.trace_result.regions_map[y][x].push(idx);
                            proof {
                                let after = self.trace_result.regions_map@;
                                assert(self.trace_result.regions@ == regions_before);
                                assert(after.len() == h);
                                assert forall|yy: int| 0 <= yy < h implies (#[trigger] after[yy])@.len() == w by {
                                    if yy != y {
                                        assert(after[yy] == before[yy]);
                                    }
                                }
                                assert forall|yy: int, xx: int| 0 <= yy < h && 0 <= xx < w implies (
                                #[trigger] after[yy]@[xx])@ == if xx < x || (xx == x && yy < y + 1) {
                                    noted(
                                        v0.regions_map[yy][xx],
                                        all_regions@,
                                        reg_img@,
                                        xx,
                                        yy,
                                        num as int,
                                        min,
                                        max,
                                    )
                                } else {
                                    v0.regions_map[yy][xx]
                                } by {
                                    if yy == y && xx == x {
                                        assert(after[yy]@[xx]@ == before[yy]@[xx]@.push(idx));
                                    } else if yy == y {
                                        assert(after[yy]@[xx] == before[yy]@[xx]);
                                    } else {
                                        assert(after[yy] == before[yy]);
                                    }
                                }
                            }
                        }
                    }
                    y += 1;
                }
                x += 1;
            }
            proof {
                let v1 = self.trace_result@;
                assert forall|yy: int, xx: int| 0 <= yy < h && 0 <= xx < w implies (#[trigger] v1.regions_map[yy][xx])
                    == noted(v0.regions_map[yy][xx], all_regions@, reg_img@, xx, yy, num as int, min, max) by {
                    assert(v1.regions_map[yy][xx] == self.trace_result.regions_map@[yy]@[xx]@);
                }
            }
        }
    }

    /// Nothing is recorded at the end.
    fn result(&mut self, all_regions: &[TracedRegion<R>], reg_img: &Image<Option<usize>>)
        ensures
            final(self).spec_path() == old(self).spec_path(),
            final(self).spec_min() == old(self).spec_min(),
            final(self).spec_max() == old(self).spec_max(),
            final(self).spec_result() == old(self).spec_result(),
    {
    }
}

} // verus!
