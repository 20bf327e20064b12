use std::marker::PhantomData;
use vstd::prelude::*;

use super::labels::{
    ascending, label_at, lemma_neighbour_labels, lemma_sorted_insert, lemma_sorted_insert_at, neighbour_labels,
    sorted_insert, with_label,
};
use super::ledger::{
    blanks, consistent, lemma_absorbed, lemma_blanks_after_mark, lemma_blanks_of_blank, lemma_blanks_positive,
    lemma_found, lemma_grown, lemma_live_sizes_fit, lemma_owners_after_mark, lists_cell, live_sizes, live_total,
    owns_any, point_of, size_of,
};
use super::model::{
    absorbed, blank_grid, has_point, holds, is_hist, is_hist_upto, is_size_order, is_step, is_swept,
    lemma_neighbour_region, lemma_no_blanks, lemma_step_marks, lemma_sweep_complete, lemma_sweep_step, marks,
    outranks, owner_after, reaches, scans_before, swept_upto, touches,
};
use crate::extract::cser::incremental::{owned_by, MAX_PIXELS};
use crate::extract::cser::trace::Trace;
use crate::extract::region_detector::{ExtremalRegion, RegionDetector};
use crate::image::Image;
use crate::structures::Point;

verus! {

/// Sorts the pixels of `image` into one basket per intensity.
pub fn hist(image: &Image<u8>) -> (baskets: Vec<Vec<Point>>)
    requires
        image@.addressable(),
    ensures
        is_hist(image@, baskets@),
{
    let mut baskets: Vec<Vec<Point>> = Vec::new();
    let mut n: usize = 0;
    while n < 256
        invariant
            n <= 256,
            baskets@.len() == n,
            forall|t: int| 0 <= t < n ==> (#[trigger] baskets@[t])@.len() == 0,
        decreases 256 - n,
    {
        baskets.push(Vec::new());
        n += 1;
    }
    let w: usize = image.width();
    let h: usize = image.height();
    let mut x: usize = 0;
    while x < w
        invariant
            x <= w,
            w == image@.width,
            h == image@.height,
            image@.addressable(),
            is_hist_upto(image@, baskets@, x as int, 0),
        decreases w - x,
    {
        let mut y: usize = 0;
        while y < h
            invariant
                x < w,
                y <= h,
                w == image@.width,
                h == image@.height,
                image@.addressable(),
                is_hist_upto(image@, baskets@, x as int, y as int),
            decreases h - y,
        {
            let intensity: u8 = image.pixel(x as i32, y as i32);
            let p = Point { x: x as i32, y: y as i32 };
            let ghost before = baskets@;
            baskets[intensity as usize].push(p);
            proof {
                let after = baskets@;
                let t0 = intensity as int;
                assert(after[t0]@ == before[t0]@.push(p));
                assert forall|t: int, j: int| 0 <= t < 256 && 0 <= j < after[t]@.len() implies {
                    let q = #[trigger] after[t]@[j];
                    &&& image@.inside(q.x as int, q.y as int)
                    &&& image@.at(q.x as int, q.y as int) == t
                    &&& (q.x < x || (q.x == x && q.y < y + 1))
                } by {
                    if t == t0 && j == before[t0]@.len() {
                    } else {
                        assert(after[t]@[j] == before[t]@[j]);
                    }
                }
                assert forall|t: int, i: int, j: int| 0 <= t < 256 && 0 <= i < j < after[t]@.len() implies scans_before(
                    #[trigger] after[t]@[i],
                    #[trigger] after[t]@[j],
                ) by {
                    assert(after[t]@[i] == before[t]@[i]);
                    if t == t0 && j == before[t0]@.len() {
                    } else {
                        assert(after[t]@[j] == before[t]@[j]);
                    }
                }
                assert forall|q: Point|
                    image@.inside(q.x as int, q.y as int) && (q.x < x || (q.x == x && q.y < y + 1)) implies #[trigger] holds(
                    after,
                    image@.at(q.x as int, q.y as int) as int,
                    q,
                ) by {
                    let t = image@.at(q.x as int, q.y as int) as int;
                    if q == p {
                        assert(after[t0]@[before[t0]@.len() as int] == p);
                    } else {
                        assert(holds(before, t, q));
                        let j = choose|j: int| 0 <= j < before[t]@.len() && before[t]@[j] == q;
                        assert(after[t]@[j] == q);
                    }
                }
            }
            y += 1;
        }
        x += 1;
    }
    baskets
}

/// Puts `v` in its place in the ascending `res`, unless it is there already.
fn insert_sorted(res: &mut Vec<usize>, v: usize)
    requires
        ascending(old(res)@),
    ensures
        final(res)@ == sorted_insert(old(res)@, v),
{
    let mut i: usize = 0;
    while i < res.len() && res[i] < v
        invariant
            i <= res.len(),
            res@ == old(res)@,
            forall|a: int| 0 <= a < i ==> res@[a] < v,
        decreases res.len() - i,
    {
        i += 1;
    }
    proof {
        lemma_sorted_insert_at(res@, v, i as int);
    }
    if i < res.len() && res[i] == v {
    } else {
        res.insert(i, v);
    }
}

/// Puts the owner of `(x, y)`, if the cell is inside the grid and has one,
/// in its place in `res`.
fn note_owner(reg_image: &Image<Option<usize>>, x: i32, y: i32, res: &mut Vec<usize>)
    requires
        ascending(old(res)@),
    ensures
        final(res)@ == with_label(old(res)@, label_at(reg_image@, x as int, y as int)),
        ascending(final(res)@),
{
    proof {
        if label_at(reg_image@, x as int, y as int) is Some {
            lemma_sorted_insert(res@, label_at(reg_image@, x as int, y as int).unwrap());
        }
    }
    if reg_image.inside(x, y) {
        let reg_option: Option<usize> = reg_image.pixel(x, y);
        if let Some(reg_idx) = reg_option {
            insert_sorted(res, reg_idx);
        }
    }
}

/// Collects in `res` the regions that own one of the four neighbours of `p`,
/// each once, in ascending order. What `res` held before is dropped.
pub fn find_neighbors(reg_image: &Image<Option<usize>>, p: Point, res: &mut Vec<usize>)
    requires
        i32::MIN < p.x < i32::MAX,
        i32::MIN < p.y < i32::MAX,
    ensures
        final(res)@ == neighbour_labels(reg_image@, p),
{
    res.clear();
    note_owner(reg_image, p.x - 1, p.y, res);
    note_owner(reg_image, p.x, p.y - 1, res);
    note_owner(reg_image, p.x + 1, p.y, res);
    note_owner(reg_image, p.x, p.y + 1, res);
}

/// Mutable access to the two different elements `a` and `b` of `slc` at
/// once; nothing if the two positions are the same or one lies outside.
pub fn index_twice<T>(slc: &mut [T], a: usize, b: usize) -> (r: Option<(&mut T, &mut T)>)
    ensures
        r is Some <==> a != b && a < old(slc)@.len() && b < old(slc)@.len(),
        r matches Some(pair) ==> {
            &&& *pair.0 == old(slc)@[a as int]
            &&& *pair.1 == old(slc)@[b as int]
            &&& final(slc)@ == old(slc)@.update(a as int, *final(pair.0)).update(b as int, *final(pair.1))
        },
        r is None ==> final(slc)@ == old(slc)@,
{
    let n: usize = slc.len();
    if a == b || a >= n || b >= n {
        return None;
    }
    if a < b {
        let (left, right) = slc.split_at_mut(b);
        let (_, l2) = left.split_at_mut(a);
        let ra = l2.first_mut().unwrap();
        let rb = right.first_mut().unwrap();
        Some((ra, rb))
    } else {
        let (left, right) = slc.split_at_mut(a);
        let (_, l2) = left.split_at_mut(b);
        let rb = l2.first_mut().unwrap();
        let ra = right.first_mut().unwrap();
        Some((ra, rb))
    }
}

/// Whether region `a` comes before region `b` by size.
fn ranks_first<A: ExtremalRegion>(all_regions: &Vec<A>, a: usize, b: usize) -> (r: bool)
    requires
        a < all_regions@.len(),
        b < all_regions@.len(),
    ensures
        r == outranks(all_regions@, a, b),
{
    let na: usize = all_regions[a].points().len();
    let nb: usize = all_regions[b].points().len();
    na > nb || (na == nb && a > b)
}

/// Lists the regions of `buf` by size, largest first; among regions of one
/// size the one with the higher index comes first.
fn order_by_size<A: ExtremalRegion>(all_regions: &Vec<A>, buf: &Vec<usize>) -> (order: Vec<usize>)
    requires
        ascending(buf@),
        forall|k: int| 0 <= k < buf@.len() ==> (#[trigger] buf@[k]) < all_regions@.len(),
    ensures
        is_size_order(order@, buf@, all_regions@),
{
    let mut order: Vec<usize> = Vec::new();
    let mut i: usize = 0;
    while i < buf.len()
        invariant
            i <= buf.len(),
            ascending(buf@),
            forall|k: int| 0 <= k < buf@.len() ==> (#[trigger] buf@[k]) < all_regions@.len(),
            order@.len() == i,
            forall|k: int| 0 <= k < order@.len() ==> buf@.subrange(0, i as int).contains(#[trigger] order@[k]),
            forall|k: int| 0 <= k < i ==> order@.contains(#[trigger] buf@[k]),
            forall|a: int, b: int|
                0 <= a < b < order@.len() ==> outranks(all_regions@, #[trigger] order@[a], #[trigger] order@[b]),
        decreases buf.len() - i,
    {
        let v: usize = buf[i];
        let ghost prev = order@;
        assert forall|k: int| 0 <= k < prev.len() implies (#[trigger] prev[k]) < all_regions@.len() && prev[k]
            != v by {
            let m = choose|m: int| 0 <= m < i && buf@.subrange(0, i as int)[m] == prev[k];
            assert(buf@[m] == prev[k]);
            assert(buf@[m] < buf@[i as int]);
        }
        let mut j: usize = 0;
        while j < order.len() && ranks_first(all_regions, order[j], v)
            invariant
                j <= order@.len(),
                order@ == prev,
                v < all_regions@.len(),
                forall|k: int| 0 <= k < prev.len() ==> (#[trigger] prev[k]) < all_regions@.len(),
                forall|a: int| 0 <= a < j ==> outranks(all_regions@, #[trigger] order@[a], v),
            decreases order@.len() - j,
        {
            j += 1;
        }
        order.insert(j, v);
        proof {
            let next = order@;
            assert forall|k: int| 0 <= k < next.len() implies buf@.subrange(0, i + 1).contains(#[trigger] next[k]) by {
                if k == j {
                    assert(buf@.subrange(0, i + 1)[i as int] == v);
                } else {
                    let k0 = if k < j { k } else { k - 1 };
                    assert(next[k] == prev[k0]);
                    let m = choose|m: int| 0 <= m < i && buf@.subrange(0, i as int)[m] == prev[k0];
                    assert(buf@.subrange(0, i + 1)[m] == prev[k0]);
                }
            }
            assert forall|k: int| 0 <= k < i + 1 implies next.contains(#[trigger] buf@[k]) by {
                if k == i {
                    assert(next[j as int] == v);
                } else {
                    let m = choose|m: int| 0 <= m < prev.len() && prev[m] == buf@[k];
                    if m < j {
                        assert(next[m] == buf@[k]);
                    } else {
                        assert(next[m + 1] == buf@[k]);
                    }
                }
            }
            assert forall|a: int, b: int| 0 <= a < b < next.len() implies outranks(
                all_regions@,
                #[trigger] next[a],
                #[trigger] next[b],
            ) by {
                if b == j {
                    assert(next[a] == prev[a]);
                } else if a == j {
                    assert(next[b] == prev[b - 1]);
                    assert(prev[j as int] != v);
                    if b - 1 > j {
                        assert(outranks(all_regions@, prev[j as int], prev[b - 1]));
                    }
                } else {
                    let a0 = if a < j { a } else { a - 1 };
                    let b0 = if b < j { b } else { b - 1 };
                    assert(next[a] == prev[a0]);
                    assert(next[b] == prev[b0]);
                }
            }
        }
        i += 1;
    }
    proof {
        assert(buf@.subrange(0, i as int) =~= buf@);
    }
    order
}

/// Hands the cells of region `from`, all of which it lists, to region `to`.
fn relabel<A: ExtremalRegion>(
    reg_image: &mut Image<Option<usize>>,
    all_regions: &Vec<A>,
    from: usize,
    to: usize,
)
    requires
        old(reg_image)@.wf(),
        from < all_regions@.len(),
        forall|j: int|
            0 <= j < size_of(all_regions@, from as int) ==> owned_by(
                old(reg_image)@,
                (#[trigger] point_of(all_regions@, from as int, j)).x as int,
                point_of(all_regions@, from as int, j).y as int,
                from,
            ),
        forall|k: int|
            0 <= k < old(reg_image)@.cells.len() && old(reg_image)@.cells[k] == Some(from) ==> #[trigger] lists_cell(
                all_regions@,
                old(reg_image)@,
                from as int,
                k,
            ),
    ensures
        final(reg_image)@.width == old(reg_image)@.width,
        final(reg_image)@.height == old(reg_image)@.height,
        final(reg_image)@.cells.len() == old(reg_image)@.cells.len(),
        forall|k: int|
            0 <= k < old(reg_image)@.cells.len() ==> #[trigger] final(reg_image)@.cells[k] == if old(
                reg_image,
            )@.cells[k] == Some(from) {
                Some(to)
            } else {
                old(reg_image)@.cells[k]
            },
{
    let ghost own0 = reg_image@;
    let ghost pts = A::points_of(all_regions@[from as int].model());
    let n: usize = all_regions[from].points().len();
    let mut k: usize = 0;
    proof {
        assert forall|j: int| 0 <= j < pts.len() implies owned_by(
            own0,
            (#[trigger] pts[j]).x as int,
            pts[j].y as int,
            from,
        ) by {
            assert(point_of(all_regions@, from as int, j) == pts[j]);
        }
    }
    while k < n
        invariant
            k <= n,
            n == pts.len(),
            from < all_regions@.len(),
            pts == A::points_of(all_regions@[from as int].model()),
            own0.wf(),
            reg_image@.width == own0.width,
            reg_image@.height == own0.height,
            reg_image@.cells.len() == own0.cells.len(),
            forall|j: int|
                0 <= j < pts.len() ==> owned_by(own0, (#[trigger] pts[j]).x as int, pts[j].y as int, from),
            forall|c: int|
                0 <= c < own0.cells.len() ==> #[trigger] reg_image@.cells[c] == if own0.cells[c] == Some(from)
                    && marks(own0, pts, k as int, c) {
                    Some(to)
                } else {
                    own0.cells[c]
                },
        decreases n - k,
    {
        let q: Point = all_regions[from].points()[k];
        let ghost cur = reg_image@;
        proof {
            assert(q == pts[k as int]);
            assert(owned_by(own0, q.x as int, q.y as int, from));
            own0.lemma_offset(q.x as int, q.y as int);
        }
        reg_image.set_pixel(q.x, q.y, Some(to));
        proof {
            let off = own0.offset(q.x as int, q.y as int);
            assert(reg_image@.cells == cur.cells.update(off, Some(to)));
            assert forall|c: int| 0 <= c < own0.cells.len() implies #[trigger] reg_image@.cells[c] == if own0.cells[c]
                == Some(from) && marks(own0, pts, k + 1, c) {
                Some(to)
            } else {
                own0.cells[c]
            } by {
                if c == off {
                    assert(own0.offset(pts[k as int].x as int, pts[k as int].y as int) == c);
                    assert(marks(own0, pts, k + 1, c));
                } else {
                    assert(reg_image@.cells[c] == cur.cells[c]);
                    if marks(own0, pts, k as int, c) {
                        let j = choose|j: int|
                            0 <= j < k && own0.offset((#[trigger] pts[j]).x as int, pts[j].y as int) == c;
                        assert(0 <= j < k + 1 && own0.offset(pts[j].x as int, pts[j].y as int) == c);
                    }
                    if marks(own0, pts, k + 1, c) {
                        let j = choose|j: int|
                            0 <= j < k + 1 && own0.offset((#[trigger] pts[j]).x as int, pts[j].y as int) == c;
                        assert(j != k);
                        assert(0 <= j < k && own0.offset(pts[j].x as int, pts[j].y as int) == c);
                    }
                }
            }
        }
        k += 1;
    }
    proof {
        assert forall|c: int| 0 <= c < own0.cells.len() implies #[trigger] reg_image@.cells[c] == if own0.cells[c]
            == Some(from) {
            Some(to)
        } else {
            own0.cells[c]
        } by {
            if own0.cells[c] == Some(from) {
                assert(lists_cell(all_regions@, own0, from as int, c));
                let j = choose|j: int|
                    0 <= j < size_of(all_regions@, from as int) && own0.inside(
                        (#[trigger] point_of(all_regions@, from as int, j)).x as int,
                        point_of(all_regions@, from as int, j).y as int,
                    ) && own0.offset(
                        point_of(all_regions@, from as int, j).x as int,
                        point_of(all_regions@, from as int, j).y as int,
                    ) == c;
                assert(pts[j] == point_of(all_regions@, from as int, j));
                assert(marks(own0, pts, n as int, c));
            }
        }
    }
}

/// Starts a region from the unowned pixel `p` and marks the pixel as its
/// own.
fn found<A: ExtremalRegion>(
    p: Point,
    thres: i32,
    reg_image: &mut Image<Option<usize>>,
    all_regions: &mut Vec<A>,
)
    requires
        consistent(old(all_regions)@, old(reg_image)@),
        old(reg_image)@.inside(p.x as int, p.y as int),
        old(reg_image)@.at(p.x as int, p.y as int) is None,
    ensures
        consistent(final(all_regions)@, final(reg_image)@),
        live_total(final(all_regions)@, final(reg_image)@) == live_total(old(all_regions)@, old(reg_image)@) + 1,
        final(all_regions)@.len() == old(all_regions)@.len() + 1,
        forall|i: int| 0 <= i < old(all_regions)@.len() ==> final(all_regions)@[i] == old(all_regions)@[i],
        final(all_regions)@[old(all_regions)@.len() as int].model() == A::init_model(
            p,
            old(all_regions)@.len() as usize,
            thres,
        ),
        final(reg_image)@ == old(reg_image)@.set(p.x as int, p.y as int, Some(old(all_regions)@.len() as usize)),
{
    let idx: usize = all_regions.len();
    let a = A::init(p, idx, thres);
    all_regions.push(a);
    reg_image.set_pixel(p.x, p.y, Some(idx));
    proof {
        assert(all_regions.len() <= usize::MAX);
        lemma_found(old(all_regions)@, old(reg_image)@, p, a, reg_image@);
    }
}

/// Lets region `r`, which owns a neighbour of the unowned pixel `p`, take
/// up `p`, and marks the pixel as its own.
fn grow<A: ExtremalRegion>(
    r: usize,
    p: Point,
    thres: i32,
    img: &Image<u8>,
    reg_image: &mut Image<Option<usize>>,
    all_regions: &mut Vec<A>,
)
    requires
        consistent(old(all_regions)@, old(reg_image)@),
        img@.width == old(reg_image)@.width,
        img@.height == old(reg_image)@.height,
        old(reg_image)@.inside(p.x as int, p.y as int),
        old(reg_image)@.at(p.x as int, p.y as int) is None,
        r < old(all_regions)@.len(),
        owns_any(old(reg_image)@, r),
        touches(old(all_regions)@, r, p),
        live_total(old(all_regions)@, old(reg_image)@) < MAX_PIXELS,
    ensures
        consistent(final(all_regions)@, final(reg_image)@),
        live_total(final(all_regions)@, final(reg_image)@) == live_total(old(all_regions)@, old(reg_image)@) + 1,
        final(all_regions)@.len() == old(all_regions)@.len(),
        forall|i: int|
            0 <= i < old(all_regions)@.len() && i != r ==> final(all_regions)@[i] == old(all_regions)@[i],
        final(all_regions)@[r as int].model() == A::increment_model(
            old(all_regions)@[r as int].model(),
            p,
            thres,
            img@,
            old(reg_image)@,
        ),
        has_point(final(all_regions)@, r, p),
        final(reg_image)@ == old(reg_image)@.set(p.x as int, p.y as int, Some(r)),
        forall|i: usize| owns_any(old(reg_image)@, i) ==> owns_any(final(reg_image)@, i),
{
    proof {
        lemma_live_sizes_fit(all_regions@, reg_image@, r, r);
        let j = choose|j: int|
            0 <= j < size_of(all_regions@, r as int) && (#[trigger] point_of(all_regions@, r as int, j)).adjacent(p);
        assert(A::points_of(all_regions@[r as int].model())[j] == point_of(all_regions@, r as int, j));
        assert(all_regions@[r as int].wf());
    }
    all_regions[r].increment(p, thres, img, &*reg_image);
    reg_image.set_pixel(p.x, p.y, Some(r));
    proof {
        let regs0 = old(all_regions)@;
        let own0 = old(reg_image)@;
        let a = all_regions@[r as int];
        assert(all_regions@ =~= regs0.update(r as int, a));
        lemma_grown(regs0, own0, p, r, a, reg_image@);
        own0.lemma_offset(p.x as int, p.y as int);
        lemma_owners_after_mark(own0, reg_image@, own0.offset(p.x as int, p.y as int), r);
        assert(point_of(all_regions@, r as int, size_of(regs0, r as int) as int) == p);
    }
}

/// Lets region `r1` absorb region `r2`, which touches it, and hands the
/// cells of `r2` to `r1`.
fn absorb<A: ExtremalRegion>(
    r1: usize,
    r2: usize,
    thres: i32,
    img: &Image<u8>,
    reg_image: &mut Image<Option<usize>>,
    all_regions: &mut Vec<A>,
)
    requires
        consistent(old(all_regions)@, old(reg_image)@),
        r1 < old(all_regions)@.len(),
        r2 < old(all_regions)@.len(),
        r1 != r2,
        owns_any(old(reg_image)@, r1),
        owns_any(old(reg_image)@, r2),
        exists|i: int, j: int|
            0 <= i < size_of(old(all_regions)@, r1 as int) && 0 <= j < size_of(old(all_regions)@, r2 as int) && (
            #[trigger] point_of(old(all_regions)@, r1 as int, i)).adjacent(
                #[trigger] point_of(old(all_regions)@, r2 as int, j),
            ),
        live_total(old(all_regions)@, old(reg_image)@) <= MAX_PIXELS,
    ensures
        consistent(final(all_regions)@, final(reg_image)@),
        live_total(final(all_regions)@, final(reg_image)@) == live_total(old(all_regions)@, old(reg_image)@),
        final(all_regions)@.len() == old(all_regions)@.len(),
        forall|i: int|
            0 <= i < old(all_regions)@.len() && i != r1 ==> final(all_regions)@[i] == old(all_regions)@[i],
        final(all_regions)@[r1 as int].model() == A::merge_model(
            old(all_regions)@[r1 as int].model(),
            old(all_regions)@[r2 as int].model(),
            thres,
        ),
        A::points_of(final(all_regions)@[r1 as int].model()) == A::points_of(old(all_regions)@[r1 as int].model())
            + A::points_of(old(all_regions)@[r2 as int].model()),
        final(reg_image)@.width == old(reg_image)@.width,
        final(reg_image)@.height == old(reg_image)@.height,
        final(reg_image)@.cells.len() == old(reg_image)@.cells.len(),
        forall|k: int|
            0 <= k < old(reg_image)@.cells.len() ==> #[trigger] final(reg_image)@.cells[k] == if old(
                reg_image,
            )@.cells[k] == Some(r2) {
                Some(r1)
            } else {
                old(reg_image)@.cells[k]
            },
        forall|i: usize| i != r2 ==> owns_any(final(reg_image)@, i) == owns_any(old(reg_image)@, i),
{
    let ghost regs0 = all_regions@;
    let ghost own0 = reg_image@;
    proof {
        lemma_live_sizes_fit(regs0, own0, r1, r2);
        let (i, j) = choose|i: int, j: int|
            0 <= i < size_of(regs0, r1 as int) && 0 <= j < size_of(regs0, r2 as int) && (#[trigger] point_of(
                regs0,
                r1 as int,
                i,
            )).adjacent(#[trigger] point_of(regs0, r2 as int, j));
        assert(A::points_of(regs0[r1 as int].model())[i] == point_of(regs0, r1 as int, i));
        assert(A::points_of(regs0[r2 as int].model())[j] == point_of(regs0, r2 as int, j));
        assert(regs0[r1 as int].wf());
        assert(regs0[r2 as int].wf());
    }
    let slc = all_regions.as_mut_slice();
    match index_twice(slc, r1, r2) {
        Some((a, b)) => {
            a.merge(&*b, thres, img, &*reg_image);
        },
        None => {
            assert(false);
        },
    }
    proof {
        assert(all_regions@ =~= regs0.update(r1 as int, all_regions@[r1 as int]));
        assert forall|j: int| 0 <= j < size_of(all_regions@, r2 as int) implies owned_by(
            own0,
            (#[trigger] point_of(all_regions@, r2 as int, j)).x as int,
            point_of(all_regions@, r2 as int, j).y as int,
            r2,
        ) by {
            assert(point_of(all_regions@, r2 as int, j) == point_of(regs0, r2 as int, j));
        }
        assert forall|k: int| 0 <= k < own0.cells.len() && own0.cells[k] == Some(r2) implies #[trigger] lists_cell(
            all_regions@,
            own0,
            r2 as int,
            k,
        ) by {
            assert(lists_cell(regs0, own0, r2 as int, k));
            let j = choose|j: int|
                0 <= j < size_of(regs0, r2 as int) && own0.inside(
                    (#[trigger] point_of(regs0, r2 as int, j)).x as int,
                    point_of(regs0, r2 as int, j).y as int,
                ) && own0.offset(point_of(regs0, r2 as int, j).x as int, point_of(regs0, r2 as int, j).y as int)
                    == k;
            assert(point_of(all_regions@, r2 as int, j) == point_of(regs0, r2 as int, j));
        }
    }
    relabel(reg_image, &*all_regions, r2, r1);
    proof {
        lemma_absorbed(regs0, own0, r1, r2, all_regions@[r1 as int], reg_image@);
    }
}

/// Takes the unowned pixel `p` of `img`, met at threshold `thres`, into the
/// regions: it starts a region of its own, joins the one region that owns
/// a neighbour, or joins the largest of several such regions, which then
/// absorbs the others. `neighbors_buf` is working space; it comes back
/// holding the regions that owned a neighbour, largest first.
pub fn process_point<A: ExtremalRegion>(
    p: Point,
    thres: i32,
    img: &Image<u8>,
    reg_image: &mut Image<Option<usize>>,
    all_regions: &mut Vec<A>,
    neighbors_buf: &mut Vec<usize>,
)
    requires
        consistent(old(all_regions)@, old(reg_image)@),
        img@.width == old(reg_image)@.width,
        img@.height == old(reg_image)@.height,
        old(reg_image)@.inside(p.x as int, p.y as int),
        old(reg_image)@.at(p.x as int, p.y as int) is None,
        live_total(old(all_regions)@, old(reg_image)@) < MAX_PIXELS,
    ensures
        consistent(final(all_regions)@, final(reg_image)@),
        live_total(final(all_regions)@, final(reg_image)@) == live_total(old(all_regions)@, old(reg_image)@) + 1,
        is_step(
            old(all_regions)@,
            old(reg_image)@,
            p,
            thres,
            img@,
            final(all_regions)@,
            final(reg_image)@,
            final(neighbors_buf)@,
        ),
{
    let ghost regs0 = all_regions@;
    let ghost own0 = reg_image@;
    let ghost k0 = own0.offset(p.x as int, p.y as int);
    find_neighbors(&*reg_image, p, neighbors_buf);
    let ghost ns = neighbors_buf@;
    proof {
        lemma_neighbour_labels(own0, p);
        own0.lemma_offset(p.x as int, p.y as int);
        assert forall|k: int| 0 <= k < ns.len() implies (#[trigger] ns[k]) < regs0.len() by {
            assert(ns.contains(ns[k]));
            lemma_neighbour_region(regs0, own0, p, ns[k]);
        }
    }
    if neighbors_buf.len() == 0 {
        found(p, thres, reg_image, all_regions);
    } else {
        let order: Vec<usize> = order_by_size(&*all_regions, &*neighbors_buf);
        let r1: usize = order[0];
        let ghost m1 = A::increment_model(regs0[r1 as int].model(), p, thres, img@, own0);
        proof {
            assert(ns.contains(order@[0]));
            lemma_neighbour_region(regs0, own0, p, r1);
        }
        grow(r1, p, thres, img, reg_image, all_regions);
        proof {
            assert forall|kk: int| 1 <= kk < order@.len() implies {
                let x = #[trigger] order@[kk];
                &&& x < regs0.len()
                &&& x != r1
                &&& owns_any(reg_image@, x)
                &&& touches(all_regions@, x, p)
            } by {
                let x = order@[kk];
                assert(ns.contains(x));
                lemma_neighbour_region(regs0, own0, p, x);
                assert(outranks(regs0, order@[0], order@[kk]));
                let j = choose|j: int|
                    0 <= j < size_of(regs0, x as int) && (#[trigger] point_of(regs0, x as int, j)).adjacent(p);
                assert(point_of(all_regions@, x as int, j) == point_of(regs0, x as int, j));
            }
            assert(order@.subrange(1, 1) =~= Seq::<usize>::empty());
            assert forall|c: int| 0 <= c < own0.cells.len() implies #[trigger] reg_image@.cells[c] == owner_after(
                own0,
                order@.subrange(1, 1),
                r1,
                k0,
                c,
            ) by {}
        }
        let mut k: usize = 1;
        while k < order.len()
            invariant
                1 <= k <= order@.len(),
                is_size_order(order@, ns, regs0),
                r1 == order@[0],
                r1 < regs0.len(),
                k0 == own0.offset(p.x as int, p.y as int),
                0 <= k0 < own0.cells.len(),
                consistent(all_regions@, reg_image@),
                live_total(all_regions@, reg_image@) == live_total(regs0, own0) + 1,
                live_total(regs0, own0) < MAX_PIXELS,
                all_regions@.len() == regs0.len(),
                forall|i: int| 0 <= i < regs0.len() && i != r1 ==> #[trigger] all_regions@[i] == regs0[i],
                all_regions@[r1 as int].model() == absorbed(m1, regs0, order@, k as int, thres),
                reg_image@.width == own0.width,
                reg_image@.height == own0.height,
                reg_image@.cells.len() == own0.cells.len(),
                forall|c: int|
                    0 <= c < own0.cells.len() ==> #[trigger] reg_image@.cells[c] == owner_after(
                        own0,
                        order@.subrange(1, k as int),
                        r1,
                        k0,
                        c,
                    ),
                forall|kk: int|
                    k <= kk < order@.len() ==> {
                        let x = #[trigger] order@[kk];
                        &&& x < regs0.len()
                        &&& x != r1
                        &&& owns_any(reg_image@, x)
                        &&& touches(all_regions@, x, p)
                    },
                owns_any(reg_image@, r1),
                has_point(all_regions@, r1, p),
            decreases order@.len() - k,
        {
            let r2: usize = order[k];
            let ghost regs_b = all_regions@;
            let ghost own_b = reg_image@;
            proof {
                let jp = choose|j: int|
                    0 <= j < size_of(regs_b, r1 as int) && #[trigger] point_of(regs_b, r1 as int, j) == p;
                let jq = choose|j: int|
                    0 <= j < size_of(regs_b, r2 as int) && (#[trigger] point_of(regs_b, r2 as int, j)).adjacent(p);
                assert(point_of(regs_b, r1 as int, jp).adjacent(point_of(regs_b, r2 as int, jq)));
            }
            absorb(r1, r2, thres, img, reg_image, all_regions);
            proof {
                let sub_b = order@.subrange(1, k as int);
                let sub_a = order@.subrange(1, k + 1);
                assert(regs_b[r2 as int] == regs0[r2 as int]);
                assert forall|c: int| 0 <= c < own0.cells.len() implies #[trigger] reg_image@.cells[c]
                    == owner_after(own0, sub_a, r1, k0, c) by {
                    assert(own_b.cells[c] == owner_after(own0, sub_b, r1, k0, c));
                    assert(sub_a[k - 1] == r2);
                    if c != k0 && own0.cells[c] is Some {
                        let l = own0.cells[c].unwrap();
                        if sub_b.contains(l) {
                            let m = choose|m: int| 0 <= m < sub_b.len() && sub_b[m] == l;
                            assert(sub_a[m] == l);
                        } else if l == r2 {
                        } else {
                            if sub_a.contains(l) {
                                let m = choose|m: int| 0 <= m < sub_a.len() && sub_a[m] == l;
                                if m < k - 1 {
                                    assert(sub_b[m] == l);
                                }
                            }
                        }
                    }
                }
                assert forall|kk: int| k + 1 <= kk < order@.len() implies {
                    let x = #[trigger] order@[kk];
                    &&& x < regs0.len()
                    &&& x != r1
                    &&& owns_any(reg_image@, x)
                    &&& touches(all_regions@, x, p)
                } by {
                    let x = order@[kk];
                    assert(outranks(regs0, order@[k as int], order@[kk]));
                    assert(x != r2);
                    assert(owns_any(own_b, x));
                    assert(touches(regs_b, x, p));
                    let j = choose|j: int|
                        0 <= j < size_of(regs_b, x as int) && (#[trigger] point_of(regs_b, x as int, j)).adjacent(p);
                    assert(point_of(all_regions@, x as int, j) == point_of(regs_b, x as int, j));
                }
                let jp = choose|j: int|
                    0 <= j < size_of(regs_b, r1 as int) && #[trigger] point_of(regs_b, r1 as int, j) == p;
                assert(point_of(all_regions@, r1 as int, jp) == p);
            }
            k += 1;
        }
        proof {
            assert(order@.subrange(1, order@.len() as int).len() == order@.len() - 1);
            assert forall|c: int| 0 <= c < own0.cells.len() implies #[trigger] reg_image@.cells[c] == owner_after(
                own0,
                ns,
                r1,
                k0,
                c,
            ) by {
                let sub = order@.subrange(1, order@.len() as int);
                if c != k0 && own0.cells[c] is Some {
                    let l = own0.cells[c].unwrap();
                    if sub.contains(l) {
                        let m = choose|m: int| 0 <= m < sub.len() && sub[m] == l;
                        assert(order@[m + 1] == l);
                        assert(ns.contains(l));
                    } else if ns.contains(l) {
                        let m0 = choose|m: int| 0 <= m < ns.len() && ns[m] == l;
                        assert(order@.contains(ns[m0]));
                        let m = choose|m: int| 0 <= m < order@.len() && order@[m] == l;
                        if m > 0 {
                            assert(sub[m - 1] == l);
                        }
                    }
                }
            }
        }
        *neighbors_buf = order;
    }
}

/// Grows the extremal regions of `image`: takes in the pixels threshold by
/// threshold, darkest first, and within a threshold in the order of
/// [`hist`], and shows the state to `trace` after each threshold and at the
/// end. Returns all regions, absorbed ones included, and the ownership
/// grid.
pub fn sweep<A: ExtremalRegion, B: Trace<A>>(image: &Image<u8>, trace: &mut B) -> (r: (
    Vec<A>,
    Image<Option<usize>>,
))
    requires
        image@.addressable(),
        image@.cells.len() <= MAX_PIXELS,
        old(trace).fits(image@.width, image@.height),
    ensures
        is_swept(image@, r.0@, r.1@),
        final(trace).fits(image@.width, image@.height),
{
    proof {
        use_type_invariant(image);
        image.lemma_view_wf();
    }
    let baskets = hist(image);
    let mut all_regions: Vec<A> = Vec::new();
    let blank = |v: &u8| -> (o: Option<usize>)
        ensures
            o is None,
        { None };
    let mut reg_image: Image<Option<usize>> = image.map(blank);
    let mut neighbors_buf: Vec<usize> = Vec::new();
    proof {
        use_type_invariant(&reg_image);
        reg_image.lemma_view_wf();
        lemma_blanks_of_blank(reg_image@.cells);
        assert(live_sizes(all_regions@, reg_image@) =~= Seq::<int>::empty());
        assert(reg_image@.cells =~= blank_grid(image@).cells);
        assert(all_regions@ =~= Seq::<A>::empty());
        assert(reaches(image@, baskets@, 0, 0, all_regions@, reg_image@));
        assert forall|tt: int, jj: int| 0 <= tt < 256 && 0 <= jj < baskets@[tt]@.len() implies (reg_image@.at(
            (#[trigger] baskets@[tt]@[jj]).x as int,
            baskets@[tt]@[jj].y as int,
        ) is Some) == false by {
            let q = baskets@[tt]@[jj];
            reg_image@.lemma_offset(q.x as int, q.y as int);
        }
    }
    let mut i: usize = 0;
    while i < 256
        invariant
            i <= 256,
            is_hist(image@, baskets@),
            image@.wf(),
            image@.cells.len() <= MAX_PIXELS,
            reg_image@.width == image@.width,
            reg_image@.height == image@.height,
            reg_image@.cells.len() == image@.cells.len(),
            consistent(all_regions@, reg_image@),
            swept_upto(baskets@, reg_image@, i as int, 0),
            reaches(image@, baskets@, i as int, 0, all_regions@, reg_image@),
            live_total(all_regions@, reg_image@) + blanks(reg_image@.cells) == image@.cells.len(),
            all_regions@.len() + blanks(reg_image@.cells) <= image@.cells.len(),
            trace.fits(image@.width, image@.height),
        decreases 256 - i,
    {
        let n: usize = baskets[i].len();
        let mut j: usize = 0;
        while j < n
            invariant
                i < 256,
                j <= n,
                n == baskets@[i as int]@.len(),
                is_hist(image@, baskets@),
                image@.wf(),
                image@.cells.len() <= MAX_PIXELS,
                reg_image@.width == image@.width,
                reg_image@.height == image@.height,
                reg_image@.cells.len() == image@.cells.len(),
                consistent(all_regions@, reg_image@),
                swept_upto(baskets@, reg_image@, i as int, j as int),
                reaches(image@, baskets@, i as int, j as int, all_regions@, reg_image@),
                live_total(all_regions@, reg_image@) + blanks(reg_image@.cells) == image@.cells.len(),
                all_regions@.len() + blanks(reg_image@.cells) <= image@.cells.len(),
            decreases n - j,
        {
            let p: Point = baskets[i][j];
            let ghost regs_b = all_regions@;
            let ghost own_b = reg_image@;
            proof {
                assert(p == baskets@[i as int]@[j as int]);
                own_b.lemma_offset(p.x as int, p.y as int);
                assert(own_b.at(p.x as int, p.y as int) is None);
                lemma_blanks_positive(own_b.cells, own_b.offset(p.x as int, p.y as int));
            }
            process_point(p, i as i32, image, &mut reg_image, &mut all_regions, &mut neighbors_buf);
            proof {
                lemma_step_marks(
                    regs_b,
                    own_b,
                    p,
                    i as i32,
                    image@,
                    all_regions@,
                    reg_image@,
                    neighbors_buf@,
                );
                lemma_blanks_after_mark(own_b.cells, reg_image@.cells, own_b.offset(p.x as int, p.y as int));
                lemma_sweep_step(image@, baskets@, own_b, reg_image@, i as int, j as int);
                assert(is_step(
                    regs_b,
                    own_b,
                    baskets@[i as int]@[j + 1 - 1],
                    i as int as i32,
                    image@,
                    all_regions@,
                    reg_image@,
                    neighbors_buf@,
                ));
                assert(reaches(image@, baskets@, i as int, j + 1, all_regions@, reg_image@));
            }
            j += 1;
        }
        assert(reaches(image@, baskets@, i + 1, 0, all_regions@, reg_image@));
        trace.step(i as i32, all_regions.as_slice(), &reg_image);
        i += 1;
    }
    proof {
        lemma_sweep_complete(image@, baskets@, reg_image@);
        if blanks(reg_image@.cells) > 0 {
            lemma_no_blanks(reg_image@.cells);
        }
    }
    trace.result(all_regions.as_slice(), &reg_image);
    (all_regions, reg_image)
}

/// The detector of extremal regions of type `A`, observed by a `B`.
pub struct CserDetector<A: ExtremalRegion, B: Trace<A>> {
    a: PhantomData<A>,
    b: PhantomData<B>,
}

impl<A: ExtremalRegion, B: Trace<A>> CserDetector<A, B> {
    /// The detector. It holds nothing: the two types say which regions it
    /// finds and who observes it.
    pub fn new() -> Self {
        CserDetector { a: PhantomData, b: PhantomData }
    }
}

impl<A: ExtremalRegion, B: Trace<A>> RegionDetector for CserDetector<A, B> {
    type Region = A;

    type Trace = B;

    fn detect(image: &Image<u8>, trace: &mut B) -> (regions: Vec<A>) {
        let (all_regions, reg_image) = sweep(image, trace);
        all_regions
    }
}

} // verus!
