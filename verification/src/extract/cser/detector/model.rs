use vstd::prelude::*;

use super::labels::{label_at, lemma_neighbour_labels, neighbour_label, neighbour_labels};
use super::ledger::{blanks, consistent, lists_cell, live_total, owns_any, point_of, size_of};
use crate::extract::cser::incremental::owned_by;
use crate::extract::cser::trace::complete;
use crate::extract::region_detector::ExtremalRegion;
use crate::image::GridView;
use crate::structures::Point;

verus! {

/// Whether a scan that goes down each column, and through the columns from
/// left to right, meets `p` before `q`.
pub open spec fn scans_before(p: Point, q: Point) -> bool {
    p.x < q.x || (p.x == q.x && p.y < q.y)
}

/// Whether basket `t` holds the point `p`.
pub open spec fn holds(baskets: Seq<Vec<Point>>, t: int, p: Point) -> bool {
    baskets[t]@.contains(p)
}

/// `baskets` sorts the pixels of `img` that a column scan meets before
/// column `cx`, row `cy`, by intensity: basket `t` holds exactly those of
/// intensity `t`, in scan order.
pub open spec fn is_hist_upto(img: GridView<u8>, baskets: Seq<Vec<Point>>, cx: int, cy: int) -> bool {
    &&& baskets.len() == 256
    &&& forall|t: int, j: int|
        0 <= t < 256 && 0 <= j < baskets[t]@.len() ==> {
            let p = #[trigger] baskets[t]@[j];
            &&& img.inside(p.x as int, p.y as int)
            &&& img.at(p.x as int, p.y as int) == t
            &&& (p.x < cx || (p.x == cx && p.y < cy))
        }
    &&& forall|t: int, i: int, j: int|
        0 <= t < 256 && 0 <= i < j < baskets[t]@.len() ==> scans_before(
            #[trigger] baskets[t]@[i],
            #[trigger] baskets[t]@[j],
        )
    &&& forall|p: Point|
        img.inside(p.x as int, p.y as int) && (p.x < cx || (p.x == cx && p.y < cy)) ==> #[trigger] holds(
            baskets,
            img.at(p.x as int, p.y as int) as int,
            p,
        )
}

/// `baskets` sorts all pixels of `img` by intensity: there are 256 baskets,
/// and basket `t` holds exactly the pixels of intensity `t`, each once, in
/// the order of a scan that goes down each column and through the columns
/// from left to right.
pub open spec fn is_hist(img: GridView<u8>, baskets: Seq<Vec<Point>>) -> bool {
    is_hist_upto(img, baskets, img.width as int, 0)
}

/// Whether region `a` comes before region `b` when regions are ordered by
/// size: it has more pixels, or as many and the higher index.
pub open spec fn outranks<A: ExtremalRegion>(regs: Seq<A>, a: usize, b: usize) -> bool {
    size_of(regs, a as int) > size_of(regs, b as int) || (size_of(regs, a as int) == size_of(regs, b as int) && a
        > b)
}

/// `order` lists the regions `ns` by size, largest first.
pub open spec fn is_size_order<A: ExtremalRegion>(order: Seq<usize>, ns: Seq<usize>, regs: Seq<A>) -> bool {
    &&& order.len() == ns.len()
    &&& forall|k: int| 0 <= k < order.len() ==> ns.contains(#[trigger] order[k])
    &&& forall|k: int| 0 <= k < ns.len() ==> order.contains(#[trigger] ns[k])
    &&& forall|a: int, b: int| 0 <= a < b < order.len() ==> outranks(regs, #[trigger] order[a], #[trigger] order[b])
}

/// The value of a region in state `m` after it has absorbed the regions
/// `order[1]` up to `order[upto - 1]`, one after the other.
pub open spec fn absorbed<A: ExtremalRegion>(
    m: A::Model,
    regs: Seq<A>,
    order: Seq<usize>,
    upto: int,
    thres: i32,
) -> A::Model
    decreases upto,
{
    if upto <= 1 {
        m
    } else {
        A::merge_model(absorbed(m, regs, order, upto - 1, thres), regs[order[upto - 1] as int].model(), thres)
    }
}

/// The owner of the cell at offset `k` after the pixel at offset `k0` has
/// gone to region `s` and `s` has taken over the cells of the regions `ns`.
pub open spec fn owner_after(own: GridView<Option<usize>>, ns: Seq<usize>, s: usize, k0: int, k: int) -> Option<
    usize,
> {
    if k == k0 {
        Some(s)
    } else {
        match own.cells[k] {
            Some(l) => if ns.contains(l) {
                Some(s)
            } else {
                Some(l)
            },
            None => None,
        }
    }
}

/// Whether one of the first `n` points of `pts` has its cell at offset `k`.
pub open spec fn marks(own: GridView<Option<usize>>, pts: Seq<Point>, n: int, k: int) -> bool {
    exists|j: int| 0 <= j < n && own.offset((#[trigger] pts[j]).x as int, pts[j].y as int) == k
}

/// Whether region `x` has a pixel next to `p`.
pub open spec fn touches<A: ExtremalRegion>(regs: Seq<A>, x: usize, p: Point) -> bool {
    exists|j: int| 0 <= j < size_of(regs, x as int) && (#[trigger] point_of(regs, x as int, j)).adjacent(p)
}

/// Whether region `x` lists the pixel `p`.
pub open spec fn has_point<A: ExtremalRegion>(regs: Seq<A>, x: usize, p: Point) -> bool {
    exists|j: int| 0 <= j < size_of(regs, x as int) && #[trigger] point_of(regs, x as int, j) == p
}

/// A region that owns a neighbour of `p` is one of the regions, owns a cell
/// and has a pixel next to `p`.
pub proof fn lemma_neighbour_region<A: ExtremalRegion>(
    regs: Seq<A>,
    own: GridView<Option<usize>>,
    p: Point,
    x: usize,
)
    requires
        consistent(regs, own),
        own.inside(p.x as int, p.y as int),
        neighbour_labels(own, p).contains(x),
    ensures
        x < regs.len(),
        owns_any(own, x),
        touches(regs, x, p),
{
    lemma_neighbour_labels(own, p);
    let k = choose|k: int| 0 <= k < 4 && #[trigger] neighbour_label(own, p, k) == Some(x);
    let (nx, ny): (int, int) = if k == 0 {
        (p.x - 1, p.y as int)
    } else if k == 1 {
        (p.x as int, p.y - 1)
    } else if k == 2 {
        (p.x + 1, p.y as int)
    } else {
        (p.x as int, p.y + 1)
    };
    assert(label_at(own, nx, ny) == Some(x));
    assert(own.inside(nx, ny));
    own.lemma_offset(nx, ny);
    let c = own.offset(nx, ny);
    assert(own.cells[c] == Some(x));
    assert(lists_cell(regs, own, x as int, c));
    let j = choose|j: int|
        0 <= j < size_of(regs, x as int) && own.inside(
            (#[trigger] point_of(regs, x as int, j)).x as int,
            point_of(regs, x as int, j).y as int,
        ) && own.offset(point_of(regs, x as int, j).x as int, point_of(regs, x as int, j).y as int) == c;
    let q = point_of(regs, x as int, j);
    own.lemma_offset_injective(q.x as int, q.y as int, nx, ny);
    assert(q.adjacent(p));
}

/// What one step of the sweep does: from the regions `regs` and the grid
/// `own`, the unowned pixel `p` met at threshold `thres` leads to the
/// regions `regs2` and the grid `own2`, and `order` lists the regions that
/// own a neighbour of `p` by size.
///
/// Without such a region a new region is started for `p`. Otherwise the
/// largest of them takes up `p`, absorbs the others from the largest down,
/// and owns all their cells afterwards. No other region changes.
pub open spec fn is_step<A: ExtremalRegion>(
    regs: Seq<A>,
    own: GridView<Option<usize>>,
    p: Point,
    thres: i32,
    img: GridView<u8>,
    regs2: Seq<A>,
    own2: GridView<Option<usize>>,
    order: Seq<usize>,
) -> bool {
    let ns = neighbour_labels(own, p);
    let k0 = own.offset(p.x as int, p.y as int);
    &&& is_size_order(order, ns, regs)
    &&& own2.width == own.width
    &&& own2.height == own.height
    &&& own2.cells.len() == own.cells.len()
    &&& if ns.len() == 0 {
        &&& regs2.len() == regs.len() + 1
        &&& forall|i: int| 0 <= i < regs.len() ==> #[trigger] regs2[i] == regs[i]
        &&& regs2[regs.len() as int].model() == A::init_model(p, regs.len() as usize, thres)
        &&& own2 == own.set(p.x as int, p.y as int, Some(regs.len() as usize))
    } else {
        let s = order[0];
        &&& regs2.len() == regs.len()
        &&& forall|i: int| 0 <= i < regs.len() && i != s ==> #[trigger] regs2[i] == regs[i]
        &&& regs2[s as int].model() == absorbed(
            A::increment_model(regs[s as int].model(), p, thres, img, own),
            regs,
            order,
            order.len() as int,
            thres,
        )
        &&& forall|k: int| 0 <= k < own.cells.len() ==> #[trigger] own2.cells[k] == owner_after(own, ns, s, k0, k)
    }
}

/// A step gives the pixel an owner, leaves owned cells owned and unowned
/// cells unowned, and adds at most one region.
pub proof fn lemma_step_marks<A: ExtremalRegion>(
    regs: Seq<A>,
    own: GridView<Option<usize>>,
    p: Point,
    thres: i32,
    img: GridView<u8>,
    regs2: Seq<A>,
    own2: GridView<Option<usize>>,
    order: Seq<usize>,
)
    requires
        is_step(regs, own, p, thres, img, regs2, own2, order),
        own.wf(),
        own.inside(p.x as int, p.y as int),
    ensures
        regs.len() <= regs2.len() <= regs.len() + 1,
        forall|c: int|
            0 <= c < own.cells.len() ==> (#[trigger] own2.cells[c] is Some) == (own.cells[c] is Some || c
                == own.offset(p.x as int, p.y as int)),
{
    own.lemma_offset(p.x as int, p.y as int);
}

/// The sweep has come to entry `j` of basket `t`: the pixels of the baskets
/// before `t` and of the entries before `j` of basket `t` have an owner, and
/// no other pixel has one.
pub open spec fn swept_upto(baskets: Seq<Vec<Point>>, own: GridView<Option<usize>>, t: int, j: int) -> bool {
    forall|tt: int, jj: int|
        0 <= tt < 256 && 0 <= jj < baskets[tt]@.len() ==> (own.at(
            (#[trigger] baskets[tt]@[jj]).x as int,
            baskets[tt]@[jj].y as int,
        ) is Some) == (tt < t || (tt == t && jj < j))
}

/// Giving entry `j` of basket `t` an owner moves the sweep on by one entry.
pub proof fn lemma_sweep_step(
    img: GridView<u8>,
    baskets: Seq<Vec<Point>>,
    own: GridView<Option<usize>>,
    own2: GridView<Option<usize>>,
    t: int,
    j: int,
)
    requires
        is_hist(img, baskets),
        img.width == own.width,
        img.height == own.height,
        own.wf(),
        own2.width == own.width,
        own2.height == own.height,
        own2.cells.len() == own.cells.len(),
        0 <= t < 256,
        0 <= j < baskets[t]@.len(),
        swept_upto(baskets, own, t, j),
        forall|c: int|
            0 <= c < own.cells.len() ==> (#[trigger] own2.cells[c] is Some) == (own.cells[c] is Some || c
                == own.offset(baskets[t]@[j].x as int, baskets[t]@[j].y as int)),
    ensures
        swept_upto(baskets, own2, t, j + 1),
{
    let p = baskets[t]@[j];
    assert forall|tt: int, jj: int| 0 <= tt < 256 && 0 <= jj < baskets[tt]@.len() implies (own2.at(
        (#[trigger] baskets[tt]@[jj]).x as int,
        baskets[tt]@[jj].y as int,
    ) is Some) == (tt < t || (tt == t && jj < j + 1)) by {
        let q = baskets[tt]@[jj];
        own.lemma_offset(q.x as int, q.y as int);
        own.lemma_offset(p.x as int, p.y as int);
        if tt == t && jj == j {
        } else {
            if tt == t {
                if jj < j {
                    assert(scans_before(baskets[t]@[jj], baskets[t]@[j]));
                } else {
                    assert(scans_before(baskets[t]@[j], baskets[t]@[jj]));
                }
            }
            assert(q != p);
            if own.offset(q.x as int, q.y as int) == own.offset(p.x as int, p.y as int) {
                own.lemma_offset_injective(q.x as int, q.y as int, p.x as int, p.y as int);
            }
        }
    }
}

/// When the sweep has gone through all baskets, every cell has an owner.
pub proof fn lemma_sweep_complete(img: GridView<u8>, baskets: Seq<Vec<Point>>, own: GridView<Option<usize>>)
    requires
        is_hist(img, baskets),
        img.width == own.width,
        img.height == own.height,
        own.wf(),
        own.addressable(),
        swept_upto(baskets, own, 256, 0),
    ensures
        complete(own),
{
    assert forall|k: int| 0 <= k < own.cells.len() implies (#[trigger] own.cells[k]) is Some by {
        own.lemma_coord(k);
        let x = k % (own.width as int);
        let y = k / (own.width as int);
        let p = Point { x: x as i32, y: y as i32 };
        assert(p.x == x && p.y == y);
        assert(img.inside(p.x as int, p.y as int));
        let t = img.at(p.x as int, p.y as int) as int;
        assert(holds(baskets, img.at(p.x as int, p.y as int) as int, p));
        let j = choose|j: int| 0 <= j < baskets[t]@.len() && baskets[t]@[j] == p;
        assert(own.at(baskets[t]@[j].x as int, baskets[t]@[j].y as int) is Some);
    }
}

/// The grid of the size of `img` in which no cell has an owner.
pub open spec fn blank_grid(img: GridView<u8>) -> GridView<Option<usize>> {
    GridView { cells: Seq::new(img.cells.len(), |k: int| None::<usize>), width: img.width, height: img.height }
}

/// Whether the sweep over `img` in the order of `baskets` stands at the
/// regions `regs` and the grid `own` when it has gone through the baskets
/// before `t` and through the first `j` entries of basket `t`. It starts
/// from no region and the blank grid, and each entry of basket `t` is a
/// step at threshold `t` from regions and a grid that agree.
pub open spec fn reaches<A: ExtremalRegion>(
    img: GridView<u8>,
    baskets: Seq<Vec<Point>>,
    t: int,
    j: int,
    regs: Seq<A>,
    own: GridView<Option<usize>>,
) -> bool
    decreases t, j,
{
    if j > 0 {
        exists|prev_regs: Seq<A>, prev_own: GridView<Option<usize>>, order: Seq<usize>|
            reaches(img, baskets, t, j - 1, prev_regs, prev_own) && consistent(prev_regs, prev_own)
                && prev_own.inside(baskets[t]@[j - 1].x as int, baskets[t]@[j - 1].y as int) && #[trigger] is_step(
                prev_regs,
                prev_own,
                baskets[t]@[j - 1],
                t as i32,
                img,
                regs,
                own,
                order,
            )
    } else if t > 0 {
        reaches(img, baskets, t - 1, baskets[t - 1]@.len() as int, regs, own)
    } else {
        regs == Seq::<A>::empty() && own == blank_grid(img)
    }
}

/// What a sweep over `img` leaves behind: the region list and the ownership
/// grid that the steps through all pixels lead to, thresholds ascending and
/// pixels of one threshold in column scan order. The two agree with each
/// other, every pixel has an owner, and the regions that own cells have as
/// many pixels together as the image has.
pub open spec fn is_swept<A: ExtremalRegion>(img: GridView<u8>, regs: Seq<A>, own: GridView<Option<usize>>) -> bool {
    &&& own.width == img.width
    &&& own.height == img.height
    &&& consistent(regs, own)
    &&& complete(own)
    &&& live_total(regs, own) == img.cells.len()
    &&& regs.len() <= img.cells.len()
    &&& exists|baskets: Seq<Vec<Point>>| #[trigger] is_hist(img, baskets) && reaches(img, baskets, 256, 0, regs, own)
}

/// After a sweep every pixel belongs to exactly one region: its cell has an
/// owner, the owner lists the pixel, and no other region that owns a cell
/// lists it.
pub proof fn lemma_swept_pixel_has_one_region<A: ExtremalRegion>(
    img: GridView<u8>,
    regs: Seq<A>,
    own: GridView<Option<usize>>,
    p: Point,
)
    requires
        is_swept(img, regs, own),
        img.inside(p.x as int, p.y as int),
    ensures
        own.at(p.x as int, p.y as int) is Some,
        own.at(p.x as int, p.y as int).unwrap() < regs.len(),
        has_point(regs, own.at(p.x as int, p.y as int).unwrap(), p),
        forall|i: usize|
            i < regs.len() && owns_any(own, i) && i != own.at(p.x as int, p.y as int).unwrap() ==> !#[trigger] has_point(
                regs,
                i,
                p,
            ),
{
    own.lemma_offset(p.x as int, p.y as int);
    let c = own.offset(p.x as int, p.y as int);
    assert(own.cells[c] is Some);
    let o = own.cells[c].unwrap();
    assert(lists_cell(regs, own, o as int, c));
    let j = choose|j: int|
        0 <= j < size_of(regs, o as int) && own.inside(
            (#[trigger] point_of(regs, o as int, j)).x as int,
            point_of(regs, o as int, j).y as int,
        ) && own.offset(point_of(regs, o as int, j).x as int, point_of(regs, o as int, j).y as int) == c;
    let q = point_of(regs, o as int, j);
    own.lemma_offset_injective(q.x as int, q.y as int, p.x as int, p.y as int);
    assert(q == p);
    assert forall|i: usize| i < regs.len() && owns_any(own, i) && i != o implies !#[trigger] has_point(regs, i, p) by {
        if has_point(regs, i, p) {
            let k = choose|k: int| 0 <= k < size_of(regs, i as int) && #[trigger] point_of(regs, i as int, k) == p;
            assert(owned_by(own, point_of(regs, i as int, k).x as int, point_of(regs, i as int, k).y as int, i));
        }
    }
}

/// A grid in which every cell has an owner has no unowned cell.
pub proof fn lemma_no_blanks(c: Seq<Option<usize>>)
    requires
        forall|k: int| 0 <= k < c.len() ==> (#[trigger] c[k]) is Some,
    ensures
        blanks(c) == 0,
    decreases c.len(),
{
    if c.len() > 0 {
        assert(c.last() is Some);
        assert forall|k: int| 0 <= k < c.drop_last().len() implies (#[trigger] c.drop_last()[k]) is Some by {
            assert(c[k] is Some);
        }
        lemma_no_blanks(c.drop_last());
    }
}

/// Two sequences that are sorted by the same one-way relation and have the
/// same elements are equal.
pub proof fn lemma_sorted_is_unique<T>(a: Seq<T>, b: Seq<T>, before: spec_fn(T, T) -> bool)
    requires
        forall|x: T, y: T| #[trigger] before(x, y) ==> !before(y, x),
        forall|i: int, j: int| 0 <= i < j < a.len() ==> before(#[trigger] a[i], #[trigger] a[j]),
        forall|i: int, j: int| 0 <= i < j < b.len() ==> before(#[trigger] b[i], #[trigger] b[j]),
        forall|i: int| 0 <= i < a.len() ==> b.contains(#[trigger] a[i]),
        forall|i: int| 0 <= i < b.len() ==> a.contains(#[trigger] b[i]),
    ensures
        a == b,
    decreases a.len(),
{
    if a.len() == 0 {
        if b.len() > 0 {
            assert(a.contains(b[0]));
        }
        assert(a =~= b);
    } else {
        assert(b.contains(a[0]));
        let k = choose|k: int| 0 <= k < b.len() && b[k] == a[0];
        assert(a.contains(b[0]));
        let m = choose|m: int| 0 <= m < a.len() && a[m] == b[0];
        if k > 0 {
            assert(before(b[0], b[k]));
            if m > 0 {
                assert(before(a[0], a[m]));
            }
        }
        assert(a[0] == b[0]);
        let at = a.drop_first();
        let bt = b.drop_first();
        assert forall|i: int, j: int| 0 <= i < j < at.len() implies before(#[trigger] at[i], #[trigger] at[j]) by {
            assert(before(a[i + 1], a[j + 1]));
        }
        assert forall|i: int, j: int| 0 <= i < j < bt.len() implies before(#[trigger] bt[i], #[trigger] bt[j]) by {
            assert(before(b[i + 1], b[j + 1]));
        }
        assert forall|i: int| 0 <= i < at.len() implies bt.contains(#[trigger] at[i]) by {
            assert(b.contains(a[i + 1]));
            let n = choose|n: int| 0 <= n < b.len() && b[n] == a[i + 1];
            assert(before(a[0], a[i + 1]));
            assert(n != 0);
            assert(bt[n - 1] == at[i]);
        }
        assert forall|i: int| 0 <= i < bt.len() implies at.contains(#[trigger] bt[i]) by {
            assert(a.contains(b[i + 1]));
            let n = choose|n: int| 0 <= n < a.len() && a[n] == b[i + 1];
            assert(before(b[0], b[i + 1]));
            assert(n != 0);
            assert(at[n - 1] == bt[i]);
        }
        lemma_sorted_is_unique(at, bt, before);
        assert(a =~= seq![a[0]] + at);
        assert(b =~= seq![b[0]] + bt);
    }
}

/// An image has one sorting into baskets: two of them hold the same pixels
/// in the same order, basket by basket.
pub proof fn lemma_hist_is_unique(img: GridView<u8>, b1: Seq<Vec<Point>>, b2: Seq<Vec<Point>>, t: int)
    requires
        is_hist(img, b1),
        is_hist(img, b2),
        0 <= t < 256,
    ensures
        b1[t]@ == b2[t]@,
{
    let before = |p: Point, q: Point| scans_before(p, q);
    assert forall|i: int| 0 <= i < b1[t]@.len() implies b2[t]@.contains(#[trigger] b1[t]@[i]) by {
        let p = b1[t]@[i];
        assert(holds(b2, img.at(p.x as int, p.y as int) as int, p));
    }
    assert forall|i: int| 0 <= i < b2[t]@.len() implies b1[t]@.contains(#[trigger] b2[t]@[i]) by {
        let p = b2[t]@[i];
        assert(holds(b1, img.at(p.x as int, p.y as int) as int, p));
    }
    assert forall|i: int, j: int| 0 <= i < j < b1[t]@.len() implies before(
        #[trigger] b1[t]@[i],
        #[trigger] b1[t]@[j],
    ) by {
        assert(scans_before(b1[t]@[i], b1[t]@[j]));
    }
    assert forall|i: int, j: int| 0 <= i < j < b2[t]@.len() implies before(
        #[trigger] b2[t]@[i],
        #[trigger] b2[t]@[j],
    ) by {
        assert(scans_before(b2[t]@[i], b2[t]@[j]));
    }
    lemma_sorted_is_unique(b1[t]@, b2[t]@, before);
}

/// Regions have one order by size: two such orders of the same regions are
/// equal.
pub proof fn lemma_size_order_is_unique<A: ExtremalRegion>(
    o1: Seq<usize>,
    o2: Seq<usize>,
    ns: Seq<usize>,
    regs: Seq<A>,
)
    requires
        is_size_order(o1, ns, regs),
        is_size_order(o2, ns, regs),
    ensures
        o1 == o2,
{
    let before = |a: usize, b: usize| outranks(regs, a, b);
    assert forall|i: int| 0 <= i < o1.len() implies o2.contains(#[trigger] o1[i]) by {
        assert(ns.contains(o1[i]));
        let m = choose|m: int| 0 <= m < ns.len() && ns[m] == o1[i];
        assert(o2.contains(ns[m]));
    }
    assert forall|i: int| 0 <= i < o2.len() implies o1.contains(#[trigger] o2[i]) by {
        assert(ns.contains(o2[i]));
        let m = choose|m: int| 0 <= m < ns.len() && ns[m] == o2[i];
        assert(o1.contains(ns[m]));
    }
    assert forall|i: int, j: int| 0 <= i < j < o1.len() implies before(#[trigger] o1[i], #[trigger] o1[j]) by {
        assert(outranks(regs, o1[i], o1[j]));
    }
    assert forall|i: int, j: int| 0 <= i < j < o2.len() implies before(#[trigger] o2[i], #[trigger] o2[j]) by {
        assert(outranks(regs, o2[i], o2[j]));
    }
    lemma_sorted_is_unique(o1, o2, before);
}

/// Two region lists have the same values, region by region.
pub open spec fn same_models<A: ExtremalRegion>(a: Seq<A>, b: Seq<A>) -> bool {
    a.len() == b.len() && forall|i: int| 0 <= i < a.len() ==> (#[trigger] a[i]).model() == b[i].model()
}

/// What a region becomes by absorbing others depends on the values of the
/// regions only.
pub proof fn lemma_absorbed_by_models<A: ExtremalRegion>(
    m: A::Model,
    a: Seq<A>,
    b: Seq<A>,
    order: Seq<usize>,
    upto: int,
    thres: i32,
)
    requires
        same_models(a, b),
        upto <= order.len(),
        forall|k: int| 0 <= k < order.len() ==> (#[trigger] order[k]) < a.len(),
    ensures
        absorbed(m, a, order, upto, thres) == absorbed(m, b, order, upto, thres),
    decreases upto,
{
    if upto > 1 {
        lemma_absorbed_by_models(m, a, b, order, upto - 1, thres);
        assert(order[upto - 1] < a.len());
        assert(a[order[upto - 1] as int].model() == b[order[upto - 1] as int].model());
    }
}

/// A step is determined by the values of the regions and the grid it starts
/// from: steps at the same pixel from region lists with the same values and
/// from the same grid lead to region lists with the same values, to the
/// same grid and to the same order.
pub proof fn lemma_step_is_unique<A: ExtremalRegion>(
    regs_a: Seq<A>,
    regs_b: Seq<A>,
    own: GridView<Option<usize>>,
    p: Point,
    thres: i32,
    img: GridView<u8>,
    post_a: Seq<A>,
    own_a: GridView<Option<usize>>,
    order_a: Seq<usize>,
    post_b: Seq<A>,
    own_b: GridView<Option<usize>>,
    order_b: Seq<usize>,
)
    requires
        same_models(regs_a, regs_b),
        consistent(regs_a, own),
        own.inside(p.x as int, p.y as int),
        is_step(regs_a, own, p, thres, img, post_a, own_a, order_a),
        is_step(regs_b, own, p, thres, img, post_b, own_b, order_b),
    ensures
        same_models(post_a, post_b),
        own_a == own_b,
        order_a == order_b,
{
    let ns = neighbour_labels(own, p);
    assert(is_size_order(order_b, ns, regs_a)) by {
        assert forall|x: int, y: int| 0 <= x < y < order_b.len() implies outranks(
            regs_a,
            #[trigger] order_b[x],
            #[trigger] order_b[y],
        ) by {
            assert(outranks(regs_b, order_b[x], order_b[y]));
            assert(ns.contains(order_b[x]));
            assert(ns.contains(order_b[y]));
            lemma_neighbour_region(regs_a, own, p, order_b[x]);
            lemma_neighbour_region(regs_a, own, p, order_b[y]);
            assert(regs_a[order_b[x] as int].model() == regs_b[order_b[x] as int].model());
            assert(regs_a[order_b[y] as int].model() == regs_b[order_b[y] as int].model());
        }
    }
    lemma_size_order_is_unique(order_a, order_b, ns, regs_a);
    if ns.len() == 0 {
        assert forall|i: int| 0 <= i < post_a.len() implies (#[trigger] post_a[i]).model() == post_b[i].model() by {
            if i < regs_a.len() {
                assert(post_a[i] == regs_a[i]);
                assert(post_b[i] == regs_b[i]);
                assert(regs_a[i].model() == regs_b[i].model());
            }
        }
    } else {
        let s = order_a[0];
        assert(ns.contains(order_a[0]));
        lemma_neighbour_region(regs_a, own, p, s);
        assert forall|k: int| 0 <= k < order_a.len() implies (#[trigger] order_a[k]) < regs_a.len() by {
            assert(ns.contains(order_a[k]));
            lemma_neighbour_region(regs_a, own, p, order_a[k]);
        }
        assert(regs_a[s as int].model() == regs_b[s as int].model());
        lemma_absorbed_by_models(
            A::increment_model(regs_a[s as int].model(), p, thres, img, own),
            regs_a,
            regs_b,
            order_a,
            order_a.len() as int,
            thres,
        );
        assert forall|i: int| 0 <= i < post_a.len() implies (#[trigger] post_a[i]).model() == post_b[i].model() by {
            if i != s {
                assert(post_a[i] == regs_a[i]);
                assert(post_b[i] == regs_b[i]);
                assert(regs_a[i].model() == regs_b[i].model());
            }
        }
        assert(own_a.cells =~= own_b.cells) by {
            assert forall|k: int| 0 <= k < own_a.cells.len() implies own_a.cells[k] == own_b.cells[k] by {
                assert(own_a.cells[k] == owner_after(own, ns, s, own.offset(p.x as int, p.y as int), k));
                assert(own_b.cells[k] == owner_after(own, ns, s, own.offset(p.x as int, p.y as int), k));
            }
        }
    }
}

/// Where a sweep stands is determined by the image and the baskets: two
/// states that it reaches at the same place have regions with the same
/// values and the same grid.
pub proof fn lemma_reaches_is_unique<A: ExtremalRegion>(
    img: GridView<u8>,
    baskets: Seq<Vec<Point>>,
    t: int,
    j: int,
    regs_a: Seq<A>,
    own_a: GridView<Option<usize>>,
    regs_b: Seq<A>,
    own_b: GridView<Option<usize>>,
)
    requires
        0 <= t,
        0 <= j,
        reaches(img, baskets, t, j, regs_a, own_a),
        reaches(img, baskets, t, j, regs_b, own_b),
    ensures
        same_models(regs_a, regs_b),
        own_a == own_b,
    decreases t, j,
{
    if j > 0 {
        let p = baskets[t]@[j - 1];
        let (pa, oa, xa) = choose|prev_regs: Seq<A>, prev_own: GridView<Option<usize>>, order: Seq<usize>|
            reaches(img, baskets, t, j - 1, prev_regs, prev_own) && consistent(prev_regs, prev_own)
                && prev_own.inside(baskets[t]@[j - 1].x as int, baskets[t]@[j - 1].y as int) && #[trigger] is_step(
                prev_regs,
                prev_own,
                baskets[t]@[j - 1],
                t as i32,
                img,
                regs_a,
                own_a,
                order,
            );
        let (pb, ob, xb) = choose|prev_regs: Seq<A>, prev_own: GridView<Option<usize>>, order: Seq<usize>|
            reaches(img, baskets, t, j - 1, prev_regs, prev_own) && consistent(prev_regs, prev_own)
                && prev_own.inside(baskets[t]@[j - 1].x as int, baskets[t]@[j - 1].y as int) && #[trigger] is_step(
                prev_regs,
                prev_own,
                baskets[t]@[j - 1],
                t as i32,
                img,
                regs_b,
                own_b,
                order,
            );
        lemma_reaches_is_unique(img, baskets, t, j - 1, pa, oa, pb, ob);
        lemma_step_is_unique(pa, pb, oa, p, t as i32, img, regs_a, own_a, xa, regs_b, own_b, xb);
    } else if t > 0 {
        lemma_reaches_is_unique(img, baskets, t - 1, baskets[t - 1]@.len() as int, regs_a, own_a, regs_b, own_b);
    } else {
    }
}

/// Where a sweep stands depends on what the baskets hold, not on the
/// vectors that hold it.
pub proof fn lemma_reaches_by_content<A: ExtremalRegion>(
    img: GridView<u8>,
    b1: Seq<Vec<Point>>,
    b2: Seq<Vec<Point>>,
    t: int,
    j: int,
    regs: Seq<A>,
    own: GridView<Option<usize>>,
)
    requires
        0 <= t <= 256,
        0 <= j,
        t == 256 ==> j == 0,
        forall|tt: int| 0 <= tt < 256 ==> (#[trigger] b1[tt])@ == b2[tt]@,
        reaches(img, b1, t, j, regs, own),
    ensures
        reaches(img, b2, t, j, regs, own),
    decreases t, j,
{
    if j > 0 {
        assert(b1[t]@ == b2[t]@);
        let (pr, po, order) = choose|prev_regs: Seq<A>, prev_own: GridView<Option<usize>>, order: Seq<usize>|
            reaches(img, b1, t, j - 1, prev_regs, prev_own) && consistent(prev_regs, prev_own) && prev_own.inside(
                b1[t]@[j - 1].x as int,
                b1[t]@[j - 1].y as int,
            ) && #[trigger] is_step(prev_regs, prev_own, b1[t]@[j - 1], t as i32, img, regs, own, order);
        lemma_reaches_by_content(img, b1, b2, t, j - 1, pr, po);
        assert(is_step(pr, po, b2[t]@[j - 1], t as i32, img, regs, own, order));
    } else if t > 0 {
        assert(b1[t - 1]@ == b2[t - 1]@);
        lemma_reaches_by_content(img, b1, b2, t - 1, b1[t - 1]@.len() as int, regs, own);
    } else {
    }
}

/// A sweep is determined by the image: what two sweeps over one image leave
/// behind are regions with the same values and the same grid.
pub proof fn lemma_swept_is_unique<A: ExtremalRegion>(
    img: GridView<u8>,
    regs_a: Seq<A>,
    own_a: GridView<Option<usize>>,
    regs_b: Seq<A>,
    own_b: GridView<Option<usize>>,
)
    requires
        is_swept(img, regs_a, own_a),
        is_swept(img, regs_b, own_b),
    ensures
        same_models(regs_a, regs_b),
        own_a == own_b,
{
    let b1 = choose|baskets: Seq<Vec<Point>>|
        #[trigger] is_hist(img, baskets) && reaches(img, baskets, 256, 0, regs_a, own_a);
    let b2 = choose|baskets: Seq<Vec<Point>>|
        #[trigger] is_hist(img, baskets) && reaches(img, baskets, 256, 0, regs_b, own_b);
    assert forall|tt: int| 0 <= tt < 256 implies (#[trigger] b2[tt])@ == b1[tt]@ by {
        lemma_hist_is_unique(img, b2, b1, tt);
    }
    lemma_reaches_by_content(img, b2, b1, 256, 0, regs_b, own_b);
    lemma_reaches_is_unique(img, b1, 256, 0, regs_a, own_a, regs_b, own_b);
}

} // verus!
