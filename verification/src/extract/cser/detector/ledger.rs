use vstd::prelude::*;

use crate::extract::cser::incremental::owned_by;
use crate::extract::region_detector::ExtremalRegion;
use crate::image::GridView;
use crate::structures::Point;

verus! {

/// How many pixels region `i` has.
pub open spec fn size_of<A: ExtremalRegion>(regions: Seq<A>, i: int) -> nat {
    A::points_of(regions[i].model()).len()
}

/// The `j`-th pixel of region `i`.
pub open spec fn point_of<A: ExtremalRegion>(regions: Seq<A>, i: int, j: int) -> Point {
    A::points_of(regions[i].model())[j]
}

/// Whether region `i` owns a cell of the grid. A region that has been
/// absorbed by another owns none.
pub open spec fn owns_any(own: GridView<Option<usize>>, i: usize) -> bool {
    exists|k: int| 0 <= k < own.cells.len() && #[trigger] own.cells[k] == Some(i)
}

/// Whether region `i` lists the pixel whose cell is at offset `k`.
pub open spec fn lists_cell<A: ExtremalRegion>(
    regions: Seq<A>,
    own: GridView<Option<usize>>,
    i: int,
    k: int,
) -> bool {
    exists|j: int|
        0 <= j < size_of(regions, i) && own.inside(
            (#[trigger] point_of(regions, i, j)).x as int,
            point_of(regions, i, j).y as int,
        ) && own.offset(point_of(regions, i, j).x as int, point_of(regions, i, j).y as int) == k
}

/// For each region its pixel count if it owns a cell, else zero.
pub open spec fn live_sizes<A: ExtremalRegion>(regions: Seq<A>, own: GridView<Option<usize>>) -> Seq<int> {
    Seq::new(
        regions.len(),
        |i: int|
            if owns_any(own, i as usize) {
                size_of(regions, i) as int
            } else {
                0
            },
    )
}

/// How many pixels the regions that own a cell have in all.
pub open spec fn live_total<A: ExtremalRegion>(regions: Seq<A>, own: GridView<Option<usize>>) -> int {
    total(live_sizes(regions, own))
}

/// The regions and the ownership grid agree: every region is consistent in
/// itself, every owner in the grid is a region that lists the pixel, and
/// every pixel of a region that owns any cell is a cell that it owns.
pub open spec fn consistent<A: ExtremalRegion>(regions: Seq<A>, own: GridView<Option<usize>>) -> bool {
    &&& own.wf()
    &&& own.addressable()
    &&& regions.len() <= usize::MAX
    &&& forall|i: int| 0 <= i < regions.len() ==> (#[trigger] regions[i]).wf()
    &&& forall|k: int|
        0 <= k < own.cells.len() ==> (#[trigger] own.cells[k] matches Some(i) ==> i < regions.len() && lists_cell(
            regions,
            own,
            i as int,
            k,
        ))
    &&& forall|i: int, j: int|
        0 <= i < regions.len() && owns_any(own, i as usize) && 0 <= j < size_of(regions, i) ==> owned_by(
            own,
            (#[trigger] point_of(regions, i, j)).x as int,
            point_of(regions, i, j).y as int,
            i as usize,
        )
}

/// The sum of the elements of `s`.
pub open spec fn total(s: Seq<int>) -> int
    decreases s.len(),
{
    if s.len() == 0 {
        0
    } else {
        total(s.drop_last()) + s.last()
    }
}

/// Appending an element adds it to the sum.
pub proof fn lemma_total_push(s: Seq<int>, v: int)
    ensures
        total(s.push(v)) == total(s) + v,
{
    assert(s.push(v).drop_last() =~= s);
}

/// Replacing an element changes the sum by the difference.
pub proof fn lemma_total_update(s: Seq<int>, i: int, v: int)
    requires
        0 <= i < s.len(),
    ensures
        total(s.update(i, v)) == total(s) - s[i] + v,
    decreases s.len(),
{
    let u = s.update(i, v);
    if i == s.len() - 1 {
        assert(u.drop_last() =~= s.drop_last());
    } else {
        lemma_total_update(s.drop_last(), i, v);
        assert(u.drop_last() =~= s.drop_last().update(i, v));
    }
}

/// The sum of numbers none of which is negative is not negative, and none
/// of them exceeds it.
pub proof fn lemma_total_covers(s: Seq<int>, i: int)
    requires
        forall|k: int| 0 <= k < s.len() ==> 0 <= s[k],
        0 <= i < s.len(),
    ensures
        0 <= s[i] <= total(s),
    decreases s.len(),
{
    lemma_total_nonnegative(s.drop_last());
    if i < s.len() - 1 {
        lemma_total_covers(s.drop_last(), i);
    }
}

/// The sum of numbers none of which is negative is not negative.
pub proof fn lemma_total_nonnegative(s: Seq<int>)
    requires
        forall|k: int| 0 <= k < s.len() ==> 0 <= s[k],
    ensures
        0 <= total(s),
    decreases s.len(),
{
    if s.len() > 0 {
        lemma_total_nonnegative(s.drop_last());
    }
}

/// Two different elements of a sequence without negative numbers do not
/// exceed the sum together.
pub proof fn lemma_total_covers_two(s: Seq<int>, i: int, j: int)
    requires
        forall|k: int| 0 <= k < s.len() ==> 0 <= s[k],
        0 <= i < s.len(),
        0 <= j < s.len(),
        i != j,
    ensures
        s[i] + s[j] <= total(s),
{
    lemma_total_update(s, i, 0);
    lemma_total_covers(s.update(i, 0), j);
}

} // verus!

verus! {

/// Marking an unowned cell for region `r` makes `r` own a cell and leaves
/// it as it was for every other region.
pub proof fn lemma_owners_after_mark(
    own: GridView<Option<usize>>,
    own2: GridView<Option<usize>>,
    k0: int,
    r: usize,
)
    requires
        0 <= k0 < own.cells.len(),
        own.cells[k0] is None,
        own2.cells == own.cells.update(k0, Some(r)),
    ensures
        owns_any(own2, r),
        forall|i: usize| i != r ==> owns_any(own2, i) == owns_any(own, i),
        owns_any(own, r) ==> owns_any(own2, r),
{
    assert(own2.cells[k0] == Some(r));
    assert forall|i: usize| i != r implies owns_any(own2, i) == owns_any(own, i) by {
        if owns_any(own, i) {
            let k = choose|k: int| 0 <= k < own.cells.len() && #[trigger] own.cells[k] == Some(i);
            assert(own2.cells[k] == Some(i));
        }
        if owns_any(own2, i) {
            let k = choose|k: int| 0 <= k < own2.cells.len() && #[trigger] own2.cells[k] == Some(i);
            assert(own.cells[k] == Some(i));
        }
    }
}

/// A new region for an unowned pixel keeps regions and grid in agreement
/// and adds one pixel to the regions that own cells.
pub proof fn lemma_found<A: ExtremalRegion>(
    regs: Seq<A>,
    own: GridView<Option<usize>>,
    p: Point,
    a: A,
    own2: GridView<Option<usize>>,
)
    requires
        consistent(regs, own),
        own.inside(p.x as int, p.y as int),
        own.at(p.x as int, p.y as int) is None,
        regs.len() < usize::MAX,
        a.wf(),
        A::points_of(a.model()) == seq![p],
        own2 == own.set(p.x as int, p.y as int, Some(regs.len() as usize)),
    ensures
        consistent(regs.push(a), own2),
        live_sizes(regs.push(a), own2) == live_sizes(regs, own).push(1),
        live_total(regs.push(a), own2) == live_total(regs, own) + 1,
{
    let n = regs.len() as int;
    let regs2 = regs.push(a);
    let k0 = own.offset(p.x as int, p.y as int);
    own.lemma_offset(p.x as int, p.y as int);
    lemma_owners_after_mark(own, own2, k0, n as usize);
    assert forall|i: int| 0 <= i < regs2.len() implies (#[trigger] regs2[i]).wf() by {
        if i < n {
            assert(regs[i].wf());
        }
    }
    assert forall|k: int| 0 <= k < own2.cells.len() implies (#[trigger] own2.cells[k] matches Some(i) ==> i
        < regs2.len() && lists_cell(regs2, own2, i as int, k)) by {
        if own2.cells[k] is Some {
            let i = own2.cells[k].unwrap();
            if k == k0 {
                assert(point_of(regs2, n, 0) == p);
                assert(lists_cell(regs2, own2, n, k));
            } else {
                assert(own.cells[k] == Some(i));
                assert(lists_cell(regs, own, i as int, k));
                let j = choose|j: int|
                    0 <= j < size_of(regs, i as int) && own.inside(
                        (#[trigger] point_of(regs, i as int, j)).x as int,
                        point_of(regs, i as int, j).y as int,
                    ) && own.offset(point_of(regs, i as int, j).x as int, point_of(regs, i as int, j).y as int)
                        == k;
                assert(point_of(regs2, i as int, j) == point_of(regs, i as int, j));
                assert(lists_cell(regs2, own2, i as int, k));
            }
        }
    }
    assert forall|i: int, j: int|
        0 <= i < regs2.len() && owns_any(own2, i as usize) && 0 <= j < size_of(regs2, i) implies owned_by(
        own2,
        (#[trigger] point_of(regs2, i, j)).x as int,
        point_of(regs2, i, j).y as int,
        i as usize,
    ) by {
        if i == n {
            assert(point_of(regs2, i, j) == p);
        } else {
            assert(owns_any(own, i as usize));
            let q = point_of(regs, i, j);
            assert(point_of(regs2, i, j) == q);
            assert(owned_by(own, q.x as int, q.y as int, i as usize));
            own.lemma_offset(q.x as int, q.y as int);
        }
    }
    assert(live_sizes(regs2, own2) =~= live_sizes(regs, own).push(1)) by {
        assert forall|i: int| 0 <= i < n implies live_sizes(regs2, own2)[i] == live_sizes(regs, own)[i] by {
            assert(size_of(regs2, i) == size_of(regs, i));
        }
        assert(size_of(regs2, n) == 1);
    }
    lemma_total_push(live_sizes(regs, own), 1);
}

/// A region that takes up an unowned pixel keeps regions and grid in
/// agreement and adds one pixel to the regions that own cells.
pub proof fn lemma_grown<A: ExtremalRegion>(
    regs: Seq<A>,
    own: GridView<Option<usize>>,
    p: Point,
    r: usize,
    a: A,
    own2: GridView<Option<usize>>,
)
    requires
        consistent(regs, own),
        own.inside(p.x as int, p.y as int),
        own.at(p.x as int, p.y as int) is None,
        r < regs.len(),
        owns_any(own, r),
        a.wf(),
        A::points_of(a.model()) == A::points_of(regs[r as int].model()).push(p),
        own2 == own.set(p.x as int, p.y as int, Some(r)),
    ensures
        consistent(regs.update(r as int, a), own2),
        live_sizes(regs.update(r as int, a), own2) == live_sizes(regs, own).update(
            r as int,
            live_sizes(regs, own)[r as int] + 1,
        ),
        live_total(regs.update(r as int, a), own2) == live_total(regs, own) + 1,
{
    let regs2 = regs.update(r as int, a);
    let k0 = own.offset(p.x as int, p.y as int);
    let old_size = size_of(regs, r as int) as int;
    own.lemma_offset(p.x as int, p.y as int);
    lemma_owners_after_mark(own, own2, k0, r);
    assert forall|i: int| 0 <= i < regs2.len() implies (#[trigger] regs2[i]).wf() by {
        if i != r {
            assert(regs[i].wf());
        }
    }
    assert forall|k: int| 0 <= k < own2.cells.len() implies (#[trigger] own2.cells[k] matches Some(i) ==> i
        < regs2.len() && lists_cell(regs2, own2, i as int, k)) by {
        if own2.cells[k] is Some {
            let i = own2.cells[k].unwrap();
            if k == k0 {
                assert(point_of(regs2, r as int, old_size) == p);
                assert(lists_cell(regs2, own2, r as int, k));
            } else {
                assert(own.cells[k] == Some(i));
                assert(lists_cell(regs, own, i as int, k));
                let j = choose|j: int|
                    0 <= j < size_of(regs, i as int) && own.inside(
                        (#[trigger] point_of(regs, i as int, j)).x as int,
                        point_of(regs, i as int, j).y as int,
                    ) && own.offset(point_of(regs, i as int, j).x as int, point_of(regs, i as int, j).y as int)
                        == k;
                assert(point_of(regs2, i as int, j) == point_of(regs, i as int, j));
                assert(lists_cell(regs2, own2, i as int, k));
            }
        }
    }
    assert forall|i: int, j: int|
        0 <= i < regs2.len() && owns_any(own2, i as usize) && 0 <= j < size_of(regs2, i) implies owned_by(
        own2,
        (#[trigger] point_of(regs2, i, j)).x as int,
        point_of(regs2, i, j).y as int,
        i as usize,
    ) by {
        if i == r && j == old_size {
            assert(point_of(regs2, i, j) == p);
        } else {
            assert(owns_any(own, i as usize));
            let q = point_of(regs, i, j);
            assert(point_of(regs2, i, j) == q);
            assert(owned_by(own, q.x as int, q.y as int, i as usize));
            own.lemma_offset(q.x as int, q.y as int);
        }
    }
    assert(live_sizes(regs2, own2) =~= live_sizes(regs, own).update(r as int, live_sizes(regs, own)[r as int] + 1))
        by {
        assert forall|i: int| 0 <= i < regs.len() && i != r implies live_sizes(regs2, own2)[i] == live_sizes(
            regs,
            own,
        )[i] by {
            assert(size_of(regs2, i) == size_of(regs, i));
        }
        assert(size_of(regs2, r as int) == old_size + 1);
    }
    lemma_total_update(live_sizes(regs, own), r as int, live_sizes(regs, own)[r as int] + 1);
}

/// A region that absorbs another and takes over its cells keeps regions and
/// grid in agreement. The absorbed region owns no cell afterwards, and the
/// regions that own cells have as many pixels as before.
pub proof fn lemma_absorbed<A: ExtremalRegion>(
    regs: Seq<A>,
    own: GridView<Option<usize>>,
    r1: usize,
    r2: usize,
    a: A,
    own2: GridView<Option<usize>>,
)
    requires
        consistent(regs, own),
        r1 < regs.len(),
        r2 < regs.len(),
        r1 != r2,
        owns_any(own, r1),
        owns_any(own, r2),
        a.wf(),
        A::points_of(a.model()) == A::points_of(regs[r1 as int].model()) + A::points_of(regs[r2 as int].model()),
        own2.width == own.width,
        own2.height == own.height,
        own2.cells.len() == own.cells.len(),
        forall|k: int|
            0 <= k < own.cells.len() ==> #[trigger] own2.cells[k] == if own.cells[k] == Some(r2) {
                Some(r1)
            } else {
                own.cells[k]
            },
    ensures
        consistent(regs.update(r1 as int, a), own2),
        !owns_any(own2, r2),
        owns_any(own2, r1),
        forall|i: usize| i != r2 ==> owns_any(own2, i) == owns_any(own, i),
        live_total(regs.update(r1 as int, a), own2) == live_total(regs, own),
{
    let regs2 = regs.update(r1 as int, a);
    let n1 = size_of(regs, r1 as int) as int;
    assert forall|i: usize| i != r2 implies owns_any(own2, i) == owns_any(own, i) by {
        if owns_any(own, i) {
            let k = choose|k: int| 0 <= k < own.cells.len() && #[trigger] own.cells[k] == Some(i);
            assert(own2.cells[k] == Some(i));
        }
        if owns_any(own2, i) {
            let k = choose|k: int| 0 <= k < own2.cells.len() && #[trigger] own2.cells[k] == Some(i);
            if own.cells[k] == Some(r2) {
                assert(i == r1);
            } else {
                assert(own.cells[k] == Some(i));
            }
        }
    }
    assert(!owns_any(own2, r2)) by {
        if owns_any(own2, r2) {
            let k = choose|k: int| 0 <= k < own2.cells.len() && #[trigger] own2.cells[k] == Some(r2);
            assert(own.cells[k] == Some(r2) || own.cells[k] == own2.cells[k]);
        }
    }
    assert forall|i: int| 0 <= i < regs2.len() implies (#[trigger] regs2[i]).wf() by {
        if i != r1 {
            assert(regs[i].wf());
        }
    }
    assert forall|k: int| 0 <= k < own2.cells.len() implies (#[trigger] own2.cells[k] matches Some(i) ==> i
        < regs2.len() && lists_cell(regs2, own2, i as int, k)) by {
        if own2.cells[k] is Some {
            let i = own2.cells[k].unwrap();
            let i0 = own.cells[k].unwrap();
            assert(own.cells[k] == Some(i0));
            assert(lists_cell(regs, own, i0 as int, k));
            let j = choose|j: int|
                0 <= j < size_of(regs, i0 as int) && own.inside(
                    (#[trigger] point_of(regs, i0 as int, j)).x as int,
                    point_of(regs, i0 as int, j).y as int,
                ) && own.offset(point_of(regs, i0 as int, j).x as int, point_of(regs, i0 as int, j).y as int)
                    == k;
            if i0 == r2 {
                assert(i == r1);
                assert(point_of(regs2, r1 as int, n1 + j) == point_of(regs, r2 as int, j));
                assert(lists_cell(regs2, own2, i as int, k));
            } else {
                assert(i == i0);
                assert(point_of(regs2, i as int, j) == point_of(regs, i as int, j));
                assert(lists_cell(regs2, own2, i as int, k));
            }
        }
    }
    assert forall|i: int, j: int|
        0 <= i < regs2.len() && owns_any(own2, i as usize) && 0 <= j < size_of(regs2, i) implies owned_by(
        own2,
        (#[trigger] point_of(regs2, i, j)).x as int,
        point_of(regs2, i, j).y as int,
        i as usize,
    ) by {
        if i == r1 {
            if j < n1 {
                let q = point_of(regs, r1 as int, j);
                assert(point_of(regs2, i, j) == q);
                assert(owned_by(own, q.x as int, q.y as int, r1));
                own.lemma_offset(q.x as int, q.y as int);
                assert(own2.cells[own.offset(q.x as int, q.y as int)] == Some(r1));
            } else {
                let q = point_of(regs, r2 as int, j - n1);
                assert(point_of(regs2, i, j) == q);
                assert(owned_by(own, q.x as int, q.y as int, r2));
                own.lemma_offset(q.x as int, q.y as int);
                assert(own2.cells[own.offset(q.x as int, q.y as int)] == Some(r1));
            }
        } else {
            assert(i != r2);
            assert(owns_any(own, i as usize));
            let q = point_of(regs, i, j);
            assert(point_of(regs2, i, j) == q);
            assert(owned_by(own, q.x as int, q.y as int, i as usize));
            own.lemma_offset(q.x as int, q.y as int);
            assert(own2.cells[own.offset(q.x as int, q.y as int)] == Some(i as usize));
        }
    }
    let s = live_sizes(regs, own);
    let s1 = s.update(r1 as int, s[r1 as int] + s[r2 as int]);
    assert(live_sizes(regs2, own2) =~= s1.update(r2 as int, 0)) by {
        assert forall|i: int| 0 <= i < regs.len() && i != r1 && i != r2 implies live_sizes(regs2, own2)[i]
            == s[i] by {
            assert(size_of(regs2, i) == size_of(regs, i));
            assert(owns_any(own2, i as usize) == owns_any(own, i as usize));
        }
        assert(owns_any(own2, r1));
        assert(size_of(regs2, r1 as int) == n1 + size_of(regs, r2 as int));
        assert(size_of(regs2, r2 as int) == size_of(regs, r2 as int));
    }
    lemma_total_update(s, r1 as int, s[r1 as int] + s[r2 as int]);
    lemma_total_update(s1, r2 as int, 0);
}

/// Two different regions that own cells have no more pixels together than
/// all regions that own cells.
pub proof fn lemma_live_sizes_fit<A: ExtremalRegion>(
    regs: Seq<A>,
    own: GridView<Option<usize>>,
    r1: usize,
    r2: usize,
)
    requires
        r1 < regs.len(),
        r2 < regs.len(),
        owns_any(own, r1),
        owns_any(own, r2),
    ensures
        size_of(regs, r1 as int) <= live_total(regs, own),
        r1 != r2 ==> size_of(regs, r1 as int) + size_of(regs, r2 as int) <= live_total(regs, own),
{
    let s = live_sizes(regs, own);
    lemma_total_covers(s, r1 as int);
    if r1 != r2 {
        lemma_total_covers_two(s, r1 as int, r2 as int);
    }
}

} // verus!

verus! {

/// How many cells have no owner.
pub open spec fn blanks(cells: Seq<Option<usize>>) -> nat
    decreases cells.len(),
{
    if cells.len() == 0 {
        0
    } else {
        blanks(cells.drop_last()) + if cells.last() is None {
            1nat
        } else {
            0nat
        }
    }
}

/// Grids with owners in the same cells have as many unowned cells.
pub proof fn lemma_blanks_same(c1: Seq<Option<usize>>, c2: Seq<Option<usize>>)
    requires
        c1.len() == c2.len(),
        forall|c: int| 0 <= c < c1.len() ==> (#[trigger] c2[c] is None) == (c1[c] is None),
    ensures
        blanks(c1) == blanks(c2),
    decreases c1.len(),
{
    if c1.len() > 0 {
        assert(c2.last() is None == c1.last() is None);
        assert forall|c: int| 0 <= c < c1.drop_last().len() implies (#[trigger] c2.drop_last()[c] is None) == (
        c1.drop_last()[c] is None) by {
            assert(c2[c] is None == c1[c] is None);
        }
        lemma_blanks_same(c1.drop_last(), c2.drop_last());
    }
}

/// Giving one unowned cell an owner, and leaving owned cells owned and
/// unowned cells unowned otherwise, leaves one unowned cell less.
pub proof fn lemma_blanks_after_mark(c1: Seq<Option<usize>>, c2: Seq<Option<usize>>, k0: int)
    requires
        c1.len() == c2.len(),
        0 <= k0 < c1.len(),
        c1[k0] is None,
        c2[k0] is Some,
        forall|c: int| 0 <= c < c1.len() && c != k0 ==> (#[trigger] c2[c] is None) == (c1[c] is None),
    ensures
        blanks(c2) + 1 == blanks(c1),
    decreases c1.len(),
{
    if k0 == c1.len() - 1 {
        assert forall|c: int| 0 <= c < c1.drop_last().len() implies (#[trigger] c2.drop_last()[c] is None) == (
        c1.drop_last()[c] is None) by {
            assert(c2[c] is None == c1[c] is None);
        }
        lemma_blanks_same(c1.drop_last(), c2.drop_last());
    } else {
        assert(c2.last() is None == c1.last() is None);
        assert forall|c: int| 0 <= c < c1.drop_last().len() && c != k0 implies (#[trigger] c2.drop_last()[c] is None)
            == (c1.drop_last()[c] is None) by {
            assert(c2[c] is None == c1[c] is None);
        }
        lemma_blanks_after_mark(c1.drop_last(), c2.drop_last(), k0);
    }
}

/// A grid without owners has as many unowned cells as cells.
pub proof fn lemma_blanks_of_blank(c: Seq<Option<usize>>)
    requires
        forall|k: int| 0 <= k < c.len() ==> (#[trigger] c[k]) is None,
    ensures
        blanks(c) == c.len(),
    decreases c.len(),
{
    if c.len() > 0 {
        assert(c.last() is None);
        assert forall|k: int| 0 <= k < c.drop_last().len() implies (#[trigger] c.drop_last()[k]) is None by {
            assert(c[k] is None);
        }
        lemma_blanks_of_blank(c.drop_last());
    }
}

/// A grid with an unowned cell has at least one unowned cell.
pub proof fn lemma_blanks_positive(c: Seq<Option<usize>>, k0: int)
    requires
        0 <= k0 < c.len(),
        c[k0] is None,
    ensures
        blanks(c) >= 1,
    decreases c.len(),
{
    if k0 < c.len() - 1 {
        lemma_blanks_positive(c.drop_last(), k0);
    }
}

} // verus!
