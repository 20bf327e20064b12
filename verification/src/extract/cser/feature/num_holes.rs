use vstd::prelude::*;

use super::feature::Feature;
use crate::extract::cser::incremental::{is_owned_by, owned_by, Incremental, MAX_PIXELS};
use crate::image::{GridView, Image};
use crate::structures::{Point, Ratio};

verus! {

/// A three by three window of cells, addressed as `m[row][column]`.
pub type Matrix = [[i32; 3]; 3];

/// The window `m` as a function from row and column to the cell.
pub open spec fn cells_of(m: Matrix) -> spec_fn(int, int) -> int {
    |r: int, c: int| m[r][c] as int
}

/// Membership of the three by three neighbourhood of `p` in region `idx`:
/// one for a cell of the grid that the region owns, zero for any other. The
/// cell of `p` itself is `centre`.
pub open spec fn neighbourhood(own: GridView<Option<usize>>, p: Point, idx: usize, centre: int) -> spec_fn(
    int,
    int,
) -> int {
    |r: int, c: int|
        if r == 1 && c == 1 {
            centre
        } else if owned_by(own, p.x + c - 1, p.y + r - 1, idx) {
            1int
        } else {
            0int
        }
}

/// Sum of the two by two block whose upper left cell is in column `x` and
/// row `y`.
pub open spec fn block_sum(f: spec_fn(int, int) -> int, x: int, y: int) -> int {
    f(y, x) + f(y + 1, x) + f(y, x + 1) + f(y + 1, x + 1)
}

/// Whether one of the two diagonals of the block sums up to two.
pub open spec fn block_diagonal(f: spec_fn(int, int) -> int, x: int, y: int) -> bool {
    f(y + 1, x + 1) + f(y, x) == 2 || f(y + 1, x) + f(y, x + 1) == 2
}

/// One if the block sums up to one.
pub open spec fn block_single(f: spec_fn(int, int) -> int, x: int, y: int) -> int {
    if block_sum(f, x, y) == 1 { 1 } else { 0 }
}

/// One if the block sums up to three.
pub open spec fn block_triple(f: spec_fn(int, int) -> int, x: int, y: int) -> int {
    if block_sum(f, x, y) == 3 { 1 } else { 0 }
}

/// One if the block sums up to two along a diagonal.
pub open spec fn block_cross(f: spec_fn(int, int) -> int, x: int, y: int) -> int {
    if block_sum(f, x, y) == 2 && block_diagonal(f, x, y) { 1 } else { 0 }
}

/// The pattern counts of a window over its four two by two blocks: blocks
/// with one set cell, blocks with three, and blocks with two set cells on a
/// diagonal.
pub open spec fn pattern_counts(f: spec_fn(int, int) -> int) -> (int, int, int) {
    (
        block_single(f, 0, 0) + block_single(f, 0, 1) + block_single(f, 1, 0) + block_single(f, 1, 1),
        block_triple(f, 0, 0) + block_triple(f, 0, 1) + block_triple(f, 1, 0) + block_triple(f, 1, 1),
        block_cross(f, 0, 0) + block_cross(f, 0, 1) + block_cross(f, 1, 0) + block_cross(f, 1, 1),
    )
}

/// Four times the change of the genus when the centre of the window turns
/// from unset to set.
pub open spec fn genus_step(before: spec_fn(int, int) -> int, after: spec_fn(int, int) -> int) -> int {
    let b = pattern_counts(before);
    let a = pattern_counts(after);
    (a.0 - b.0) - (a.1 - b.1) + 2 * (a.2 - b.2)
}

/// The mathematical value of a [`NumHoles`]: the accumulated genus, counted
/// in quarters, and the region it is counted for.
pub struct Genus {
    pub quarters: int,
    pub reg_idx: usize,
}

/// Hole count of a region, kept as the genus of its pixel set.
#[derive(Debug, Clone)]
pub struct NumHoles {
    quarters: i64,
    reg_idx: usize,
}

/// Writes into `m` which cells around `p` region `self_reg_idx` owns: one
/// for an owned cell, zero for another cell of the grid. Window cells that
/// fall outside the grid keep their value.
pub fn fill_mat(p: Point, m: &mut Matrix, reg_image: &Image<Option<usize>>, self_reg_idx: usize)
    requires
        i32::MIN < p.x < i32::MAX,
        i32::MIN < p.y < i32::MAX,
    ensures
        forall|r: int, c: int|
            0 <= r < 3 && 0 <= c < 3 ==> #[trigger] cells_of(*final(m))(r, c) == if reg_image@.inside(
                p.x + c - 1,
                p.y + r - 1,
            ) {
                if owned_by(reg_image@, p.x + c - 1, p.y + r - 1, self_reg_idx) {
                    1int
                } else {
                    0int
                }
            } else {
                cells_of(*old(m))(r, c)
            },
{
    let mut cx: usize = 0;
    while cx < 3
        invariant
            cx <= 3,
            i32::MIN < p.x < i32::MAX,
            i32::MIN < p.y < i32::MAX,
            forall|r: int, c: int|
                0 <= r < 3 && 0 <= c < 3 ==> #[trigger] cells_of(*m)(r, c) == if c < cx && reg_image@.inside(
                    p.x + c - 1,
                    p.y + r - 1,
                ) {
                    if owned_by(reg_image@, p.x + c - 1, p.y + r - 1, self_reg_idx) {
                        1int
                    } else {
                        0int
                    }
                } else {
                    cells_of(*old(m))(r, c)
                },
        decreases 3 - cx,
    {
        let mut cy: usize = 0;
        while cy < 3
            invariant
                cx < 3,
                cy <= 3,
                i32::MIN < p.x < i32::MAX,
                i32::MIN < p.y < i32::MAX,
                forall|r: int, c: int|
                    0 <= r < 3 && 0 <= c < 3 ==> #[trigger] cells_of(*m)(r, c) == if (c < cx || (c == cx && r < cy))
                        && reg_image@.inside(p.x + c - 1, p.y + r - 1) {
                        if owned_by(reg_image@, p.x + c - 1, p.y + r - 1, self_reg_idx) {
                            1int
                        } else {
                            0int
                        }
                    } else {
                        cells_of(*old(m))(r, c)
                    },
            decreases 3 - cy,
        {
            let qx: i32 = p.x - 1 + (cx as i32);
            let qy: i32 = p.y - 1 + (cy as i32);
            if reg_image.inside(qx, qy) {
                let v: i32 = if is_owned_by(reg_image, qx, qy, self_reg_idx) { 1 } else { 0 };
                let ghost prev = *m;
                m[cy][cx] = v;
                assert forall|r: int, c: int| 0 <= r < 3 && 0 <= c < 3 implies #[trigger] cells_of(*m)(r, c) == if r
                    == cy && c == cx {
                    v as int
                } else {
                    cells_of(prev)(r, c)
                } by {}
            }
            cy += 1;
        }
        cx += 1;
    }
}

/// Counts, over the four two by two blocks of `m`, the blocks with one set
/// cell, with three set cells, and with two set cells on a diagonal.
pub fn count_patterns(m: &Matrix) -> (r: (i32, i32, i32))
    ensures
        (r.0 as int, r.1 as int, r.2 as int) == pattern_counts(cells_of(*m)),
{
    let ghost f = cells_of(*m);
    let mut c1: i32 = 0;
    let mut c3: i32 = 0;
    let mut cd: i32 = 0;
    let mut x: usize = 0;
    while x < 2
        invariant
            x <= 2,
            f == cells_of(*m),
            c1 == (if x > 0 { block_single(f, 0, 0) + block_single(f, 0, 1) } else { 0 }) + (if x > 1 {
                block_single(f, 1, 0) + block_single(f, 1, 1)
            } else {
                0
            }),
            c3 == (if x > 0 { block_triple(f, 0, 0) + block_triple(f, 0, 1) } else { 0 }) + (if x > 1 {
                block_triple(f, 1, 0) + block_triple(f, 1, 1)
            } else {
                0
            }),
            cd == (if x > 0 { block_cross(f, 0, 0) + block_cross(f, 0, 1) } else { 0 }) + (if x > 1 {
                block_cross(f, 1, 0) + block_cross(f, 1, 1)
            } else {
                0
            }),
        decreases 2 - x,
    {
        let ghost b1 = c1;
        let ghost b3 = c3;
        let ghost bd = cd;
        let mut y: usize = 0;
        while y < 2
            invariant
                x < 2,
                y <= 2,
                f == cells_of(*m),
                0 <= b1 <= 2,
                0 <= b3 <= 2,
                0 <= bd <= 2,
                c1 == b1 + (if y > 0 { block_single(f, x as int, 0) } else { 0 }) + (if y > 1 {
                    block_single(f, x as int, 1)
                } else {
                    0
                }),
                c3 == b3 + (if y > 0 { block_triple(f, x as int, 0) } else { 0 }) + (if y > 1 {
                    block_triple(f, x as int, 1)
                } else {
                    0
                }),
                cd == bd + (if y > 0 { block_cross(f, x as int, 0) } else { 0 }) + (if y > 1 {
                    block_cross(f, x as int, 1)
                } else {
                    0
                }),
            decreases 2 - y,
        {
            let a: i64 = m[y][x] as i64;
            let b: i64 = m[y + 1][x] as i64;
            let c: i64 = m[y][x + 1] as i64;
            let d: i64 = m[y + 1][x + 1] as i64;
            let count: i64 = a + b + c + d;
            assert(count == block_sum(f, x as int, y as int));
            if count == 1 {
                c1 += 1;
            } else if count == 3 {
                c3 += 1;
            } else if count == 2 {
                if (d + a == 2) || (b + c == 2) {
                    cd += 1;
                }
            }
            y += 1;
        }
        x += 1;
    }
    (c1, c3, cd)
}

/// Windows that agree cell by cell have the same pattern counts.
pub proof fn lemma_counts_by_cells(f: spec_fn(int, int) -> int, g: spec_fn(int, int) -> int)
    requires
        f(0, 0) == g(0, 0),
        f(0, 1) == g(0, 1),
        f(0, 2) == g(0, 2),
        f(1, 0) == g(1, 0),
        f(1, 1) == g(1, 1),
        f(1, 2) == g(1, 2),
        f(2, 0) == g(2, 0),
        f(2, 1) == g(2, 1),
        f(2, 2) == g(2, 2),
    ensures
        pattern_counts(f) == pattern_counts(g),
{
    assert(block_sum(f, 0, 0) == block_sum(g, 0, 0));
    assert(block_sum(f, 0, 1) == block_sum(g, 0, 1));
    assert(block_sum(f, 1, 0) == block_sum(g, 1, 0));
    assert(block_sum(f, 1, 1) == block_sum(g, 1, 1));
    assert(block_diagonal(f, 0, 0) == block_diagonal(g, 0, 0));
    assert(block_diagonal(f, 0, 1) == block_diagonal(g, 0, 1));
    assert(block_diagonal(f, 1, 0) == block_diagonal(g, 1, 0));
    assert(block_diagonal(f, 1, 1) == block_diagonal(g, 1, 1));
}

/// Each pattern count lies between zero and four.
pub proof fn lemma_counts_range(f: spec_fn(int, int) -> int)
    ensures
        0 <= pattern_counts(f).0 <= 4,
        0 <= pattern_counts(f).1 <= 4,
        0 <= pattern_counts(f).2 <= 4,
{
}

/// Four times the change of the genus of region `idx` when `p` joins it,
/// from the ownership of the eight cells around `p`.
fn genus_change(p: Point, reg_img: &Image<Option<usize>>, idx: usize) -> (d: i32)
    requires
        i32::MIN < p.x < i32::MAX,
        i32::MIN < p.y < i32::MAX,
    ensures
        d == genus_step(neighbourhood(reg_img@, p, idx, 0), neighbourhood(reg_img@, p, idx, 1)),
        -16 <= d <= 16,
{
    let mut m: Matrix = [[0, 0, 0], [0, 0, 0], [0, 0, 0]];
    let ghost zero = m;
    fill_mat(p, &mut m, reg_img, idx);
    let ghost filled = m;
    let ghost fb = neighbourhood(reg_img@, p, idx, 0);
    let ghost fa = neighbourhood(reg_img@, p, idx, 1);
    proof {
        assert forall|r: int, c: int| 0 <= r < 3 && 0 <= c < 3 && !(r == 1 && c == 1) implies #[trigger] cells_of(
            filled,
        )(r, c) == fb(r, c) && fb(r, c) == fa(r, c) by {
            assert(cells_of(zero)(r, c) == 0);
        }
    }

    m[1][1] = 0;
    let (bc1, bc3, bcd) = count_patterns(&m);
    proof {
        assert forall|r: int, c: int| 0 <= r < 3 && 0 <= c < 3 implies #[trigger] cells_of(m)(r, c) == fb(r, c) by {
            if !(r == 1 && c == 1) {
                assert(cells_of(m)(r, c) == cells_of(filled)(r, c));
            }
        }
        assert(cells_of(m)(0, 0) == fb(0, 0) && cells_of(m)(0, 1) == fb(0, 1) && cells_of(m)(0, 2) == fb(0, 2));
        assert(cells_of(m)(1, 0) == fb(1, 0) && cells_of(m)(1, 1) == fb(1, 1) && cells_of(m)(1, 2) == fb(1, 2));
        assert(cells_of(m)(2, 0) == fb(2, 0) && cells_of(m)(2, 1) == fb(2, 1) && cells_of(m)(2, 2) == fb(2, 2));
        lemma_counts_by_cells(cells_of(m), fb);
        lemma_counts_range(fb);
    }

    m[1][1] = 1;
    let (ac1, ac3, acd) = count_patterns(&m);
    proof {
        assert forall|r: int, c: int| 0 <= r < 3 && 0 <= c < 3 implies #[trigger] cells_of(m)(r, c) == fa(r, c) by {
            if !(r == 1 && c == 1) {
                assert(cells_of(m)(r, c) == cells_of(filled)(r, c));
            }
        }
        assert(cells_of(m)(0, 0) == fa(0, 0) && cells_of(m)(0, 1) == fa(0, 1) && cells_of(m)(0, 2) == fa(0, 2));
        assert(cells_of(m)(1, 0) == fa(1, 0) && cells_of(m)(1, 1) == fa(1, 1) && cells_of(m)(1, 2) == fa(1, 2));
        assert(cells_of(m)(2, 0) == fa(2, 0) && cells_of(m)(2, 1) == fa(2, 1) && cells_of(m)(2, 2) == fa(2, 2));
        lemma_counts_by_cells(cells_of(m), fa);
        lemma_counts_range(fa);
    }

    let dc1: i32 = ac1 - bc1;
    let dc3: i32 = ac3 - bc3;
    let dcd: i32 = acd - bcd;
    dc1 - dc3 + 2 * dcd
}

impl NumHoles {
    /// Four times the accumulated genus.
    pub fn quarters(&self) -> (q: i64)
        ensures
            q == self.model().quarters,
    {
        self.quarters
    }

    /// The index of the region that the genus is counted for.
    pub fn reg_idx(&self) -> (i: usize)
        ensures
            i == self.model().reg_idx,
    {
        self.reg_idx
    }
}

impl Incremental for NumHoles {
    type Model = Genus;

    closed spec fn model(&self) -> Genus {
        Genus { quarters: self.quarters as int, reg_idx: self.reg_idx }
    }

    open spec fn wf(&self) -> bool {
        true
    }

    open spec fn within(&self, n: nat) -> bool {
        -16 * n <= self.model().quarters <= 16 * n
    }

    open spec fn spans(&self, p: Point) -> bool {
        true
    }

    open spec fn init_model(p: Point, reg_idx: usize) -> Genus {
        Genus { quarters: 0, reg_idx }
    }

    open spec fn increment_model(m: Genus, p: Point, img: GridView<u8>, own: GridView<Option<usize>>) -> Genus {
        Genus {
            quarters: m.quarters + genus_step(
                neighbourhood(own, p, m.reg_idx, 0),
                neighbourhood(own, p, m.reg_idx, 1),
            ),
            ..m
        }
    }

    open spec fn merge_model(m: Genus, other: Genus) -> Genus {
        Genus { quarters: m.quarters + other.quarters, ..m }
    }

    proof fn lemma_within_more(&self, n: nat, m: nat) {
    }

    fn init(p: Point, reg_idx: usize) -> (s: Self) {
        NumHoles { quarters: 0, reg_idx }
    }

    fn snapshot(&self) -> (s: Self) {
        NumHoles { quarters: self.quarters, reg_idx: self.reg_idx }
    }

    fn increment(&mut self, p: Point, img: &Image<u8>, reg_img: &Image<Option<usize>>) {
        let diff: i32 = genus_change(p, reg_img, self.reg_idx);
        self.quarters += diff as i64;
    }

    fn merge(&mut self, other: &Self, img: &Image<u8>, reg_img: &Image<Option<usize>>) {
        let ghost (na, nb) = choose|a: nat, b: nat|
            #[trigger] old(self).within(a) && #[trigger] other.within(b) && a + b <= MAX_PIXELS;
        self.quarters += other.quarters;
    }
}

impl Feature for NumHoles {
    /// One minus the genus: one for a region without holes.
    open spec fn values(&self) -> Seq<Ratio> {
        seq![Ratio { num: (4 - self.model().quarters) as i64, den: 4 }]
    }


    fn value(&self, out: &mut Vec<Ratio>) {
        out.push(Ratio::new(4 - self.quarters, 4));
    }
}

} // verus!
