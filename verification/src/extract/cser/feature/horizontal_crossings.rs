use std::collections::VecDeque;
use vstd::prelude::*;

use super::feature::Feature;
use crate::extract::cser::incremental::{is_owned_by, owned_by, Incremental, MAX_PIXELS};
use crate::image::{GridView, Image};
use crate::structures::{Point, Ratio};

verus! {

/// The mathematical value of a [`HorizontalCrossings`]: one crossing count
/// per scanline from `y_top` down to `y_btm`.
pub struct Crossings {
    pub rows: Seq<int>,
    pub y_top: int,
    pub y_btm: int,
    pub reg_idx: usize,
}

impl Crossings {
    /// There is one count for each scanline of the range.
    pub open spec fn wf(self) -> bool {
        self.rows.len() == self.y_btm - self.y_top + 1
    }

    /// The count of scanline `y`; zero outside the range.
    pub open spec fn row(self, y: int) -> int {
        if self.y_top <= y <= self.y_btm {
            self.rows[y - self.y_top]
        } else {
            0
        }
    }

    /// The range of two states that both have rows, joined, with the counts
    /// of each scanline added up.
    pub open spec fn merged(self, o: Crossings) -> Crossings {
        let top = if self.y_top <= o.y_top { self.y_top } else { o.y_top };
        let btm = if self.y_btm >= o.y_btm { self.y_btm } else { o.y_btm };
        Crossings {
            rows: Seq::new((btm - top + 1) as nat, |i: int| self.row(top + i) + o.row(top + i)),
            y_top: top,
            y_btm: btm,
            reg_idx: self.reg_idx,
        }
    }

    /// The state after a pixel on scanline `y` has been added whose two
    /// horizontal neighbours contribute `t`: a new row in front or behind
    /// when `y` lies outside the range, else `t` added to the row of `y`.
    pub open spec fn grown(self, y: int, t: int) -> Crossings {
        if y < self.y_top {
            Crossings { rows: seq![t] + self.rows, y_top: y, ..self }
        } else if y > self.y_btm {
            Crossings { rows: self.rows.push(t), y_btm: y, ..self }
        } else {
            Crossings { rows: self.rows.update(y - self.y_top, self.rows[y - self.y_top] + t), ..self }
        }
    }
}

/// What the left and right neighbours of `p` contribute to the count of its
/// scanline: plus one for each that region `idx` owns, minus one for each
/// that it does not.
pub open spec fn transitions(own: GridView<Option<usize>>, p: Point, idx: usize) -> int {
    (if owned_by(own, p.x - 1, p.y as int, idx) { 1int } else { -1int })
    + (if owned_by(own, p.x + 1, p.y as int, idx) { 1int } else { -1int })
}

/// The middle one of three numbers.
pub open spec fn median3(a: int, b: int, c: int) -> int {
    if (a <= b && b <= c) || (c <= b && b <= a) {
        b
    } else if (b <= a && a <= c) || (c <= a && a <= b) {
        a
    } else {
        c
    }
}

/// The representative crossing count of a region: nothing for no row, the
/// single count for one row, else the median of the counts found 17, 50 and
/// 83 hundredths of the way through the rows.
pub open spec fn crossings_value(rows: Seq<int>) -> int {
    let n = rows.len() as int;
    if n == 0 {
        0
    } else if n == 1 {
        rows[0]
    } else {
        median3(rows[(17 * n) / 100], rows[(50 * n) / 100], rows[(83 * n) / 100])
    }
}

/// Per-scanline counts of the horizontal stroke crossings of a region.
#[derive(Debug, Clone, Eq, PartialEq)]
pub struct HorizontalCrossings {
    num_crossings: VecDeque<i32>,
    y_top: i32,
    y_btm: i32,
    reg_idx: usize,
}

/// `VecDeque`'s `IndexMut`: the element at position `i`, which must exist,
/// is overwritten by `v` and nothing else changes.
#[verifier::external_body]
fn deque_set(d: &mut VecDeque<i32>, i: usize, v: i32)
    requires
        i < old(d)@.len(),
    ensures
        final(d)@ == old(d)@.update(i as int, v),
{
    d[i] = v;
}

impl HorizontalCrossings {
    /// A state with the given counts for the scanlines `y_top..=y_btm`, if
    /// there is exactly one count per scanline.
    pub fn from_rows(rows: Vec<i32>, y_top: i32, y_btm: i32, reg_idx: usize) -> (r: Option<Self>)
        ensures
            r is Some <==> rows@.len() == y_btm - y_top + 1,
            r matches Some(hc) ==> hc.wf() && hc.model() == (Crossings {
                rows: rows@.map_values(|v: i32| v as int),
                y_top: y_top as int,
                y_btm: y_btm as int,
                reg_idx,
            }),
    {
        let span: i64 = y_btm as i64 - y_top as i64 + 1;
        if span < 0 || rows.len() as u64 != span as u64 {
            return None;
        }
        let mut d: VecDeque<i32> = VecDeque::new();
        let mut i: usize = 0;
        while i < rows.len()
            invariant
                i <= rows.len(),
                d@ == rows@.subrange(0, i as int),
            decreases rows.len() - i,
        {
            d.push_back(rows[i]);
            i += 1;
        }
        assert(d@ == rows@);
        Some(HorizontalCrossings { num_crossings: d, y_top, y_btm, reg_idx })
    }

    /// The counts, from the top scanline down.
    pub fn rows(&self) -> (r: Vec<i32>)
        ensures
            r@.map_values(|v: i32| v as int) == self.model().rows,
    {
        let mut out: Vec<i32> = Vec::new();
        let mut i: usize = 0;
        while i < self.num_crossings.len()
            invariant
                i <= self.num_crossings.len(),
                out@ == self.num_crossings@.subrange(0, i as int),
            decreases self.num_crossings.len() - i,
        {
            out.push(self.num_crossings[i]);
            i += 1;
        }
        assert(out@ == self.num_crossings@);
        out
    }

    /// The first scanline of the range.
    pub fn y_top(&self) -> (y: i32)
        ensures
            y == self.model().y_top,
    {
        self.y_top
    }

    /// The last scanline of the range.
    pub fn y_btm(&self) -> (y: i32)
        ensures
            y == self.model().y_btm,
    {
        self.y_btm
    }

    /// The index of the region that the counts belong to.
    pub fn reg_idx(&self) -> (i: usize)
        ensures
            i == self.model().reg_idx,
    {
        self.reg_idx
    }
}

impl Incremental for HorizontalCrossings {
    type Model = Crossings;

    closed spec fn model(&self) -> Crossings {
        Crossings {
            rows: self.num_crossings@.map_values(|v: i32| v as int),
            y_top: self.y_top as int,
            y_btm: self.y_btm as int,
            reg_idx: self.reg_idx,
        }
    }

    open spec fn wf(&self) -> bool {
        self.model().wf()
    }

    open spec fn within(&self, n: nat) -> bool {
        forall|i: int| 0 <= i < self.model().rows.len() ==> -2 * n <= #[trigger] self.model().rows[i] <= 2 * n
    }

    open spec fn spans(&self, p: Point) -> bool {
        self.model().y_top <= p.y <= self.model().y_btm
    }

    open spec fn init_model(p: Point, reg_idx: usize) -> Crossings {
        Crossings { rows: seq![2int], y_top: p.y as int, y_btm: p.y as int, reg_idx }
    }

    open spec fn increment_model(
        m: Crossings,
        p: Point,
        img: GridView<u8>,
        own: GridView<Option<usize>>,
    ) -> Crossings {
        m.grown(p.y as int, transitions(own, p, m.reg_idx))
    }

    open spec fn merge_model(m: Crossings, other: Crossings) -> Crossings {
        m.merged(other)
    }

    proof fn lemma_within_more(&self, n: nat, m: nat) {
    }

    fn init(p: Point, reg_idx: usize) -> (s: Self) {
        let mut nc: VecDeque<i32> = VecDeque::new();
        nc.push_back(2);
        let s = HorizontalCrossings { num_crossings: nc, y_top: p.y, y_btm: p.y, reg_idx };
        assert(s.model().rows =~= seq![2int]);
        s
    }

    fn snapshot(&self) -> (s: Self) {
        let mut d: VecDeque<i32> = VecDeque::new();
        let mut i: usize = 0;
        while i < self.num_crossings.len()
            invariant
                i <= self.num_crossings.len(),
                d@ == self.num_crossings@.subrange(0, i as int),
            decreases self.num_crossings.len() - i,
        {
            d.push_back(self.num_crossings[i]);
            i += 1;
        }
        assert(d@ == self.num_crossings@);
        HorizontalCrossings { num_crossings: d, y_top: self.y_top, y_btm: self.y_btm, reg_idx: self.reg_idx }
    }

    fn increment(&mut self, p: Point, img: &Image<u8>, reg_img: &Image<Option<usize>>) {
        let ghost before = self.model();
        let ghost q = choose|q: Point| old(self).spans(q) && #[trigger] q.adjacent(p);
        let mut transitions: i32 = 0;
        if is_owned_by(reg_img, p.x - 1, p.y, self.reg_idx) {
            transitions += 1;
        } else {
            transitions -= 1;
        }
        if is_owned_by(reg_img, p.x + 1, p.y, self.reg_idx) {
            transitions += 1;
        } else {
            transitions -= 1;
        }
        if p.y < self.y_top {
            self.y_top = p.y;
            self.num_crossings.push_front(transitions);
            assert(self.model().rows =~= seq![transitions as int] + before.rows);
        } else if p.y > self.y_btm {
            self.y_btm = p.y;
            self.num_crossings.push_back(transitions);
            assert(self.model().rows =~= before.rows.push(transitions as int));
        } else {
            let i: usize = (p.y as i64 - self.y_top as i64) as usize;
            let cur: i32 = self.num_crossings[i];
            assert(before.rows[i as int] == cur);
            deque_set(&mut self.num_crossings, i, cur + transitions);
            assert(self.model().rows =~= before.rows.update(i as int, cur + transitions));
        }
        assert forall|n: nat| #[trigger] old(self).within(n) implies self.within(n + 1) by {
            assert forall|i: int| 0 <= i < self.model().rows.len() implies -2 * (n + 1) <= #[trigger] self.model().rows[i] <= 2 * (n + 1) by {
                if p.y < before.y_top {
                    if i > 0 {
                        assert(self.model().rows[i] == before.rows[i - 1]);
                    }
                } else if p.y > before.y_btm {
                    if i < before.rows.len() {
                        assert(self.model().rows[i] == before.rows[i]);
                    }
                } else {
                    assert(before.rows[i] == before.rows[i]);
                }
            }
        }
    }

    fn merge(&mut self, other: &Self, img: &Image<u8>, reg_img: &Image<Option<usize>>) {
        let ghost before = self.model();
        let ghost om = other.model();
        let ghost (na, nb) = choose|a: nat, b: nat|
            #[trigger] old(self).within(a) && #[trigger] other.within(b) && a + b <= MAX_PIXELS;
        let ghost (q, r) = choose|q: Point, r: Point|
            old(self).spans(q) && other.spans(r) && #[trigger] q.adjacent(r);
        let s_top: i64 = self.y_top as i64;
        let s_btm: i64 = self.y_btm as i64;
        let o_top: i64 = other.y_top as i64;
        let o_btm: i64 = other.y_btm as i64;
        let o_len: usize = other.num_crossings.len();

        // Scanlines that both states have.
        let a: i64 = if s_top >= o_top { s_top } else { o_top };
        let b: i64 = if s_btm <= o_btm { s_btm } else { o_btm };
        let mut y: i64 = a;
        while y <= b
            invariant
                a <= y,
                y <= b + 1 || b < a,
                s_top <= a,
                o_top <= a,
                b <= s_btm,
                b <= o_btm,
                s_top == before.y_top,
                s_btm == before.y_btm,
                o_top == om.y_top,
                o_btm == om.y_btm,
                before.wf(),
                om.wf(),
                om == other.model(),
                old(self).within(na),
                other.within(nb),
                na + nb <= MAX_PIXELS,
                before == old(self).model(),
                self.y_top == old(self).y_top,
                self.y_btm == old(self).y_btm,
                self.reg_idx == old(self).reg_idx,
                self.num_crossings@.len() == before.rows.len(),
                forall|k: int|
                    0 <= k < before.rows.len() ==> #[trigger] self.num_crossings@[k] == before.rows[k] + (if a
                        <= s_top + k < y {
                        om.row(s_top + k)
                    } else {
                        0
                    }),
            decreases b + 1 - y,
        {
            let is: usize = (y - s_top) as usize;
            let io: usize = (y - o_top) as usize;
            let mine: i32 = self.num_crossings[is];
            let theirs: i32 = other.num_crossings[io];
            assert(om.rows[io as int] == theirs);
            assert(before.rows[is as int] == before.rows[is as int]);
            deque_set(&mut self.num_crossings, is, mine + theirs);
            y += 1;
        }
        let ghost summed = self.num_crossings@;

        // Scanlines that only the other state has, above.
        let d: i64 = s_top - o_top;
        if d > 0 {
            let mut i: i64 = d;
            while i > 0
                invariant
                    0 <= i <= d,
                    d <= o_len,
                    o_len == other.num_crossings@.len(),
                    self.y_top == old(self).y_top,
                    self.y_btm == old(self).y_btm,
                    self.reg_idx == old(self).reg_idx,
                    self.num_crossings@ == other.num_crossings@.subrange(i as int, d as int) + summed,
                decreases i,
            {
                i -= 1;
                self.num_crossings.push_front(other.num_crossings[i as usize]);
            }
        }
        if o_top < s_top {
            self.y_top = other.y_top;
        }
        let ghost fronted = self.num_crossings@;

        // Scanlines that only the other state has, below.
        let d2: i64 = o_btm - s_btm;
        if d2 > 0 {
            let mut j: usize = o_len - (d2 as usize);
            while j < o_len
                invariant
                    o_len - d2 <= j <= o_len,
                    0 < d2 <= o_len,
                    o_len == other.num_crossings@.len(),
                    self.y_top == if o_top < s_top { other.y_top } else { old(self).y_top },
                    self.y_btm == old(self).y_btm,
                    self.reg_idx == old(self).reg_idx,
                    self.num_crossings@ == fronted + other.num_crossings@.subrange(o_len - d2, j as int),
                decreases o_len - j,
            {
                self.num_crossings.push_back(other.num_crossings[j]);
                j += 1;
            }
        }
        if o_btm > s_btm {
            self.y_btm = other.y_btm;
        }
        proof {
            let target = before.merged(om);
            let got = self.model();
            assert(got.rows.len() == target.rows.len());
            assert forall|k: int| 0 <= k < got.rows.len() implies got.rows[k] == target.rows[k] by {
                let front = if d > 0 { d as int } else { 0int };
                if k < front {
                    assert(self.num_crossings@[k] == other.num_crossings@[k]);
                } else if k < front + summed.len() {
                    assert(self.num_crossings@[k] == summed[k - front]);
                } else {
                    assert(self.num_crossings@[k] == other.num_crossings@[o_len - d2 + (k - front - summed.len())]);
                }
            }
            assert(got.rows =~= target.rows);
            assert forall|x: nat, z: nat| #[trigger] old(self).within(x) && #[trigger] other.within(z) implies self.within(
                x + z,
            ) by {
                assert forall|k: int| 0 <= k < got.rows.len() implies -2 * (x + z) <= #[trigger] got.rows[k] <= 2 * (x
                    + z) by {
                    let yy = target.y_top + k;
                    if before.y_top <= yy <= before.y_btm {
                        assert(-2 * x <= before.rows[yy - before.y_top] <= 2 * x);
                    }
                    if om.y_top <= yy <= om.y_btm {
                        assert(-2 * z <= om.rows[yy - om.y_top] <= 2 * z);
                    }
                }
            }
        }
    }
}

impl Feature for HorizontalCrossings {
    open spec fn values(&self) -> Seq<Ratio> {
        seq![Ratio { num: crossings_value(self.model().rows) as i64, den: 1 }]
    }


    fn value(&self, out: &mut Vec<Ratio>) {
        let n: usize = self.num_crossings.len();
        let res: i32 = if n == 0 {
            0
        } else if n == 1 {
            self.num_crossings[0]
        } else {
            let i17: usize = ((n as u128 * 17) / 100) as usize;
            let i50: usize = ((n as u128 * 50) / 100) as usize;
            let i83: usize = ((n as u128 * 83) / 100) as usize;
            let a: i32 = self.num_crossings[i17];
            let b: i32 = self.num_crossings[i50];
            let c: i32 = self.num_crossings[i83];
            if (a <= b && b <= c) || (c <= b && b <= a) {
                b
            } else if (b <= a && a <= c) || (c <= a && a <= b) {
                a
            } else {
                c
            }
        };
        out.push(Ratio::from_int(res as i64));
    }
}

} // verus!
