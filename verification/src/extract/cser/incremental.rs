use vstd::prelude::*;

use crate::image::{GridView, Image};
use crate::structures::Point;

verus! {

/// The largest number of pixels that one accumulated state may stand for.
/// The counters of the features are 32 bits wide and grow by up to four per
/// pixel.
pub const MAX_PIXELS: usize = 0x1FFF_FFFF;

/// Whether `(x, y)` is a cell of the ownership grid that region `idx` owns.
pub open spec fn owned_by(own: GridView<Option<usize>>, x: int, y: int, idx: usize) -> bool {
    own.inside(x, y) && own.at(x, y) == Some(idx)
}

/// Whether `(x, y)` is a cell of `reg_img` that region `idx` owns.
pub fn is_owned_by(reg_img: &Image<Option<usize>>, x: i32, y: i32, idx: usize) -> (b: bool)
    ensures
        b == owned_by(reg_img@, x as int, y as int, idx),
{
    if reg_img.inside(x, y) {
        match reg_img.pixel(x, y) {
            Some(owner) => owner == idx,
            None => false,
        }
    } else {
        false
    }
}

/// State that is built up pixel by pixel and can absorb another state of
/// its kind, without looking at the pixels it stands for again.
pub trait Incremental: Sized {
    /// The mathematical value of the state.
    type Model;

    spec fn model(&self) -> Self::Model;

    /// The state is consistent in itself.
    spec fn wf(&self) -> bool;

    /// No counter of the state exceeds what `n` accumulated pixels can have
    /// contributed.
    spec fn within(&self, n: nat) -> bool;

    /// `p` lies in the extent that the state has recorded for its pixels.
    spec fn spans(&self, p: Point) -> bool;

    /// The state of a region that consists of `p` alone.
    spec fn init_model(p: Point, reg_idx: usize) -> Self::Model;

    /// The state after `p` has joined the region. `own` is the ownership
    /// grid from before `p` is marked in it.
    spec fn increment_model(
        m: Self::Model,
        p: Point,
        img: GridView<u8>,
        own: GridView<Option<usize>>,
    ) -> Self::Model;

    /// The state after a region in state `other` has been absorbed.
    spec fn merge_model(m: Self::Model, other: Self::Model) -> Self::Model;

    /// A bound that holds for `n` pixels holds for more.
    proof fn lemma_within_more(&self, n: nat, m: nat)
        requires
            self.within(n),
            n <= m,
        ensures
            self.within(m),
    ;

    /// Starts the state of a region with index `reg_idx` from its first
    /// pixel.
    fn init(p: Point, reg_idx: usize) -> (s: Self)
        ensures
            s.wf(),
            s.model() == Self::init_model(p, reg_idx),
            s.within(1),
            s.spans(p),
    ;

    /// A copy of the state as it stands.
    fn snapshot(&self) -> (s: Self)
        ensures
            s.model() == self.model(),
            s.wf() == self.wf(),
            forall|n: nat| #[trigger] s.within(n) == self.within(n),
            forall|p: Point| #[trigger] s.spans(p) == self.spans(p),
    ;

    /// Accounts for the pixel `p` of `img`, which borders on the region.
    fn increment(&mut self, p: Point, img: &Image<u8>, reg_img: &Image<Option<usize>>)
        requires
            old(self).wf(),
            old(self).within((MAX_PIXELS - 1) as nat),
            exists|q: Point| old(self).spans(q) && #[trigger] q.adjacent(p),
            img@.inside(p.x as int, p.y as int),
            img@.addressable(),
        ensures
            final(self).wf(),
            final(self).model() == Self::increment_model(old(self).model(), p, img@, reg_img@),
            forall|n: nat| #[trigger] old(self).within(n) ==> final(self).within(n + 1),
            final(self).spans(p),
            forall|q: Point| old(self).spans(q) ==> #[trigger] final(self).spans(q),
    ;

    /// Absorbs the state of another region that touches this one.
    fn merge(&mut self, other: &Self, img: &Image<u8>, reg_img: &Image<Option<usize>>)
        requires
            old(self).wf(),
            other.wf(),
            exists|a: nat, b: nat|
                #[trigger] old(self).within(a) && #[trigger] other.within(b) && a + b <= MAX_PIXELS,
            exists|q: Point, r: Point| old(self).spans(q) && other.spans(r) && #[trigger] q.adjacent(r),
        ensures
            final(self).wf(),
            final(self).model() == Self::merge_model(old(self).model(), other.model()),
            forall|a: nat, b: nat|
                #[trigger] old(self).within(a) && #[trigger] other.within(b) ==> final(self).within(a + b),
            forall|q: Point| old(self).spans(q) || other.spans(q) ==> #[trigger] final(self).spans(q),
    ;
}

} // verus!
