use vstd::prelude::*;

use super::feature::Feature;
use crate::extract::cser::incremental::{Incremental, MAX_PIXELS};
use crate::image::{GridView, Image};
use crate::structures::{Point, Ratio};

verus! {

/// A pair of states is a state: every operation goes to each member, in
/// order.
impl<A: Incremental, B: Incremental> Incremental for (A, B) {
    type Model = (A::Model, B::Model);

    open spec fn model(&self) -> (A::Model, B::Model) {
        (self.0.model(), self.1.model())
    }

    open spec fn wf(&self) -> bool {
        self.0.wf() && self.1.wf()
    }

    open spec fn within(&self, n: nat) -> bool {
        self.0.within(n) && self.1.within(n)
    }

    open spec fn spans(&self, p: Point) -> bool {
        self.0.spans(p) && self.1.spans(p)
    }

    open spec fn init_model(p: Point, reg_idx: usize) -> (A::Model, B::Model) {
        (A::init_model(p, reg_idx), B::init_model(p, reg_idx))
    }

    open spec fn increment_model(
        m: (A::Model, B::Model),
        p: Point,
        img: GridView<u8>,
        own: GridView<Option<usize>>,
    ) -> (A::Model, B::Model) {
        (A::increment_model(m.0, p, img, own), B::increment_model(m.1, p, img, own))
    }

    open spec fn merge_model(m: (A::Model, B::Model), other: (A::Model, B::Model)) -> (A::Model, B::Model) {
        (A::merge_model(m.0, other.0), B::merge_model(m.1, other.1))
    }

    proof fn lemma_within_more(&self, n: nat, m: nat) {
        self.0.lemma_within_more(n, m);
        self.1.lemma_within_more(n, m);
    }

    fn init(p: Point, reg_idx: usize) -> (s: Self) {
        (A::init(p, reg_idx), B::init(p, reg_idx))
    }

    fn snapshot(&self) -> (s: Self) {
        (self.0.snapshot(), self.1.snapshot())
    }

    fn increment(&mut self, p: Point, img: &Image<u8>, reg_img: &Image<Option<usize>>) {
        let ghost q = choose|q: Point| old(self).spans(q) && #[trigger] q.adjacent(p);
        assert(old(self).0.spans(q) && q.adjacent(p));
        self.0.increment(p, img, reg_img);
        assert(old(self).1.spans(q) && q.adjacent(p));
        self.1.increment(p, img, reg_img);
    }

    fn merge(&mut self, other: &Self, img: &Image<u8>, reg_img: &Image<Option<usize>>) {
        let ghost (na, nb) = choose|a: nat, b: nat|
            #[trigger] old(self).within(a) && #[trigger] other.within(b) && a + b <= MAX_PIXELS;
        let ghost (q, r) = choose|q: Point, r: Point|
            old(self).spans(q) && other.spans(r) && #[trigger] q.adjacent(r);
        assert(old(self).0.within(na) && other.0.within(nb) && na + nb <= MAX_PIXELS);
        assert(old(self).0.spans(q) && other.0.spans(r) && q.adjacent(r));
        self.0.merge(&other.0, img, reg_img);
        assert(old(self).1.within(na) && other.1.within(nb) && na + nb <= MAX_PIXELS);
        assert(old(self).1.spans(q) && other.1.spans(r) && q.adjacent(r));
        self.1.merge(&other.1, img, reg_img);
    }
}

/// A pair of features is read out member by member, in order.
impl<A: Feature, B: Feature> Feature for (A, B) {
    open spec fn values(&self) -> Seq<Ratio> {
        self.0.values() + self.1.values()
    }


    fn value(&self, out: &mut Vec<Ratio>) {
        self.0.value(out);
        self.1.value(out);
    }
}

/// A triple of states is a state: every operation goes to each member, in
/// order.
impl<A: Incremental, B: Incremental, C: Incremental> Incremental for (A, B, C) {
    type Model = (A::Model, B::Model, C::Model);

    open spec fn model(&self) -> (A::Model, B::Model, C::Model) {
        (self.0.model(), self.1.model(), self.2.model())
    }

    open spec fn wf(&self) -> bool {
        self.0.wf() && self.1.wf() && self.2.wf()
    }

    open spec fn within(&self, n: nat) -> bool {
        self.0.within(n) && self.1.within(n) && self.2.within(n)
    }

    open spec fn spans(&self, p: Point) -> bool {
        self.0.spans(p) && self.1.spans(p) && self.2.spans(p)
    }

    open spec fn init_model(p: Point, reg_idx: usize) -> (A::Model, B::Model, C::Model) {
        (A::init_model(p, reg_idx), B::init_model(p, reg_idx), C::init_model(p, reg_idx))
    }

    open spec fn increment_model(
        m: (A::Model, B::Model, C::Model),
        p: Point,
        img: GridView<u8>,
        own: GridView<Option<usize>>,
    ) -> (A::Model, B::Model, C::Model) {
        (A::increment_model(m.0, p, img, own), B::increment_model(m.1, p, img, own), C::increment_model(m.2, p, img, own))
    }

    open spec fn merge_model(m: (A::Model, B::Model, C::Model), other: (A::Model, B::Model, C::Model)) -> (A::Model, B::Model, C::Model) {
        (A::merge_model(m.0, other.0), B::merge_model(m.1, other.1), C::merge_model(m.2, other.2))
    }

    proof fn lemma_within_more(&self, n: nat, m: nat) {
        self.0.lemma_within_more(n, m);
        self.1.lemma_within_more(n, m);
        self.2.lemma_within_more(n, m);
    }

    fn init(p: Point, reg_idx: usize) -> (s: Self) {
        (A::init(p, reg_idx), B::init(p, reg_idx), C::init(p, reg_idx))
    }

    fn snapshot(&self) -> (s: Self) {
        (self.0.snapshot(), self.1.snapshot(), self.2.snapshot())
    }

    fn increment(&mut self, p: Point, img: &Image<u8>, reg_img: &Image<Option<usize>>) {
        let ghost q = choose|q: Point| old(self).spans(q) && #[trigger] q.adjacent(p);
        assert(old(self).0.spans(q) && q.adjacent(p));
        self.0.increment(p, img, reg_img);
        assert(old(self).1.spans(q) && q.adjacent(p));
        self.1.increment(p, img, reg_img);
        assert(old(self).2.spans(q) && q.adjacent(p));
        self.2.increment(p, img, reg_img);
    }

    fn merge(&mut self, other: &Self, img: &Image<u8>, reg_img: &Image<Option<usize>>) {
        let ghost (na, nb) = choose|a: nat, b: nat|
            #[trigger] old(self).within(a) && #[trigger] other.within(b) && a + b <= MAX_PIXELS;
        let ghost (q, r) = choose|q: Point, r: Point|
            old(self).spans(q) && other.spans(r) && #[trigger] q.adjacent(r);
        assert(old(self).0.within(na) && other.0.within(nb) && na + nb <= MAX_PIXELS);
        assert(old(self).0.spans(q) && other.0.spans(r) && q.adjacent(r));
        self.0.merge(&other.0, img, reg_img);
        assert(old(self).1.within(na) && other.1.within(nb) && na + nb <= MAX_PIXELS);
        assert(old(self).1.spans(q) && other.1.spans(r) && q.adjacent(r));
        self.1.merge(&other.1, img, reg_img);
        assert(old(self).2.within(na) && other.2.within(nb) && na + nb <= MAX_PIXELS);
        assert(old(self).2.spans(q) && other.2.spans(r) && q.adjacent(r));
        self.2.merge(&other.2, img, reg_img);
    }
}

/// A triple of features is read out member by member, in order.
impl<A: Feature, B: Feature, C: Feature> Feature for (A, B, C) {
    open spec fn values(&self) -> Seq<Ratio> {
        self.0.values() + self.1.values() + self.2.values()
    }


    fn value(&self, out: &mut Vec<Ratio>) {
        self.0.value(out);
        self.1.value(out);
        self.2.value(out);
    }
}

/// A quadruple of states is a state: every operation goes to each member, in
/// order.
impl<A: Incremental, B: Incremental, C: Incremental, D: Incremental> Incremental for (A, B, C, D) {
    type Model = (A::Model, B::Model, C::Model, D::Model);

    open spec fn model(&self) -> (A::Model, B::Model, C::Model, D::Model) {
        (self.0.model(), self.1.model(), self.2.model(), self.3.model())
    }

    open spec fn wf(&self) -> bool {
        self.0.wf() && self.1.wf() && self.2.wf() && self.3.wf()
    }

    open spec fn within(&self, n: nat) -> bool {
        self.0.within(n) && self.1.within(n) && self.2.within(n) && self.3.within(n)
    }

    open spec fn spans(&self, p: Point) -> bool {
        self.0.spans(p) && self.1.spans(p) && self.2.spans(p) && self.3.spans(p)
    }

    open spec fn init_model(p: Point, reg_idx: usize) -> (A::Model, B::Model, C::Model, D::Model) {
        (A::init_model(p, reg_idx), B::init_model(p, reg_idx), C::init_model(p, reg_idx), D::init_model(p, reg_idx))
    }

    open spec fn increment_model(
        m: (A::Model, B::Model, C::Model, D::Model),
        p: Point,
        img: GridView<u8>,
        own: GridView<Option<usize>>,
    ) -> (A::Model, B::Model, C::Model, D::Model) {
        (A::increment_model(m.0, p, img, own), B::increment_model(m.1, p, img, own), C::increment_model(m.2, p, img, own), D::increment_model(m.3, p, img, own))
    }

    open spec fn merge_model(m: (A::Model, B::Model, C::Model, D::Model), other: (A::Model, B::Model, C::Model, D::Model)) -> (A::Model, B::Model, C::Model, D::Model) {
        (A::merge_model(m.0, other.0), B::merge_model(m.1, other.1), C::merge_model(m.2, other.2), D::merge_model(m.3, other.3))
    }

    proof fn lemma_within_more(&self, n: nat, m: nat) {
        self.0.lemma_within_more(n, m);
        self.1.lemma_within_more(n, m);
        self.2.lemma_within_more(n, m);
        self.3.lemma_within_more(n, m);
    }

    fn init(p: Point, reg_idx: usize) -> (s: Self) {
        (A::init(p, reg_idx), B::init(p, reg_idx), C::init(p, reg_idx), D::init(p, reg_idx))
    }

    fn snapshot(&self) -> (s: Self) {
        (self.0.snapshot(), self.1.snapshot(), self.2.snapshot(), self.3.snapshot())
    }

    fn increment(&mut self, p: Point, img: &Image<u8>, reg_img: &Image<Option<usize>>) {
        let ghost q = choose|q: Point| old(self).spans(q) && #[trigger] q.adjacent(p);
        assert(old(self).0.spans(q) && q.adjacent(p));
        self.0.increment(p, img, reg_img);
        assert(old(self).1.spans(q) && q.adjacent(p));
        self.1.increment(p, img, reg_img);
        assert(old(self).2.spans(q) && q.adjacent(p));
        self.2.increment(p, img, reg_img);
        assert(old(self).3.spans(q) && q.adjacent(p));
        self.3.increment(p, img, reg_img);
    }

    fn merge(&mut self, other: &Self, img: &Image<u8>, reg_img: &Image<Option<usize>>) {
        let ghost (na, nb) = choose|a: nat, b: nat|
            #[trigger] old(self).within(a) && #[trigger] other.within(b) && a + b <= MAX_PIXELS;
        let ghost (q, r) = choose|q: Point, r: Point|
            old(self).spans(q) && other.spans(r) && #[trigger] q.adjacent(r);
        assert(old(self).0.within(na) && other.0.within(nb) && na + nb <= MAX_PIXELS);
        assert(old(self).0.spans(q) && other.0.spans(r) && q.adjacent(r));
        self.0.merge(&other.0, img, reg_img);
        assert(old(self).1.within(na) && other.1.within(nb) && na + nb <= MAX_PIXELS);
        assert(old(self).1.spans(q) && other.1.spans(r) && q.adjacent(r));
        self.1.merge(&other.1, img, reg_img);
        assert(old(self).2.within(na) && other.2.within(nb) && na + nb <= MAX_PIXELS);
        assert(old(self).2.spans(q) && other.2.spans(r) && q.adjacent(r));
        self.2.merge(&other.2, img, reg_img);
        assert(old(self).3.within(na) && other.3.within(nb) && na + nb <= MAX_PIXELS);
        assert(old(self).3.spans(q) && other.3.spans(r) && q.adjacent(r));
        self.3.merge(&other.3, img, reg_img);
    }
}

/// A quadruple of features is read out member by member, in order.
impl<A: Feature, B: Feature, C: Feature, D: Feature> Feature for (A, B, C, D) {
    open spec fn values(&self) -> Seq<Ratio> {
        self.0.values() + self.1.values() + self.2.values() + self.3.values()
    }


    fn value(&self, out: &mut Vec<Ratio>) {
        self.0.value(out);
        self.1.value(out);
        self.2.value(out);
        self.3.value(out);
    }
}

/// A quintuple of states is a state: every operation goes to each member, in
/// order.
impl<A: Incremental, B: Incremental, C: Incremental, D: Incremental, E: Incremental> Incremental for (A, B, C, D, E) {
    type Model = (A::Model, B::Model, C::Model, D::Model, E::Model);

    open spec fn model(&self) -> (A::Model, B::Model, C::Model, D::Model, E::Model) {
        (self.0.model(), self.1.model(), self.2.model(), self.3.model(), self.4.model())
    }

    open spec fn wf(&self) -> bool {
        self.0.wf() && self.1.wf() && self.2.wf() && self.3.wf() && self.4.wf()
    }

    open spec fn within(&self, n: nat) -> bool {
        self.0.within(n) && self.1.within(n) && self.2.within(n) && self.3.within(n) && self.4.within(n)
    }

    open spec fn spans(&self, p: Point) -> bool {
        self.0.spans(p) && self.1.spans(p) && self.2.spans(p) && self.3.spans(p) && self.4.spans(p)
    }

    open spec fn init_model(p: Point, reg_idx: usize) -> (A::Model, B::Model, C::Model, D::Model, E::Model) {
        (A::init_model(p, reg_idx), B::init_model(p, reg_idx), C::init_model(p, reg_idx), D::init_model(p, reg_idx), E::init_model(p, reg_idx))
    }

    open spec fn increment_model(
        m: (A::Model, B::Model, C::Model, D::Model, E::Model),
        p: Point,
        img: GridView<u8>,
        own: GridView<Option<usize>>,
    ) -> (A::Model, B::Model, C::Model, D::Model, E::Model) {
        (A::increment_model(m.0, p, img, own), B::increment_model(m.1, p, img, own), C::increment_model(m.2, p, img, own), D::increment_model(m.3, p, img, own), E::increment_model(m.4, p, img, own))
    }

    open spec fn merge_model(m: (A::Model, B::Model, C::Model, D::Model, E::Model), other: (A::Model, B::Model, C::Model, D::Model, E::Model)) -> (A::Model, B::Model, C::Model, D::Model, E::Model) {
        (A::merge_model(m.0, other.0), B::merge_model(m.1, other.1), C::merge_model(m.2, other.2), D::merge_model(m.3, other.3), E::merge_model(m.4, other.4))
    }

    proof fn lemma_within_more(&self, n: nat, m: nat) {
        self.0.lemma_within_more(n, m);
        self.1.lemma_within_more(n, m);
        self.2.lemma_within_more(n, m);
        self.3.lemma_within_more(n, m);
        self.4.lemma_within_more(n, m);
    }

    fn init(p: Point, reg_idx: usize) -> (s: Self) {
        (A::init(p, reg_idx), B::init(p, reg_idx), C::init(p, reg_idx), D::init(p, reg_idx), E::init(p, reg_idx))
    }

    fn snapshot(&self) -> (s: Self) {
        (self.0.snapshot(), self.1.snapshot(), self.2.snapshot(), self.3.snapshot(), self.4.snapshot())
    }

    fn increment(&mut self, p: Point, img: &Image<u8>, reg_img: &Image<Option<usize>>) {
        let ghost q = choose|q: Point| old(self).spans(q) && #[trigger] q.adjacent(p);
        assert(old(self).0.spans(q) && q.adjacent(p));
        self.0.increment(p, img, reg_img);
        assert(old(self).1.spans(q) && q.adjacent(p));
        self.1.increment(p, img, reg_img);
        assert(old(self).2.spans(q) && q.adjacent(p));
        self.2.increment(p, img, reg_img);
        assert(old(self).3.spans(q) && q.adjacent(p));
        self.3.increment(p, img, reg_img);
        assert(old(self).4.spans(q) && q.adjacent(p));
        self.4.increment(p, img, reg_img);
    }

    fn merge(&mut self, other: &Self, img: &Image<u8>, reg_img: &Image<Option<usize>>) {
        let ghost (na, nb) = choose|a: nat, b: nat|
            #[trigger] old(self).within(a) && #[trigger] other.within(b) && a + b <= MAX_PIXELS;
        let ghost (q, r) = choose|q: Point, r: Point|
            old(self).spans(q) && other.spans(r) && #[trigger] q.adjacent(r);
        assert(old(self).0.within(na) && other.0.within(nb) && na + nb <= MAX_PIXELS);
        assert(old(self).0.spans(q) && other.0.spans(r) && q.adjacent(r));
        self.0.merge(&other.0, img, reg_img);
        assert(old(self).1.within(na) && other.1.within(nb) && na + nb <= MAX_PIXELS);
        assert(old(self).1.spans(q) && other.1.spans(r) && q.adjacent(r));
        self.1.merge(&other.1, img, reg_img);
        assert(old(self).2.within(na) && other.2.within(nb) && na + nb <= MAX_PIXELS);
        assert(old(self).2.spans(q) && other.2.spans(r) && q.adjacent(r));
        self.2.merge(&other.2, img, reg_img);
        assert(old(self).3.within(na) && other.3.within(nb) && na + nb <= MAX_PIXELS);
        assert(old(self).3.spans(q) && other.3.spans(r) && q.adjacent(r));
        self.3.merge(&other.3, img, reg_img);
        assert(old(self).4.within(na) && other.4.within(nb) && na + nb <= MAX_PIXELS);
        assert(old(self).4.spans(q) && other.4.spans(r) && q.adjacent(r));
        self.4.merge(&other.4, img, reg_img);
    }
}

/// A quintuple of features is read out member by member, in order.
impl<A: Feature, B: Feature, C: Feature, D: Feature, E: Feature> Feature for (A, B, C, D, E) {
    open spec fn values(&self) -> Seq<Ratio> {
        self.0.values() + self.1.values() + self.2.values() + self.3.values() + self.4.values()
    }


    fn value(&self, out: &mut Vec<Ratio>) {
        self.0.value(out);
        self.1.value(out);
        self.2.value(out);
        self.3.value(out);
        self.4.value(out);
    }
}

} // verus!
