use vstd::prelude::*;

use crate::extract::cser::incremental::{Incremental, MAX_PIXELS};
use crate::structures::Ratio;

verus! {

/// An accumulated state that can be read out as one or more scalars.
pub trait Feature: Incremental {
    /// The scalars that the state stands for, in output order.
    spec fn values(&self) -> Seq<Ratio>;

    /// Appends the scalars of the state to `out`.
    fn value(&self, out: &mut Vec<Ratio>)
        requires
            self.wf(),
            self.within(MAX_PIXELS as nat),
        ensures
            final(out)@ == old(out)@ + self.values(),
    ;
}

} // verus!
