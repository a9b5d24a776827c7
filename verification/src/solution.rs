use crate::types::P;
use vstd::prelude::*;

verus! {

/// Where each musician stands, in the order of the problem's musicians.
#[derive(Debug)]
pub struct Solution {
    pub placements: Vec<P>,
}

impl Clone for Solution {
    fn clone(&self) -> (r: Self)
        ensures
            r.placements@ == self.placements@,
    {
        let placements: Vec<P> = self.placements.clone();
        assert(placements@ =~= self.placements@);
        Solution { placements }
    }
}

} // verus!
