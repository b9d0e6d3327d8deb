//! `==` on binary64 numbers.

use crate::binary64::arith;
use crate::binary64::model::Binary64;
use vstd::prelude::*;
use vstd::std_specs::cmp::PartialEqSpecImpl;

verus! {

impl PartialEq for Binary64 {
    fn eq(&self, other: &Binary64) -> (r: bool) {
        self.is_equal(*other)
    }
}

impl PartialEqSpecImpl for Binary64 {
    open spec fn obeys_eq_spec() -> bool {
        true
    }

    open spec fn eq_spec(&self, other: &Binary64) -> bool {
        arith::equal(*self, *other)
    }
}

} // verus!
