//! `==` and `<` on decimals compare their values: `1.0 == 1`.
use crate::decimal::{compare, value_eq, value_lt, Dec};
use core::cmp::Ordering;
use vstd::prelude::*;
use vstd::std_specs::cmp::{PartialEqSpecImpl, PartialOrdSpecImpl};

verus! {

impl PartialEq for Dec {
    fn eq(&self, other: &Dec) -> (r: bool) {
        compare(*self, *other) == 0
    }
}

impl PartialEqSpecImpl for Dec {
    open spec fn obeys_eq_spec() -> bool {
        true
    }

    open spec fn eq_spec(&self, other: &Dec) -> bool {
        value_eq(*self, *other)
    }
}

/// The order of two decimals by value.
pub open spec fn value_order(a: Dec, b: Dec) -> Ordering {
    if value_lt(a, b) {
        Ordering::Less
    } else if value_eq(a, b) {
        Ordering::Equal
    } else {
        Ordering::Greater
    }
}

impl PartialOrd for Dec {
    fn partial_cmp(&self, other: &Dec) -> (r: Option<Ordering>) {
        let c = compare(*self, *other);
        if c < 0 {
            Some(Ordering::Less)
        } else if c == 0 {
            Some(Ordering::Equal)
        } else {
            Some(Ordering::Greater)
        }
    }
}

impl PartialOrdSpecImpl for Dec {
    open spec fn obeys_partial_cmp_spec() -> bool {
        true
    }

    open spec fn partial_cmp_spec(&self, other: &Dec) -> Option<Ordering> {
        Some(value_order(*self, *other))
    }
}

} // verus!
