//! Strong identifier types.
//!
//! Prescriptions and fill-request cycles are identified by integers that a
//! backing store assigns.  Each gets its own wrapper type so that the two
//! kinds of handle cannot be interchanged by accident; conversion to and from
//! the raw integer is only through explicit `From` impls.

use vstd::prelude::*;

verus! {

/// Identifier of a prescription.
#[derive(Debug, PartialEq, Eq, Structural, PartialOrd, Ord, Hash, Clone, Copy)]
pub struct RxId(pub i32);

impl From<i32> for RxId {
    fn from(value: i32) -> Self {
        RxId(value)
    }
}

impl vstd::std_specs::convert::FromSpecImpl<i32> for RxId {
    open spec fn obeys_from_spec() -> bool {
        true
    }

    open spec fn from_spec(v: i32) -> Self {
        RxId(v)
    }
}

impl From<RxId> for i32 {
    fn from(value: RxId) -> Self {
        value.0
    }
}

impl vstd::std_specs::convert::FromSpecImpl<RxId> for i32 {
    open spec fn obeys_from_spec() -> bool {
        true
    }

    open spec fn from_spec(v: RxId) -> Self {
        v.0
    }
}

/// Identifier of a fill-request cycle.
#[derive(Debug, PartialEq, Eq, Structural, PartialOrd, Ord, Hash, Clone, Copy)]
pub struct FillRequestId(pub i32);

impl From<i32> for FillRequestId {
    fn from(value: i32) -> Self {
        FillRequestId(value)
    }
}

impl vstd::std_specs::convert::FromSpecImpl<i32> for FillRequestId {
    open spec fn obeys_from_spec() -> bool {
        true
    }

    open spec fn from_spec(v: i32) -> Self {
        FillRequestId(v)
    }
}

impl From<FillRequestId> for i32 {
    fn from(value: FillRequestId) -> Self {
        value.0
    }
}

impl vstd::std_specs::convert::FromSpecImpl<FillRequestId> for i32 {
    open spec fn obeys_from_spec() -> bool {
        true
    }

    open spec fn from_spec(v: FillRequestId) -> Self {
        v.0
    }
}

} // verus!
