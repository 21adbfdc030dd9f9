//! Calendar dates as plain day numbers.
//!
//! The lifecycle engine never computes with calendars; it only stores dates
//! and compares them.  A date is therefore carried as a single day count (any
//! fixed epoch does, e.g. a Julian day number), whose integer order is the
//! calendar order.  Callers that work with a calendar type convert at the
//! boundary.

use vstd::prelude::*;

verus! {

/// A calendar date, as the number of days from a fixed epoch.
///
/// `a` is on or before `b` exactly when `a.0 <= b.0`.
#[derive(Debug, PartialEq, Eq, Structural, PartialOrd, Ord, Hash, Clone, Copy)]
pub struct Date(pub i32);

} // verus!
