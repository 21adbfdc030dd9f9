//! The lifecycle engine, independent of backing.
//!
//! The three public operations of the engine — find the open cycle, record
//! a refill request, record a pick-up — have one meaning whatever holds the
//! state.  A [`CycleStore`] is the explicit choice between the two
//! backings: the mutable-row store, which materializes cycles eagerly on
//! write, and the event log, which materializes lazily on read by replay.

use vstd::prelude::*;

use crate::dates::Date;
use crate::events::spec_find_open;
use crate::events::CycleView;
use crate::events::Event;
use crate::events::EventLog;
use crate::events::EventType;
use crate::fill_request::has_open;
use crate::fill_request::open_for;
use crate::fill_request::open_index;
use crate::fill_request::pick_up_cycle;
use crate::fill_request::requested_cycle;
use crate::fill_request::walk_in_cycle;
use crate::fill_request::with_open_closed;
use crate::fill_request::Cycle;
use crate::fill_request::FillRequestStore;
use crate::ids::FillRequestId;
use crate::ids::RxId;

verus! {

/// A stored cycle row, seen as the backing-independent view.
pub open spec fn cycle_as_view(c: Cycle) -> CycleView {
    CycleView {
        date_requested: c.date_requested,
        date_filled: c.date_filled,
        date_picked_up: c.date_picked_up,
        closed: c.closed,
    }
}

impl Cycle {
    /// This row as the backing-independent view: the same dates and flag,
    /// without the row identity.
    pub fn as_view(&self) -> (v: CycleView)
        ensures
            v == cycle_as_view(*self),
    {
        CycleView {
            date_requested: self.date_requested,
            date_filled: self.date_filled,
            date_picked_up: self.date_picked_up,
            closed: self.closed,
        }
    }
}

/// One of the two interchangeable backings of the lifecycle engine,
/// chosen at construction time.
pub enum CycleStore {
    /// Mutable rows, materialized eagerly on write.
    Rows(FillRequestStore),
    /// An append-only event log, materialized lazily on read.
    Log(EventLog),
}

impl CycleStore {
    /// Well-formedness of the chosen backing.  A log is unconstrained: any
    /// sequence of appended events replays.
    pub open spec fn wf(&self) -> bool {
        match self {
            CycleStore::Rows(s) => s.wf(),
            CycleStore::Log(_) => true,
        }
    }

    /// Room for another cycle identity, where the backing assigns them.
    pub open spec fn can_assign_id(&self) -> bool {
        match self {
            CycleStore::Rows(s) => s.next_id_spec() < i32::MAX as int,
            CycleStore::Log(_) => true,
        }
    }

    /// The open cycle of `rx`, if any, as the backing-independent view.
    /// Reads only.
    pub fn find_open_cycle(&self, rx: RxId) -> (r: Option<CycleView>)
        requires
            self.wf(),
        ensures
            (match self {
                CycleStore::Rows(s) => match r {
                    Some(v) => {
                        &&& has_open(s@, rx)
                        &&& exists|i: int|
                            0 <= i < s@.len() && open_for(#[trigger] s@[i], rx) && v
                                == cycle_as_view(s@[i])
                    },
                    None => !has_open(s@, rx),
                },
                CycleStore::Log(log) => r == spec_find_open(log@, rx),
            }),
    {
        match self {
            CycleStore::Rows(s) => match s.find_open_cycle(rx) {
                Some(c) => Some(c.as_view()),
                None => None,
            },
            CycleStore::Log(log) => log.find_open_cycle(rx),
        }
    }

    /// Record a refill request for `rx`: close any open cycle, open a new
    /// one.  The row backing returns the new cycle's identity; the log
    /// backing appends a `RequestFill` event, and names no identity.
    pub fn record_fill_request(&mut self, rx: RxId, request_date: Date) -> (r: Option<
        FillRequestId,
    >)
        requires
            old(self).wf(),
            old(self).can_assign_id(),
        ensures
            final(self).wf(),
            (match *old(self) {
                CycleStore::Rows(s0) => {
                    &&& (*final(self)) is Rows
                    &&& r is Some
                    &&& ({
                        let s1 = (*final(self))->Rows_0;
                        let id = r->0;
                        &&& id.0 == s0.next_id_spec()
                        &&& s1.next_id_spec() == s0.next_id_spec() + 1
                        &&& s1@ == with_open_closed(s0@, rx).push(requested_cycle(id, rx, request_date))
                    })
                },
                CycleStore::Log(l0) => {
                    &&& r is None
                    &&& (*final(self)) is Log
                    &&& (*final(self))->Log_0@ == l0@.push(
                        Event { rx, kind: EventType::RequestFill, date: request_date },
                    )
                },
            }),
    {
        match self {
            CycleStore::Rows(s) => Some(s.record_fill_request(rx, request_date)),
            CycleStore::Log(log) => {
                log.record_fill_request(rx, request_date);
                None
            },
        }
    }

    /// Record that `rx` was filled and picked up.  The row backing reuses
    /// and closes the open cycle, or creates a closed walk-in one, and
    /// returns the identity; the log backing appends a `Fill` and a
    /// `PickUp` event, and names no identity.
    pub fn record_pickup(&mut self, rx: RxId, fill_date: Date, pickup_date: Date) -> (r: Option<
        FillRequestId,
    >)
        requires
            old(self).wf(),
            old(self).can_assign_id(),
        ensures
            final(self).wf(),
            (match *old(self) {
                CycleStore::Rows(s0) => {
                    &&& (*final(self)) is Rows
                    &&& r is Some
                    &&& ({
                        let s1 = (*final(self))->Rows_0;
                        let id = r->0;
                        &&& has_open(s0@, rx) ==> ({
                            let k = open_index(s0@, rx);
                            &&& id == s0@[k].id
                            &&& s1@ == s0@.update(k, pick_up_cycle(s0@[k], fill_date, pickup_date))
                            &&& s1.next_id_spec() == s0.next_id_spec()
                        })
                        &&& !has_open(s0@, rx) ==> ({
                            &&& id.0 == s0.next_id_spec()
                            &&& s1@ == s0@.push(walk_in_cycle(id, rx, fill_date, pickup_date))
                            &&& s1.next_id_spec() == s0.next_id_spec() + 1
                        })
                    })
                },
                CycleStore::Log(l0) => {
                    &&& r is None
                    &&& (*final(self)) is Log
                    &&& (*final(self))->Log_0@ == l0@.push(
                        Event { rx, kind: EventType::Fill, date: fill_date },
                    ).push(Event { rx, kind: EventType::PickUp, date: pickup_date })
                },
            }),
    {
        match self {
            CycleStore::Rows(s) => Some(s.record_pickup(rx, fill_date, pickup_date)),
            CycleStore::Log(log) => {
                log.record_pickup(rx, fill_date, pickup_date);
                None
            },
        }
    }
}

} // verus!