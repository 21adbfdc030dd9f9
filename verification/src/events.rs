//! The append-only event backing of the fill-request lifecycle.
//!
//! Instead of mutating rows, this variant appends one dated [`Event`] per
//! happening and reconstructs the current cycle of a prescription by replay:
//! the open cycle, if any, is derived from the most recent events of each
//! kind, never stored.

use vstd::prelude::*;

use crate::dates::Date;
use crate::ids::RxId;

verus! {

/// The kind of a logged event.
///
/// Persisted stores keep it as the integer given by [`EventType::code`].
#[derive(Debug, PartialEq, Eq, Structural, Clone, Copy)]
pub enum EventType {
    RequestFill,
    Fill,
    PickUp,
    RefillCancel,
}

/// The integer code a persisted store keeps for an event kind.
pub open spec fn type_code(t: EventType) -> int {
    match t {
        EventType::RequestFill => 0,
        EventType::Fill => 1,
        EventType::PickUp => 2,
        EventType::RefillCancel => 3,
    }
}

impl EventType {
    /// The persisted integer code of this kind.
    pub fn code(self) -> (c: i32)
        ensures
            c == type_code(self),
    {
        match self {
            EventType::RequestFill => 0,
            EventType::Fill => 1,
            EventType::PickUp => 2,
            EventType::RefillCancel => 3,
        }
    }

    /// The kind a persisted integer code stands for, if any.
    pub fn from_code(c: i32) -> (r: Option<EventType>)
        ensures
            r == (if c == 0 {
                Some(EventType::RequestFill)
            } else if c == 1 {
                Some(EventType::Fill)
            } else if c == 2 {
                Some(EventType::PickUp)
            } else if c == 3 {
                Some(EventType::RefillCancel)
            } else {
                None::<EventType>
            }),
    {
        if c == 0 {
            Some(EventType::RequestFill)
        } else if c == 1 {
            Some(EventType::Fill)
        } else if c == 2 {
            Some(EventType::PickUp)
        } else if c == 3 {
            Some(EventType::RefillCancel)
        } else {
            None
        }
    }
}

/// One logged happening of a prescription's lifecycle.
///
/// Its position in the log is its identity; an appended event is never
/// altered.
#[derive(Debug, PartialEq, Eq, Structural, Clone, Copy)]
pub struct Event {
    pub rx: RxId,
    pub kind: EventType,
    pub date: Date,
}

/// A cycle as reconstructed from the log by replay: the same dates a stored
/// row would carry, but derived, and without a row identity.
#[derive(Debug, PartialEq, Eq, Structural, Clone, Copy)]
pub struct CycleView {
    pub date_requested: Option<Date>,
    pub date_filled: Option<Date>,
    pub date_picked_up: Option<Date>,
    pub closed: bool,
}

/// The event at position `i` of `s` is more recent than the one at `j`:
/// its date is later, or the dates tie and it stands later in the log.
pub open spec fn ev_later(s: Seq<Event>, i: int, j: int) -> bool {
    s[i].date.0 > s[j].date.0 || (s[i].date.0 == s[j].date.0 && i > j)
}

/// Which events a replay query looks at: one kind, or any terminal kind.
#[derive(Debug, PartialEq, Eq, Structural, Clone, Copy)]
pub enum EventSelector {
    Request,
    Fill,
    PickUp,
    Terminal,
}

impl EventSelector {
    /// The kinds this selector matches.  `Terminal` matches the kinds that
    /// end an open cycle.
    pub open spec fn selects(self, k: EventType) -> bool {
        match self {
            EventSelector::Request => k == EventType::RequestFill,
            EventSelector::Fill => k == EventType::Fill,
            EventSelector::PickUp => k == EventType::PickUp,
            EventSelector::Terminal => k == EventType::PickUp || k == EventType::RefillCancel,
        }
    }

    /// Executable test of [`Self::selects`].
    fn admits(self, k: EventType) -> (r: bool)
        ensures
            r == self.selects(k),
    {
        match self {
            EventSelector::Request => k == EventType::RequestFill,
            EventSelector::Fill => k == EventType::Fill,
            EventSelector::PickUp => k == EventType::PickUp,
            EventSelector::Terminal => k == EventType::PickUp || k == EventType::RefillCancel,
        }
    }
}

/// Position `i` of `s` holds an event of `rx` that `sel` matches.
pub open spec fn is_candidate(s: Seq<Event>, rx: RxId, sel: EventSelector, i: int) -> bool {
    0 <= i < s.len() && s[i].rx == rx && sel.selects(s[i].kind)
}

/// Position `i` holds the most recent matching event of `rx`.
pub open spec fn is_latest(s: Seq<Event>, rx: RxId, sel: EventSelector, i: int) -> bool {
    is_candidate(s, rx, sel, i) && forall|j: int|
        #[trigger] is_candidate(s, rx, sel, j) && j != i ==> ev_later(s, i, j)
}

/// Some event of `rx` matching `sel` is in the log.
pub open spec fn has_event(s: Seq<Event>, rx: RxId, sel: EventSelector) -> bool {
    exists|i: int| is_candidate(s, rx, sel, i)
}

/// The position of the most recent matching event of `rx`.
pub open spec fn latest_pos(s: Seq<Event>, rx: RxId, sel: EventSelector) -> int {
    choose|i: int| is_latest(s, rx, sel, i)
}

/// Two most-recent positions are the same position.
pub proof fn lemma_latest_unique(s: Seq<Event>, rx: RxId, sel: EventSelector, i: int, j: int)
    requires
        is_latest(s, rx, sel, i),
        is_latest(s, rx, sel, j),
    ensures
        i == j,
{
    if i != j {
        assert(ev_later(s, i, j));
        assert(ev_later(s, j, i));
    }
}

/// A position known to be most recent is the one `latest_pos` names.
pub proof fn lemma_latest_pins(s: Seq<Event>, rx: RxId, sel: EventSelector, i: int)
    requires
        is_latest(s, rx, sel, i),
    ensures
        has_event(s, rx, sel),
        latest_pos(s, rx, sel) == i,
{
    assert(is_candidate(s, rx, sel, i));
    assert(exists|j: int| is_latest(s, rx, sel, j));
    lemma_latest_unique(s, rx, sel, i, latest_pos(s, rx, sel));
}

/// The date of the most recent matching event, if there is one.
pub open spec fn latest_date(s: Seq<Event>, rx: RxId, sel: EventSelector) -> Option<Date> {
    if has_event(s, rx, sel) {
        Some(s[latest_pos(s, rx, sel)].date)
    } else {
        None
    }
}

/// The date of the most recent matching event, counted only when that event
/// is not older than the event at `anchor` (the opening request).
pub open spec fn anchored_latest(s: Seq<Event>, rx: RxId, sel: EventSelector, anchor: int) -> Option<
    Date,
> {
    if has_event(s, rx, sel) && ev_later(s, latest_pos(s, rx, sel), anchor) {
        Some(s[latest_pos(s, rx, sel)].date)
    } else {
        None
    }
}

/// Replay finds an open cycle of `rx`: there is a request, and it is more
/// recent than every terminal event.
pub open spec fn spec_open_exists(s: Seq<Event>, rx: RxId) -> bool {
    has_event(s, rx, EventSelector::Request) && (!has_event(s, rx, EventSelector::Terminal)
        || ev_later(
        s,
        latest_pos(s, rx, EventSelector::Request),
        latest_pos(s, rx, EventSelector::Terminal),
    ))
}

/// The open cycle synthesized by replay: dated from the most recent events
/// of each kind that are not older than the opening request.
pub open spec fn spec_open_view(s: Seq<Event>, rx: RxId) -> CycleView {
    let r = latest_pos(s, rx, EventSelector::Request);
    CycleView {
        date_requested: Some(s[r].date),
        date_filled: anchored_latest(s, rx, EventSelector::Fill, r),
        date_picked_up: anchored_latest(s, rx, EventSelector::PickUp, r),
        closed: false,
    }
}

/// What replaying the log answers for "the open cycle of `rx`".
pub open spec fn spec_find_open(s: Seq<Event>, rx: RxId) -> Option<CycleView> {
    if spec_open_exists(s, rx) {
        Some(spec_open_view(s, rx))
    } else {
        None
    }
}

/// The most recent cycle of `rx` recoverable from the log, open or closed.
///
/// Open cycles replay as in [`spec_find_open`].  Otherwise a terminal event
/// closes the cycle: its dates come from the most recent events of each
/// kind, anchored at the opening request when one was logged (a walk-in
/// pick-up has none).  A log whose only events for `rx` are fills names no
/// cycle.
pub open spec fn spec_latest_cycle(s: Seq<Event>, rx: RxId) -> Option<CycleView> {
    if spec_open_exists(s, rx) {
        Some(spec_open_view(s, rx))
    } else if has_event(s, rx, EventSelector::Terminal) {
        Some(
            CycleView {
                date_requested: latest_date(s, rx, EventSelector::Request),
                date_filled: if has_event(s, rx, EventSelector::Request) {
                    anchored_latest(
                        s,
                        rx,
                        EventSelector::Fill,
                        latest_pos(s, rx, EventSelector::Request),
                    )
                } else {
                    latest_date(s, rx, EventSelector::Fill)
                },
                date_picked_up: if has_event(s, rx, EventSelector::Request) {
                    anchored_latest(
                        s,
                        rx,
                        EventSelector::PickUp,
                        latest_pos(s, rx, EventSelector::Request),
                    )
                } else {
                    latest_date(s, rx, EventSelector::PickUp)
                },
                closed: true,
            },
        )
    } else {
        None
    }
}

/// Replay equivalence for a request → fill → pick-up history: whatever the
/// dates, replaying the three appended events finds no open cycle, and the
/// closed cycle is recoverable from the log with exactly the three dates.
///
/// Dates are caller-supplied and never checked against each other, so a
/// request dated after its own pick-up replays as still open; the law
/// therefore asks that the request not postdate the fill or the pick-up.
pub proof fn lemma_replay_request_fill_pickup(rx: RxId, d1: Date, d2: Date, d3: Date)
    requires
        d1.0 <= d2.0,
        d1.0 <= d3.0,
    ensures
        ({
            let s = seq![
                Event { rx, kind: EventType::RequestFill, date: d1 },
                Event { rx, kind: EventType::Fill, date: d2 },
                Event { rx, kind: EventType::PickUp, date: d3 },
            ];
            &&& spec_find_open(s, rx) is None
            &&& spec_latest_cycle(s, rx) == Some(
                CycleView {
                    date_requested: Some(d1),
                    date_filled: Some(d2),
                    date_picked_up: Some(d3),
                    closed: true,
                },
            )
        }),
{
    let s = seq![
        Event { rx, kind: EventType::RequestFill, date: d1 },
        Event { rx, kind: EventType::Fill, date: d2 },
        Event { rx, kind: EventType::PickUp, date: d3 },
    ];
    assert(s.len() == 3);
    assert(s[0] == Event { rx, kind: EventType::RequestFill, date: d1 });
    assert(s[1] == Event { rx, kind: EventType::Fill, date: d2 });
    assert(s[2] == Event { rx, kind: EventType::PickUp, date: d3 });
    assert(is_latest(s, rx, EventSelector::Request, 0)) by {
        assert forall|j: int|
            #[trigger] is_candidate(s, rx, EventSelector::Request, j) && j != 0 implies ev_later(
            s,
            0,
            j,
        ) by {
            assert(j == 1 || j == 2);
        }
    }
    lemma_latest_pins(s, rx, EventSelector::Request, 0);
    assert(is_latest(s, rx, EventSelector::Fill, 1)) by {
        assert forall|j: int|
            #[trigger] is_candidate(s, rx, EventSelector::Fill, j) && j != 1 implies ev_later(
            s,
            1,
            j,
        ) by {
            assert(j == 0 || j == 2);
        }
    }
    lemma_latest_pins(s, rx, EventSelector::Fill, 1);
    assert(is_latest(s, rx, EventSelector::PickUp, 2)) by {
        assert forall|j: int|
            #[trigger] is_candidate(s, rx, EventSelector::PickUp, j) && j != 2 implies ev_later(
            s,
            2,
            j,
        ) by {
            assert(j == 0 || j == 1);
        }
    }
    lemma_latest_pins(s, rx, EventSelector::PickUp, 2);
    assert(is_latest(s, rx, EventSelector::Terminal, 2)) by {
        assert forall|j: int|
            #[trigger] is_candidate(s, rx, EventSelector::Terminal, j) && j != 2 implies ev_later(
            s,
            2,
            j,
        ) by {
            assert(j == 0 || j == 1);
        }
    }
    lemma_latest_pins(s, rx, EventSelector::Terminal, 2);
    assert(!ev_later(s, 0, 2));
    assert(!spec_open_exists(s, rx));
    assert(ev_later(s, 1, 0));
    assert(ev_later(s, 2, 0));
}

/// The append-only log backing: events are only ever appended, and the
/// current cycle of a prescription is recomputed from the log on every
/// read.
pub struct EventLog {
    events: Vec<Event>,
}

impl View for EventLog {
    type V = Seq<Event>;

    closed spec fn view(&self) -> Seq<Event> {
        self.events@
    }
}

impl EventLog {
    /// An empty log.
    pub fn new() -> (log: Self)
        ensures
            log@ == Seq::<Event>::empty(),
    {
        EventLog { events: Vec::new() }
    }

    /// Append one event; its position is its identity.
    pub fn append(&mut self, e: Event) -> (pos: usize)
        ensures
            final(self)@ == old(self)@.push(e),
            pos == old(self)@.len(),
    {
        let pos = self.events.len();
        self.events.push(e);
        pos
    }

    /// Record a refill request for `rx`: a pure append of one
    /// `RequestFill` event.
    pub fn record_fill_request(&mut self, rx: RxId, request_date: Date) -> (pos: usize)
        ensures
            final(self)@ == old(self)@.push(
                Event { rx, kind: EventType::RequestFill, date: request_date },
            ),
            pos == old(self)@.len(),
    {
        self.append(Event { rx, kind: EventType::RequestFill, date: request_date })
    }

    /// Record fill and pick-up for `rx`: a pure append of a `Fill` and a
    /// `PickUp` event.
    pub fn record_pickup(&mut self, rx: RxId, fill_date: Date, pickup_date: Date)
        ensures
            final(self)@ == old(self)@.push(Event { rx, kind: EventType::Fill, date: fill_date })
                .push(Event { rx, kind: EventType::PickUp, date: pickup_date }),
    {
        self.append(Event { rx, kind: EventType::Fill, date: fill_date });
        self.append(Event { rx, kind: EventType::PickUp, date: pickup_date });
    }

    /// Record that the current refill of `rx` was cancelled: a pure append
    /// of one `RefillCancel` event.
    pub fn record_cancel(&mut self, rx: RxId, cancel_date: Date) -> (pos: usize)
        ensures
            final(self)@ == old(self)@.push(
                Event { rx, kind: EventType::RefillCancel, date: cancel_date },
            ),
            pos == old(self)@.len(),
    {
        self.append(Event { rx, kind: EventType::RefillCancel, date: cancel_date })
    }

    /// The position of the most recent event of `rx` that `sel` matches:
    /// maximum date, ties broken towards the later log position.
    fn latest_matching(&self, rx: RxId, sel: EventSelector) -> (r: Option<usize>)
        ensures
            (match r {
                Some(i) => i < self@.len() && is_latest(self@, rx, sel, i as int),
                None => !has_event(self@, rx, sel),
            }),
    {
        let mut best: Option<usize> = None;
        let n = self.events.len();
        let mut i: usize = 0;
        while i < n
            invariant
                n == self@.len(),
                0 <= i <= n,
                (match best {
                    Some(b) => {
                        &&& b < i
                        &&& is_candidate(self@, rx, sel, b as int)
                        &&& forall|j: int|
                            #[trigger] is_candidate(self@, rx, sel, j) && j < i && j != b
                                ==> ev_later(self@, b as int, j)
                    },
                    None => forall|j: int| 0 <= j < i ==> !is_candidate(self@, rx, sel, j),
                }),
            decreases n - i,
        {
            let e = self.events[i];
            if e.rx == rx && sel.admits(e.kind) {
                best = match best {
                    Some(b) => {
                        if e.date.0 >= self.events[b].date.0 {
                            Some(i)
                        } else {
                            Some(b)
                        }
                    },
                    None => Some(i),
                };
            }
            i += 1;
        }
        best
    }

    /// Executable test of [`ev_later`] on two log positions.
    fn later_than(&self, i: usize, j: usize) -> (r: bool)
        requires
            i < self@.len(),
            j < self@.len(),
        ensures
            r == ev_later(self@, i as int, j as int),
    {
        let di = self.events[i].date.0;
        let dj = self.events[j].date.0;
        di > dj || (di == dj && i > j)
    }

    /// The fill and pick-up dates of the cycle anchored at the request at
    /// `anchor`.
    fn anchored_dates(&self, rx: RxId, anchor: usize) -> (dates: (Option<Date>, Option<Date>))
        requires
            anchor < self@.len(),
        ensures
            dates.0 == anchored_latest(self@, rx, EventSelector::Fill, anchor as int),
            dates.1 == anchored_latest(self@, rx, EventSelector::PickUp, anchor as int),
    {
        let date_filled = match self.latest_matching(rx, EventSelector::Fill) {
            Some(fi) => {
                proof {
                    lemma_latest_pins(self@, rx, EventSelector::Fill, fi as int);
                }
                if self.later_than(fi, anchor) {
                    Some(self.events[fi].date)
                } else {
                    None
                }
            },
            None => None,
        };
        let date_picked_up = match self.latest_matching(rx, EventSelector::PickUp) {
            Some(pi) => {
                proof {
                    lemma_latest_pins(self@, rx, EventSelector::PickUp, pi as int);
                }
                if self.later_than(pi, anchor) {
                    Some(self.events[pi].date)
                } else {
                    None
                }
            },
            None => None,
        };
        (date_filled, date_picked_up)
    }

    /// The open cycle of `rx` reconstructed by replay, if the log holds
    /// one.
    ///
    /// Reads only.  For each kind the most recent event of `rx` is found
    /// (maximum date, ties towards the later position); the cycle is open
    /// exactly when a request is more recent than every terminal event, and
    /// its dates come from the most recent events not older than that
    /// request.
    pub fn find_open_cycle(&self, rx: RxId) -> (r: Option<CycleView>)
        ensures
            r == spec_find_open(self@, rx),
    {
        let ri = match self.latest_matching(rx, EventSelector::Request) {
            None => {
                return None;
            },
            Some(ri) => ri,
        };
        proof {
            lemma_latest_pins(self@, rx, EventSelector::Request, ri as int);
        }
        match self.latest_matching(rx, EventSelector::Terminal) {
            Some(ti) => {
                proof {
                    lemma_latest_pins(self@, rx, EventSelector::Terminal, ti as int);
                }
                if !self.later_than(ri, ti) {
                    return None;
                }
            },
            None => {},
        }
        let (date_filled, date_picked_up) = self.anchored_dates(rx, ri);
        Some(
            CycleView {
                date_requested: Some(self.events[ri].date),
                date_filled,
                date_picked_up,
                closed: false,
            },
        )
    }

    /// The most recent cycle of `rx` recoverable from the log, open or
    /// closed; see [`spec_latest_cycle`].  Reads only.
    pub fn latest_cycle(&self, rx: RxId) -> (r: Option<CycleView>)
        ensures
            r == spec_latest_cycle(self@, rx),
    {
        let req = self.latest_matching(rx, EventSelector::Request);
        let term = self.latest_matching(rx, EventSelector::Terminal);
        proof {
            if let Some(ri) = req {
                lemma_latest_pins(self@, rx, EventSelector::Request, ri as int);
            }
            if let Some(ti) = term {
                lemma_latest_pins(self@, rx, EventSelector::Terminal, ti as int);
            }
        }
        match (req, term) {
            (None, None) => None,
            (Some(ri), None) => {
                let (date_filled, date_picked_up) = self.anchored_dates(rx, ri);
                Some(
                    CycleView {
                        date_requested: Some(self.events[ri].date),
                        date_filled,
                        date_picked_up,
                        closed: false,
                    },
                )
            },
            (Some(ri), Some(ti)) => {
                let (date_filled, date_picked_up) = self.anchored_dates(rx, ri);
                if self.later_than(ri, ti) {
                    Some(
                        CycleView {
                            date_requested: Some(self.events[ri].date),
                            date_filled,
                            date_picked_up,
                            closed: false,
                        },
                    )
                } else {
                    Some(
                        CycleView {
                            date_requested: Some(self.events[ri].date),
                            date_filled,
                            date_picked_up,
                            closed: true,
                        },
                    )
                }
            },
            (None, Some(_)) => {
                let date_filled = match self.latest_matching(rx, EventSelector::Fill) {
                    Some(fi) => {
                        proof {
                            lemma_latest_pins(self@, rx, EventSelector::Fill, fi as int);
                        }
                        Some(self.events[fi].date)
                    },
                    None => None,
                };
                let date_picked_up = match self.latest_matching(rx, EventSelector::PickUp) {
                    Some(pi) => {
                        proof {
                            lemma_latest_pins(self@, rx, EventSelector::PickUp, pi as int);
                        }
                        Some(self.events[pi].date)
                    },
                    None => None,
                };
                Some(
                    CycleView {
                        date_requested: None,
                        date_filled,
                        date_picked_up,
                        closed: true,
                    },
                )
            },
        }
    }
}

} // verus!
