//! The mutable-row backing of the fill-request lifecycle.
//!
//! One [`Cycle`] is one refill span of a prescription: requested, possibly
//! filled, possibly picked up, and eventually closed.  A
//! [`FillRequestStore`] keeps one row per cycle and moves the rows through
//! the lifecycle, keeping the store's central invariant: at most one open
//! cycle per prescription.

use vstd::prelude::*;

use crate::dates::Date;
use crate::ids::FillRequestId;
use crate::ids::RxId;

verus! {

use crate::seqs::lemma_filter_take_succ;
use crate::seqs::lemma_insert_to_multiset;
use crate::seqs::lemma_filter_take_zero;

/// Outcome of adding a prescription that may already be on record.
pub enum RxAddOutcome {
    AlreadyExists(RxId),
    Created(RxId),
}

/// One fill-request cycle of a prescription.
///
/// `id` and `rx` never change after creation.  The three dates are supplied
/// by callers and are not checked against each other (a pick-up may carry an
/// earlier date than the request it answers); once `closed` is true the row
/// is never written again.
#[derive(Debug, PartialEq, Eq, Structural, Clone, Copy)]
pub struct Cycle {
    pub id: FillRequestId,
    pub rx: RxId,
    pub date_requested: Option<Date>,
    pub date_filled: Option<Date>,
    pub date_picked_up: Option<Date>,
    pub closed: bool,
}

/// The cycle `c` is the open cycle of prescription `rx`.
pub open spec fn open_for(c: Cycle, rx: RxId) -> bool {
    c.rx == rx && !c.closed
}

/// Some cycle in `s` is open for `rx`.
pub open spec fn has_open(s: Seq<Cycle>, rx: RxId) -> bool {
    exists|i: int| 0 <= i < s.len() && open_for(s[i], rx)
}

/// The index in `s` of an open cycle for `rx` (unique in a well-formed
/// store, see [`FillRequestStore::wf`]).
pub open spec fn open_index(s: Seq<Cycle>, rx: RxId) -> int {
    choose|i: int| 0 <= i < s.len() && open_for(s[i], rx)
}

/// `c` with its `closed` flag set and every other field kept.
pub open spec fn close_cycle(c: Cycle) -> Cycle {
    Cycle {
        id: c.id,
        rx: c.rx,
        date_requested: c.date_requested,
        date_filled: c.date_filled,
        date_picked_up: c.date_picked_up,
        closed: true,
    }
}

/// `c` closed with the given fill and pick-up dates recorded, every other
/// field kept.
pub open spec fn pick_up_cycle(c: Cycle, fill_date: Date, pickup_date: Date) -> Cycle {
    Cycle {
        id: c.id,
        rx: c.rx,
        date_requested: c.date_requested,
        date_filled: Some(fill_date),
        date_picked_up: Some(pickup_date),
        closed: true,
    }
}

/// A freshly opened cycle: only the request date is set.
pub open spec fn requested_cycle(id: FillRequestId, rx: RxId, request_date: Date) -> Cycle {
    Cycle {
        id,
        rx,
        date_requested: Some(request_date),
        date_filled: None,
        date_picked_up: None,
        closed: false,
    }
}

/// A cycle created closed by a walk-in pick-up: no request was ever
/// recorded.
pub open spec fn walk_in_cycle(id: FillRequestId, rx: RxId, fill_date: Date, pickup_date: Date) -> Cycle {
    Cycle {
        id,
        rx,
        date_requested: None,
        date_filled: Some(fill_date),
        date_picked_up: Some(pickup_date),
        closed: true,
    }
}

/// `s` with every open cycle of `rx` closed and everything else kept.
pub open spec fn with_open_closed(s: Seq<Cycle>, rx: RxId) -> Seq<Cycle> {
    Seq::new(s.len(), |i: int| if open_for(s[i], rx) { close_cycle(s[i]) } else { s[i] })
}

/// The mutable-row backing: one row per cycle.
///
/// Rows are only ever appended or moved towards `closed`; a closed row is
/// never written again.  Row identities are handed out in creation order,
/// starting at 1.
pub struct FillRequestStore {
    cycles: Vec<Cycle>,
    next_id: i32,
}

impl View for FillRequestStore {
    type V = Seq<Cycle>;

    closed spec fn view(&self) -> Seq<Cycle> {
        self.cycles@
    }
}

impl FillRequestStore {
    /// The identity the next created cycle will get.
    pub closed spec fn next_id_spec(&self) -> int {
        self.next_id as int
    }

    /// Well-formedness: identities are 1-based, below `next_id_spec` and
    /// pairwise distinct; per prescription at most one cycle is open, and an
    /// open cycle is the most recently created of its prescription.
    pub open spec fn wf(&self) -> bool {
        &&& 1 <= self.next_id_spec()
        &&& forall|i: int|
            0 <= i < self@.len() ==> 1 <= (#[trigger] self@[i]).id.0 < self.next_id_spec()
        &&& forall|i: int, j: int|
            0 <= i < self@.len() && 0 <= j < self@.len() && i != j
                ==> (#[trigger] self@[i]).id.0 != (#[trigger] self@[j]).id.0
        &&& forall|i: int, j: int|
            0 <= i < self@.len() && 0 <= j < self@.len() && i != j && !(#[trigger] self@[i]).closed
                && !(#[trigger] self@[j]).closed ==> self@[i].rx != self@[j].rx
        &&& forall|i: int, j: int|
            0 <= i < self@.len() && 0 <= j < self@.len() && i != j && !(#[trigger] self@[i]).closed
                && (#[trigger] self@[j]).rx == self@[i].rx ==> self@[j].id.0 < self@[i].id.0
    }

    /// An empty store.
    pub fn new() -> (s: Self)
        ensures
            s.wf(),
            s@ == Seq::<Cycle>::empty(),
            s.next_id_spec() == 1,
    {
        FillRequestStore { cycles: Vec::new(), next_id: 1 }
    }

    /// At most one cycle per prescription is ever open: two open rows of
    /// the same prescription are the same row.
    pub proof fn lemma_at_most_one_open(&self, rx: RxId, i: int, j: int)
        requires
            self.wf(),
            0 <= i < self@.len(),
            0 <= j < self@.len(),
            open_for(self@[i], rx),
            open_for(self@[j], rx),
        ensures
            i == j,
    {
    }

    /// The open cycle of a prescription, when there is one, is the most
    /// recently created cycle of that prescription.
    pub proof fn lemma_open_is_newest(&self, rx: RxId, i: int, j: int)
        requires
            self.wf(),
            0 <= i < self@.len(),
            0 <= j < self@.len(),
            i != j,
            open_for(self@[i], rx),
            self@[j].rx == rx,
        ensures
            self@[j].id.0 < self@[i].id.0,
    {
    }

    /// The open cycle of `rx`, if any.
    ///
    /// Reads only; in a well-formed store the answer is the single open row
    /// of the prescription.
    pub fn find_open_cycle(&self, rx: RxId) -> (r: Option<Cycle>)
        requires
            self.wf(),
        ensures
            (match r {
                Some(c) => {
                    &&& has_open(self@, rx)
                    &&& open_for(c, rx)
                    &&& exists|i: int| 0 <= i < self@.len() && self@[i] == c
                    &&& forall|i: int|
                        0 <= i < self@.len() && open_for(#[trigger] self@[i], rx) ==> self@[i] == c
                },
                None => !has_open(self@, rx),
            }),
    {
        let n = self.cycles.len();
        let mut i: usize = 0;
        while i < n
            invariant
                n == self.cycles.len(),
                0 <= i <= n,
                forall|j: int| 0 <= j < i ==> !open_for(#[trigger] self@[j], rx),
                self.wf(),
            decreases n - i,
        {
            if !self.cycles[i].closed && self.cycles[i].rx == rx {
                return Some(self.cycles[i]);
            }
            i += 1;
        }
        None
    }

    /// Record a new refill request for `rx`, dated `request_date`.
    ///
    /// Any still-open cycle of `rx` is closed first, its other fields
    /// untouched (a new request supersedes an abandoned or duplicate one);
    /// then a fresh open cycle carrying only the request date is created and
    /// its identity returned.  Closed rows are never altered.
    /// Calling this twice creates two cycles and closes the first: the
    /// operation is not idempotent.
    pub fn record_fill_request(&mut self, rx: RxId, request_date: Date) -> (r: FillRequestId)
        requires
            old(self).wf(),
            old(self).next_id_spec() < i32::MAX as int,
        ensures
            final(self).wf(),
            r.0 == old(self).next_id_spec(),
            final(self).next_id_spec() == old(self).next_id_spec() + 1,
            final(self)@ == with_open_closed(old(self)@, rx).push(
                requested_cycle(r, rx, request_date),
            ),
            // supersession: a previously open cycle of rx is now closed, all
            // its other fields unchanged
            forall|i: int|
                0 <= i < old(self)@.len() && open_for(#[trigger] old(self)@[i], rx)
                    ==> final(self)@[i] == close_cycle(old(self)@[i]),
            // frame: every other existing row, closed rows in particular, is
            // untouched
            forall|i: int|
                0 <= i < old(self)@.len() && !open_for(#[trigger] old(self)@[i], rx)
                    ==> final(self)@[i] == old(self)@[i],
    {
        let ghost s0 = self.cycles@;
        let n = self.cycles.len();
        let mut i: usize = 0;
        while i < n
            invariant
                n == self.cycles.len(),
                0 <= i <= n,
                self.cycles@.len() == s0.len(),
                self.next_id == old(self).next_id,
                s0 == old(self)@,
                forall|j: int|
                    0 <= j < i ==> self.cycles@[j] == (if open_for(s0[j], rx) {
                        close_cycle(s0[j])
                    } else {
                        s0[j]
                    }),
                forall|j: int| i <= j < s0.len() ==> self.cycles@[j] == s0[j],
            decreases n - i,
        {
            if !self.cycles[i].closed && self.cycles[i].rx == rx {
                let mut c = self.cycles[i];
                c.closed = true;
                self.cycles.set(i, c);
            }
            i += 1;
        }
        let id = FillRequestId(self.next_id);
        self.cycles.push(
            Cycle {
                id,
                rx,
                date_requested: Some(request_date),
                date_filled: None,
                date_picked_up: None,
                closed: false,
            },
        );
        self.next_id = self.next_id + 1;
        proof {
            assert(self.cycles@ =~= with_open_closed(s0, rx).push(
                requested_cycle(id, rx, request_date),
            ));
        }
        id
    }

    /// Record that `rx` was filled and picked up.
    ///
    /// An open cycle of `rx`, if there is one, is reused: it gets the fill
    /// and pick-up dates and is closed, under its existing identity.  With
    /// no open cycle, a walk-in pick-up is recorded: a fresh cycle is
    /// created already closed, with no request date.  Closed rows are never
    /// altered.
    pub fn record_pickup(&mut self, rx: RxId, fill_date: Date, pickup_date: Date) -> (r: FillRequestId)
        requires
            old(self).wf(),
            old(self).next_id_spec() < i32::MAX as int,
        ensures
            final(self).wf(),
            has_open(old(self)@, rx) ==> ({
                let k = open_index(old(self)@, rx);
                &&& r == old(self)@[k].id
                &&& final(self)@ == old(self)@.update(
                    k,
                    pick_up_cycle(old(self)@[k], fill_date, pickup_date),
                )
                &&& final(self).next_id_spec() == old(self).next_id_spec()
            }),
            !has_open(old(self)@, rx) ==> ({
                &&& r.0 == old(self).next_id_spec()
                &&& final(self)@ == old(self)@.push(walk_in_cycle(r, rx, fill_date, pickup_date))
                &&& final(self).next_id_spec() == old(self).next_id_spec() + 1
            }),
            // frame: every row but the reused one is untouched, closed rows
            // in particular
            forall|i: int|
                0 <= i < old(self)@.len() && !open_for(#[trigger] old(self)@[i], rx)
                    ==> final(self)@[i] == old(self)@[i],
    {
        let n = self.cycles.len();
        let mut i: usize = 0;
        while i < n
            invariant
                n == self.cycles.len(),
                0 <= i <= n,
                self == old(self),
                forall|j: int| 0 <= j < i ==> !open_for(#[trigger] self@[j], rx),
                self.wf(),
            decreases n - i,
        {
            if !self.cycles[i].closed && self.cycles[i].rx == rx {
                proof {
                    assert(open_for(old(self)@[i as int], rx));
                    assert(has_open(old(self)@, rx));
                    let k = open_index(old(self)@, rx);
                    assert(0 <= k < old(self)@.len() && open_for(old(self)@[k], rx));
                    old(self).lemma_at_most_one_open(rx, k, i as int);
                }
                let mut c = self.cycles[i];
                c.date_filled = Some(fill_date);
                c.date_picked_up = Some(pickup_date);
                c.closed = true;
                let id = c.id;
                self.cycles.set(i, c);
                return id;
            }
            i += 1;
        }
        let id = FillRequestId(self.next_id);
        self.cycles.push(
            Cycle {
                id,
                rx,
                date_requested: None,
                date_filled: Some(fill_date),
                date_picked_up: Some(pickup_date),
                closed: true,
            },
        );
        self.next_id = self.next_id + 1;
        id
    }

    /// All cycles of `rx`, most recent request first.
    ///
    /// The listing is ordered by request date descending; cycles without a
    /// request date come last, and equal dates are broken by identity,
    /// newest first.
    pub fn list_cycles(&self, rx: RxId) -> (r: Vec<Cycle>)
        requires
            self.wf(),
        ensures
            r@.to_multiset() == self@.filter(of_rx(rx)).to_multiset(),
            sorted_for_listing(r@),
            forall|q: int| 0 <= q < r@.len() ==> (#[trigger] r@[q]).rx == rx,
    {
        let mut out: Vec<Cycle> = Vec::new();
        let n = self.cycles.len();
        let mut i: usize = 0;
        proof {
            lemma_filter_take_zero(self@, of_rx(rx));
        }
        while i < n
            invariant
                n == self.cycles.len(),
                0 <= i <= n,
                self.wf(),
                out@.to_multiset() == self@.take(i as int).filter(of_rx(rx)).to_multiset(),
                sorted_for_listing(out@),
                forall|q: int| 0 <= q < out@.len() ==> (#[trigger] out@[q]).rx == rx,
                forall|q: int|
                    0 <= q < out@.len() ==> exists|j: int|
                        0 <= j < i && self@[j] == #[trigger] out@[q],
            decreases n - i,
        {
            let c = self.cycles[i];
            proof {
                lemma_filter_take_succ(self@, of_rx(rx), i as int);
            }
            if c.rx == rx {
                let p = insertion_point(&out, &c);
                let ghost out0 = out@;
                proof {
                    assert forall|q: int| p <= q < out0.len() implies precedes(c, out0[q]) by {
                        let j = choose|j: int| 0 <= j < i && self@[j] == out0[p as int];
                        assert(self@[j].id.0 != self@[i as int].id.0);
                        lemma_precedes_total(c, out0[p as int]);
                        if p < q {
                            lemma_precedes_trans(c, out0[p as int], out0[q]);
                        }
                    }
                }
                out.insert(p, c);
                proof {
                    out0.insert_ensures(p as int, c);
                    lemma_insert_to_multiset(out0, p as int, c);
                    broadcast use vstd::seq_lib::group_to_multiset_ensures;

                    assert(out@.to_multiset() == self@.take(i as int).filter(of_rx(rx)).push(
                        c,
                    ).to_multiset());
                    assert forall|a: int, b: int| 0 <= a < b < out@.len() implies precedes(
                        out@[a],
                        out@[b],
                    ) by {
                        if b < p {
                        } else if a < p && b == p {
                        } else if a < p && b > p {
                        } else if a == p {
                        } else {
                        }
                    }
                }
            }
            i += 1;
        }
        proof {
            assert(self@.take(n as int) =~= self@);
        }
        out
    }
}

/// The sort key of the listing: the request date, with undated requests
/// below every dated one.
pub open spec fn date_key(c: Cycle) -> int {
    match c.date_requested {
        Some(d) => d.0 as int,
        None => i32::MIN as int - 1,
    }
}

/// The cycles of one prescription, as a filter predicate.
pub open spec fn of_rx(rx: RxId) -> spec_fn(Cycle) -> bool {
    |c: Cycle| c.rx == rx
}

/// Strict listing order: `a` is listed before `b`.
pub open spec fn precedes(a: Cycle, b: Cycle) -> bool {
    date_key(a) > date_key(b) || (date_key(a) == date_key(b) && a.id.0 > b.id.0)
}

/// `s` is in listing order.
pub open spec fn sorted_for_listing(s: Seq<Cycle>) -> bool {
    forall|p: int, q: int| 0 <= p < q < s.len() ==> precedes(#[trigger] s[p], #[trigger] s[q])
}

/// The listing order is transitive.
proof fn lemma_precedes_trans(a: Cycle, b: Cycle, c: Cycle)
    requires
        precedes(a, b),
        precedes(b, c),
    ensures
        precedes(a, c),
{
}

/// Two cycles with different identities are ordered, one way or the other.
proof fn lemma_precedes_total(a: Cycle, b: Cycle)
    requires
        a.id.0 != b.id.0,
    ensures
        precedes(a, b) || precedes(b, a),
{
}

/// Where `c` belongs in the sorted listing `out`: the first place whose
/// element does not precede `c`.
fn insertion_point(out: &Vec<Cycle>, c: &Cycle) -> (p: usize)
    requires
        sorted_for_listing(out@),
    ensures
        0 <= p <= out@.len(),
        forall|q: int| 0 <= q < p ==> precedes(#[trigger] out@[q], *c),
        p < out@.len() ==> !precedes(out@[p as int], *c),
{
    let mut p: usize = 0;
    while p < out.len()
        invariant
            0 <= p <= out@.len(),
            forall|q: int| 0 <= q < p ==> precedes(#[trigger] out@[q], *c),
        decreases out@.len() - p,
    {
        if !cycle_precedes(&out[p], c) {
            return p;
        }
        p += 1;
    }
    p
}

/// Executable test of the listing order.
fn cycle_precedes(a: &Cycle, b: &Cycle) -> (r: bool)
    ensures
        r == precedes(*a, *b),
{
    match (a.date_requested, b.date_requested) {
        (Some(x), Some(y)) => x.0 > y.0 || (x.0 == y.0 && a.id.0 > b.id.0),
        (Some(_), None) => true,
        (None, Some(_)) => false,
        (None, None) => a.id.0 > b.id.0,
    }
}

} // verus!
