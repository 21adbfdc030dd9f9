//! The prescription registry.
//!
//! Maps a prescription identifier to its display name and a visibility flag.
//! Names are trimmed on entry and may not be blank; identifiers are assigned
//! in order, starting at 1.

use vstd::prelude::*;

use crate::ids::RxId;
use crate::Error;

verus! {

use crate::seqs::lemma_filter_take_succ;
use crate::seqs::lemma_filter_take_zero;

/// A prescription on record.
#[derive(Debug, PartialEq, Eq)]
pub struct KnownRx {
    pub id: RxId,
    pub name: String,
    pub hidden: bool,
}

impl Clone for KnownRx {
    fn clone(&self) -> (r: Self)
        ensures
            r == *self,
    {
        KnownRx { id: self.id, name: self.name.clone(), hidden: self.hidden }
    }
}

/// What `str::trim` leaves of `s`: `s` without its leading and trailing
/// whitespace.
pub uninterp spec fn trim_of(s: Seq<char>) -> Seq<char>;

/// Relies on str::trim: the trimmed text depends on the characters alone.
#[verifier::external_body]
fn trimmed(name: &str) -> (r: String)
    ensures
        r@ == trim_of(name@),
{
    name.trim().to_owned()
}

/// The name a prescription is recorded under: the given name trimmed, or
/// [`Error::EmptyRxName`] when nothing but whitespace remains.
pub fn normalize_rx_name(name: &str) -> (r: Result<String, Error>)
    ensures
        (match r {
            Ok(t) => t@ == trim_of(name@) && trim_of(name@).len() > 0,
            Err(e) => e == Error::EmptyRxName && trim_of(name@).len() == 0,
        }),
{
    let t = trimmed(name);
    if t.as_str().is_empty() {
        Err(Error::EmptyRxName)
    } else {
        Ok(t)
    }
}

/// The visible prescriptions, as a filter predicate.
pub open spec fn visible() -> spec_fn(KnownRx) -> bool {
    |k: KnownRx| !k.hidden
}

/// The prescription registry: every prescription on record, in creation
/// order, with identifiers handed out in order starting at 1.
pub struct RxRegistry {
    entries: Vec<KnownRx>,
    next_id: i32,
}

impl View for RxRegistry {
    type V = Seq<KnownRx>;

    closed spec fn view(&self) -> Seq<KnownRx> {
        self.entries@
    }
}

impl RxRegistry {
    /// The identifier the next added prescription will get.
    pub closed spec fn next_id_spec(&self) -> int {
        self.next_id as int
    }

    /// Well-formedness: identifiers are 1-based, below `next_id_spec` and
    /// pairwise distinct.
    pub open spec fn wf(&self) -> bool {
        &&& 1 <= self.next_id_spec()
        &&& forall|i: int|
            0 <= i < self@.len() ==> 1 <= (#[trigger] self@[i]).id.0 < self.next_id_spec()
        &&& forall|i: int, j: int|
            0 <= i < self@.len() && 0 <= j < self@.len() && i != j
                ==> (#[trigger] self@[i]).id.0 != (#[trigger] self@[j]).id.0
    }

    /// An empty registry.
    pub fn new() -> (r: Self)
        ensures
            r.wf(),
            r@ == Seq::<KnownRx>::empty(),
            r.next_id_spec() == 1,
    {
        RxRegistry { entries: Vec::new(), next_id: 1 }
    }

    /// Add a prescription under `name`, receiving its identifier.
    ///
    /// The name is trimmed first; a name that is blank after trimming is
    /// rejected with [`Error::EmptyRxName`] and the registry is unchanged.
    /// Otherwise the prescription is recorded visible, under the next
    /// identifier.
    pub fn add_rx(&mut self, name: &str) -> (r: Result<RxId, Error>)
        requires
            old(self).wf(),
            old(self).next_id_spec() < i32::MAX as int,
        ensures
            final(self).wf(),
            (match r {
                Ok(id) => {
                    &&& trim_of(name@).len() > 0
                    &&& id.0 == old(self).next_id_spec()
                    &&& final(self).next_id_spec() == old(self).next_id_spec() + 1
                    &&& final(self)@.len() == old(self)@.len() + 1
                    &&& forall|i: int| 0 <= i < old(self)@.len() ==> final(self)@[i] == old(self)@[i]
                    &&& final(self)@.last().id == id
                    &&& final(self)@.last().name@ == trim_of(name@)
                    &&& final(self)@.last().hidden == false
                },
                Err(e) => {
                    &&& e == Error::EmptyRxName
                    &&& trim_of(name@).len() == 0
                    &&& final(self)@ == old(self)@
                    &&& final(self).next_id_spec() == old(self).next_id_spec()
                },
            }),
    {
        let name = match normalize_rx_name(name) {
            Ok(t) => t,
            Err(e) => {
                return Err(e);
            },
        };
        let id = RxId(self.next_id);
        self.entries.push(KnownRx { id, name, hidden: false });
        self.next_id = self.next_id + 1;
        Ok(id)
    }

    /// The visible prescriptions, in creation order.  Reads only.
    pub fn list_rx(&self) -> (r: Vec<KnownRx>)
        ensures
            r@ == self@.filter(visible()),
    {
        let mut out: Vec<KnownRx> = Vec::new();
        let n = self.entries.len();
        let mut i: usize = 0;
        proof {
            lemma_filter_take_zero(self@, visible());
        }
        while i < n
            invariant
                n == self@.len(),
                0 <= i <= n,
                out@ == self@.take(i as int).filter(visible()),
            decreases n - i,
        {
            proof {
                lemma_filter_take_succ(self@, visible(), i as int);
            }
            if !self.entries[i].hidden {
                out.push(self.entries[i].clone());
            }
            i += 1;
        }
        proof {
            assert(self@.take(n as int) =~= self@);
        }
        out
    }

    /// Every prescription on record, hidden ones included, in creation
    /// order.  Reads only.
    pub fn list_all_rx(&self) -> (r: Vec<KnownRx>)
        ensures
            r@ == self@,
    {
        let mut out: Vec<KnownRx> = Vec::new();
        let n = self.entries.len();
        let mut i: usize = 0;
        while i < n
            invariant
                n == self@.len(),
                0 <= i <= n,
                out@ == self@.take(i as int),
            decreases n - i,
        {
            out.push(self.entries[i].clone());
            proof {
                assert(self@.take(i + 1) =~= self@.take(i as int).push(self@[i as int]));
            }
            i += 1;
        }
        proof {
            assert(self@.take(n as int) =~= self@);
        }
        out
    }

    /// The prescription recorded under `id`, if any.  Reads only.
    pub fn get_rx(&self, id: RxId) -> (r: Option<KnownRx>)
        requires
            self.wf(),
        ensures
            (match r {
                Some(k) => {
                    &&& k.id == id
                    &&& exists|i: int| 0 <= i < self@.len() && self@[i] == k
                    &&& forall|i: int|
                        0 <= i < self@.len() && (#[trigger] self@[i]).id == id ==> self@[i] == k
                },
                None => forall|i: int| 0 <= i < self@.len() ==> (#[trigger] self@[i]).id != id,
            }),
    {
        let n = self.entries.len();
        let mut i: usize = 0;
        while i < n
            invariant
                n == self@.len(),
                0 <= i <= n,
                self.wf(),
                forall|j: int| 0 <= j < i ==> (#[trigger] self@[j]).id != id,
            decreases n - i,
        {
            if self.entries[i].id == id {
                return Some(self.entries[i].clone());
            }
            i += 1;
        }
        None
    }
}

} // verus!
