use vstd::prelude::*;
use crate::datestr::{canon_chars, lemma_canon_round_trip, parse_canon};
use crate::day::opt_view;
use crate::error::Error;
use crate::record::Record;
use crate::store::{row_of, DatabaseManager, RowV};

verus! {

/// The date key a canonical date text denotes, for ordering statements.
pub open spec fn canon_key(s: Seq<char>) -> int {
    match parse_canon(s) {
        Some(d) => d.key(),
        None => -1,
    }
}

/// Pulls stored records and converts them to exchange form. Writing the
/// converted records out in some encoding is the surrounding
/// application's concern; this engine only produces the values.
pub struct Exporter<'a> {
    db_mgr: &'a DatabaseManager,
}

impl<'a> Exporter<'a> {
    /// The store this exporter reads.
    pub closed spec fn model(&self) -> Map<Seq<char>, RowV> {
        self.db_mgr@
    }

    pub fn new(db_mgr: &'a DatabaseManager) -> (e: Exporter<'a>)
        ensures
            e.model() == db_mgr@,
    {
        Exporter { db_mgr }
    }

    /// Converts every stored record to exchange form: one record per
    /// stored date, in ascending date order, each carrying its date in
    /// canonical text and its stored fields unchanged.
    #[verifier::loop_isolation(false)]
    pub fn all_export(&self) -> (r: Result<Vec<Record>, Error>)
        ensures
            r matches Ok(v) ==> v@.len() == self.model().dom().len(),
            r matches Ok(v) ==> forall|i: int|
                0 <= i < v@.len() ==> self.model().contains_key((#[trigger] v@[i]).date@)
                    && self.model()[v@[i].date@] == (
                v@[i].event@,
                opt_view(v@[i].weather),
                opt_view(v@[i].mood),
            ) && parse_canon(v@[i].date@) is Some,
            r matches Ok(v) ==> forall|k: Seq<char>|
                self.model().contains_key(k) ==> exists|i: int|
                    0 <= i < v@.len() && v@[i].date@ == k,
            r matches Ok(v) ==> forall|i: int, j: int|
                0 <= i < j < v@.len() ==> canon_key(v@[i].date@) < canon_key(v@[j].date@),
            r matches Err(e) ==> e is Db || e is InvalidData,
    {
        let days = match self.db_mgr.read_all() {
            Ok(v) => v,
            Err(e) => return Err(e),
        };
        let n = days.len();
        let mut out: Vec<Record> = Vec::new();
        let mut i: usize = 0;
        while i < n
            invariant
                0 <= i <= n,
                out@.len() == i,
                forall|p: int|
                    0 <= p < i ==> (#[trigger] out@[p]).date@ == canon_chars(days@[p]@.date)
                        && out@[p].event@ == days@[p]@.event && opt_view(out@[p].weather)
                        == days@[p]@.weather && opt_view(out@[p].mood) == days@[p]@.mood,
            decreases n - i,
        {
            let rec = Record::from_day(&days[i]);
            out.push(rec);
            i = i + 1;
        }
        proof {
            assert forall|p: int| 0 <= p < n implies parse_canon(
                (#[trigger] out@[p]).date@,
            ) == Some(days@[p]@.date) by {
                lemma_canon_round_trip(days@[p]@.date);
            }
            assert forall|k: Seq<char>| self.model().contains_key(k) implies exists|p: int|
                0 <= p < out@.len() && out@[p].date@ == k by {
                let q = choose|q: int|
                    0 <= q < days@.len() && canon_chars(days@[q]@.date) == k;
                assert(out@[q].date@ == k);
            }
        }
        Ok(out)
    }
}

} // verus!
