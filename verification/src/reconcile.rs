use vstd::prelude::*;
use vstd::string::StringExecFns;
use crate::date::lemma_key_injective;
use crate::datestr::{canon_chars, lemma_canon_injective, parse_canon};
use crate::day::{opt_view, own_opt, Day, DayView};
use crate::error::Error;
use crate::record::Record;
use crate::store::{
    empty_store, insert_all, raw_row_view, row_of, DatabaseManager, RawRow, RowV,
};

verus! {

/// How a candidate record whose date already has a stored record is
/// reconciled during a bulk import.
#[derive(Clone, Copy, PartialEq, Eq, Structural, Debug)]
pub enum DuplicateStrategy {
    Replace,
    Ignore,
    Fail,
    Append,
}

/// The store after writing every candidate in order; a later candidate
/// for the same date wins.
pub open spec fn apply_replace(m: Map<Seq<char>, RowV>, days: Seq<Day>) -> Map<Seq<char>, RowV>
    decreases days.len(),
{
    if days.len() == 0 {
        m
    } else {
        apply_replace(m, days.drop_last()).insert(
            canon_chars(days.last()@.date),
            row_of(days.last()@),
        )
    }
}

/// The store after writing only the candidates whose date is still free
/// when their turn comes.
pub open spec fn apply_ignore(m: Map<Seq<char>, RowV>, days: Seq<Day>) -> Map<Seq<char>, RowV>
    decreases days.len(),
{
    if days.len() == 0 {
        m
    } else {
        let prev = apply_ignore(m, days.drop_last());
        if prev.contains_key(canon_chars(days.last()@.date)) {
            prev
        } else {
            prev.insert(canon_chars(days.last()@.date), row_of(days.last()@))
        }
    }
}

/// Candidate `i` conflicts when its date is already stored or appears
/// earlier in the batch.
pub open spec fn conflicts_at(m: Map<Seq<char>, RowV>, days: Seq<Day>, i: int) -> bool {
    m.contains_key(canon_chars(days[i]@.date)) || exists|j: int|
        0 <= j < i && canon_chars(days[j]@.date) == canon_chars(days[i]@.date)
}

pub open spec fn has_conflict(m: Map<Seq<char>, RowV>, days: Seq<Day>) -> bool {
    exists|i: int| 0 <= i < days.len() && conflicts_at(m, days, i)
}

/// Candidate `i` is the first conflicting one.
pub open spec fn is_first_conflict(m: Map<Seq<char>, RowV>, days: Seq<Day>, i: int) -> bool {
    &&& 0 <= i < days.len()
    &&& conflicts_at(m, days, i)
    &&& forall|j: int| 0 <= j < i ==> !conflicts_at(m, days, j)
}

/// The record views denoted by the parseable records, in order.
pub open spec fn parsed_views(records: Seq<Record>) -> Seq<DayView>
    decreases records.len(),
{
    if records.len() == 0 {
        Seq::empty()
    } else {
        let rest = parsed_views(records.drop_last());
        match parse_canon(records.last().date@) {
            Some(d) => rest.push(
                DayView {
                    date: d,
                    event: records.last().event@,
                    weather: opt_view(records.last().weather),
                    mood: opt_view(records.last().mood),
                },
            ),
            None => rest,
        }
    }
}

/// The date texts of the unparseable records, in order.
pub open spec fn failed_dates(records: Seq<Record>) -> Seq<Seq<char>>
    decreases records.len(),
{
    if records.len() == 0 {
        Seq::empty()
    } else {
        let rest = failed_dates(records.drop_last());
        match parse_canon(records.last().date@) {
            Some(d) => rest,
            None => rest.push(records.last().date@),
        }
    }
}

/// Applies external candidate records to a record store under a
/// duplicate-resolution policy.
pub struct Importer;

impl Importer {
    pub fn new() -> (im: Importer) {
        Importer
    }

    /// Converts exchange records into store records, collecting one parse
    /// error per failing record instead of aborting the batch.
    #[verifier::loop_isolation(false)]
    pub fn convert_records(records: &Vec<Record>) -> (r: (Vec<Day>, Vec<Error>))
        ensures
            r.0@.len() == parsed_views(records@).len(),
            forall|i: int|
                0 <= i < r.0@.len() ==> (#[trigger] r.0@[i])@ == parsed_views(records@)[i]
                    && r.0@[i].wf(),
            r.1@.len() == failed_dates(records@).len(),
            forall|i: int|
                0 <= i < r.1@.len() ==> ((#[trigger] r.1@[i]) matches Error::InvalidDate(s) && s@
                    == failed_dates(records@)[i]),
    {
        let n = records.len();
        let mut days: Vec<Day> = Vec::new();
        let mut errs: Vec<Error> = Vec::new();
        let mut i: usize = 0;
        while i < n
            invariant
                0 <= i <= n,
                days@.len() == parsed_views(records@.subrange(0, i as int)).len(),
                forall|p: int|
                    0 <= p < days@.len() ==> (#[trigger] days@[p])@ == parsed_views(
                        records@.subrange(0, i as int),
                    )[p] && days@[p].wf(),
                errs@.len() == failed_dates(records@.subrange(0, i as int)).len(),
                forall|p: int|
                    0 <= p < errs@.len() ==> ((#[trigger] errs@[p]) matches Error::InvalidDate(s)
                        && s@ == failed_dates(records@.subrange(0, i as int))[p]),
            decreases n - i,
        {
            proof {
                assert(records@.subrange(0, i + 1).drop_last() =~= records@.subrange(0, i as int));
                assert(records@.subrange(0, i + 1).last() == records@[i as int]);
            }
            match Day::from_record(&records[i]) {
                Ok(d) => {
                    days.push(d);
                },
                Err(e) => {
                    errs.push(e);
                },
            }
            i = i + 1;
        }
        proof {
            assert(records@.subrange(0, n as int) =~= records@);
        }
        (days, errs)
    }

    /// Applies candidates to the store under the chosen policy.
    ///
    /// - Replace writes every candidate, a later batch entry winning.
    /// - Ignore writes only candidates whose date is still free.
    /// - Fail applies the whole batch all-or-nothing: on the first
    ///   candidate whose date is already stored or duplicated earlier in
    ///   the batch, nothing at all is applied and that date is reported.
    /// - Append is deliberately unsupported and changes nothing.
    ///
    /// Each single write is atomic, the batch under Replace and Ignore is
    /// not: when one of their writes fails, the store holds exactly the
    /// outcome of some prefix of the batch.
    #[verifier::loop_isolation(false)]
    #[verifier::rlimit(60)]
    pub fn import_to_db(
        &self,
        db_mgr: &mut DatabaseManager,
        data: Vec<Day>,
        mode: DuplicateStrategy,
    ) -> (r: Result<(), Error>)
        requires
            forall|i: int| 0 <= i < data@.len() ==> (#[trigger] data@[i]).wf(),
        ensures
            mode is Replace ==> (r is Ok ==> final(db_mgr)@ == apply_replace(
                old(db_mgr)@,
                data@,
            )),
            mode is Replace ==> (r is Err ==> exists|k: int|
                0 <= k <= data@.len() && final(db_mgr)@ == apply_replace(
                    old(db_mgr)@,
                    data@.take(k),
                )),
            mode is Ignore ==> (r is Ok ==> final(db_mgr)@ == apply_ignore(old(db_mgr)@, data@)),
            mode is Ignore ==> (r is Err ==> exists|k: int|
                0 <= k <= data@.len() && final(db_mgr)@ == apply_ignore(
                    old(db_mgr)@,
                    data@.take(k),
                )),
            mode is Replace || mode is Ignore ==> (r matches Err(e) ==> e is Db),
            mode is Fail ==> (r is Ok ==> !has_conflict(old(db_mgr)@, data@) && final(db_mgr)@
                == apply_replace(old(db_mgr)@, data@)),
            mode is Fail ==> (r is Err ==> final(db_mgr)@ == old(db_mgr)@),
            mode is Fail ==> (has_conflict(old(db_mgr)@, data@) ==> r is Err),
            mode is Fail ==> (r matches Err(e) ==> e is Conflict || e is Db),
            mode is Fail ==> (r matches Err(Error::Conflict(s)) ==> exists|i: int|
                is_first_conflict(old(db_mgr)@, data@, i) && s@ == canon_chars(
                    data@[i]@.date,
                )),
            mode is Append ==> r is Err && final(db_mgr)@ == old(db_mgr)@,
            mode is Append ==> (r matches Err(e) ==> e is Unsupported),
    {
        let ghost m0 = db_mgr@;
        let n = data.len();
        match mode {
            DuplicateStrategy::Replace => {
                let mut i: usize = 0;
                while i < n
                    invariant
                        0 <= i <= n,
                        db_mgr@ == apply_replace(m0, data@.subrange(0, i as int)),
                    decreases n - i,
                {
                    match db_mgr.add_day(&data[i]) {
                        Ok(_) => {},
                        Err(e) => {
                            proof {
                                assert(data@.take(i as int) =~= data@.subrange(0, i as int));
                            }
                            return Err(e);
                        },
                    }
                    proof {
                        assert(data@.subrange(0, i + 1).drop_last() =~= data@.subrange(
                            0,
                            i as int,
                        ));
                        assert(data@.subrange(0, i + 1).last() == data@[i as int]);
                    }
                    i = i + 1;
                }
                proof {
                    assert(data@.subrange(0, n as int) =~= data@);
                }
                Ok(())
            },
            DuplicateStrategy::Ignore => {
                let mut i: usize = 0;
                while i < n
                    invariant
                        0 <= i <= n,
                        db_mgr@ == apply_ignore(m0, data@.subrange(0, i as int)),
                    decreases n - i,
                {
                    proof {
                        assert(data@.subrange(0, i + 1).drop_last() =~= data@.subrange(
                            0,
                            i as int,
                        ));
                        assert(data@.subrange(0, i + 1).last() == data@[i as int]);
                    }
                    let present = match db_mgr.read_day(data[i].date()) {
                        Ok(o) => o.is_some(),
                        Err(e) => {
                            proof {
                                assert(data@.take(i as int) =~= data@.subrange(0, i as int));
                            }
                            return Err(e);
                        },
                    };
                    if !present {
                        match db_mgr.add_day(&data[i]) {
                            Ok(_) => {},
                            Err(e) => {
                                proof {
                                    assert(data@.take(i as int) =~= data@.subrange(0, i as int));
                                }
                                return Err(e);
                            },
                        }
                    }
                    i = i + 1;
                }
                proof {
                    assert(data@.subrange(0, n as int) =~= data@);
                }
                Ok(())
            },
            DuplicateStrategy::Fail => {
                let mut i: usize = 0;
                while i < n
                    invariant
                        0 <= i <= n,
                        db_mgr@ == m0,
                        forall|j: int| 0 <= j < i ==> !conflicts_at(m0, data@, j),
                    decreases n - i,
                {
                    let stored = match db_mgr.read_day(data[i].date()) {
                        Ok(o) => o.is_some(),
                        Err(e) => {
                            return Err(e);
                        },
                    };
                    if stored {
                        proof {
                            assert(conflicts_at(m0, data@, i as int));
                            assert(is_first_conflict(m0, data@, i as int));
                        }
                        return Err(Error::Conflict(data[i].date().format_canonical()));
                    }
                    let ki = data[i].date().key_value();
                    let mut j: usize = 0;
                    while j < i
                        invariant
                            0 <= j <= i,
                            forall|p: int|
                                0 <= p < j ==> (#[trigger] data@[p])@.date.key()
                                    != data@[i as int]@.date.key(),
                        decreases i - j,
                    {
                        if data[j].date().key_value() == ki {
                            proof {
                                lemma_key_injective(data@[j as int]@.date, data@[i as int]@.date);
                                assert(conflicts_at(m0, data@, i as int));
                                assert(is_first_conflict(m0, data@, i as int));
                            }
                            return Err(Error::Conflict(data[i].date().format_canonical()));
                        }
                        j = j + 1;
                    }
                    proof {
                        assert forall|p: int| 0 <= p < i implies canon_chars(
                            (#[trigger] data@[p])@.date,
                        ) != canon_chars(data@[i as int]@.date) by {
                            if canon_chars(data@[p]@.date) == canon_chars(data@[i as int]@.date) {
                                lemma_canon_injective(data@[p]@.date, data@[i as int]@.date);
                            }
                        }
                        assert(!conflicts_at(m0, data@, i as int));
                    }
                    i = i + 1;
                }
                let mut rows: Vec<RawRow> = Vec::new();
                let mut i2: usize = 0;
                while i2 < n
                    invariant
                        0 <= i2 <= n,
                        db_mgr@ == m0,
                        rows@.len() == i2,
                        forall|p: int|
                            0 <= p < i2 ==> (#[trigger] rows@[p]).0@ == canon_chars(
                                data@[p]@.date,
                            ) && raw_row_view(rows@[p]) == row_of(data@[p]@),
                    decreases n - i2,
                {
                    let row: RawRow = (
                        data[i2].date().format_canonical(),
                        String::from_str(data[i2].event().instruct.as_str()),
                        own_opt(data[i2].weather()),
                        own_opt(data[i2].mood()),
                    );
                    rows.push(row);
                    i2 = i2 + 1;
                }
                match db_mgr.insert_batch(&rows) {
                    Ok(()) => {
                        proof {
                            lemma_rows_replace(m0, rows@, data@);
                            if has_conflict(m0, data@) {
                                let c = choose|c: int|
                                    0 <= c < data@.len() && conflicts_at(m0, data@, c);
                                assert(!conflicts_at(m0, data@, c));
                            }
                        }
                        Ok(())
                    },
                    Err(e) => Err(e),
                }
            },
            DuplicateStrategy::Append => Err(Error::Unsupported),
        }
    }
}

/// Inserting rows that mirror candidate records writes exactly what
/// replaying the candidates writes.
proof fn lemma_rows_replace(m: Map<Seq<char>, RowV>, rows: Seq<RawRow>, days: Seq<Day>)
    requires
        rows.len() == days.len(),
        forall|p: int|
            0 <= p < rows.len() ==> (#[trigger] rows[p]).0@ == canon_chars(days[p]@.date)
                && raw_row_view(rows[p]) == row_of(days[p]@),
    ensures
        insert_all(m, rows) == apply_replace(m, days),
    decreases rows.len(),
{
    if rows.len() > 0 {
        lemma_rows_replace(m, rows.drop_last(), days.drop_last());
        assert(rows.last() == rows[rows.len() - 1]);
        assert(days.last() == days[days.len() - 1]);
    }
}

/// Replaying candidates whose rows mirror a model keeps the result inside
/// the model while covering every candidate's date.
proof fn lemma_apply_replace_sub(m0: Map<Seq<char>, RowV>, days: Seq<Day>, m: Map<Seq<char>, RowV>)
    requires
        forall|i: int|
            0 <= i < days.len() ==> m.contains_key(canon_chars((#[trigger] days[i])@.date))
                && row_of(days[i]@) == m[canon_chars(days[i]@.date)],
        forall|k: Seq<char>| #[trigger] m0.contains_key(k) ==> m.contains_key(k) && m0[k] == m[k],
    ensures
        forall|k: Seq<char>| #[trigger]
            apply_replace(m0, days).contains_key(k) ==> m.contains_key(k) && apply_replace(
                m0,
                days,
            )[k] == m[k],
        forall|k: Seq<char>| #[trigger]
            m0.contains_key(k) ==> apply_replace(m0, days).contains_key(k),
        forall|i: int|
            0 <= i < days.len() ==> apply_replace(m0, days).contains_key(
                canon_chars((#[trigger] days[i])@.date),
            ),
    decreases days.len(),
{
    if days.len() > 0 {
        lemma_apply_replace_sub(m0, days.drop_last(), m);
        let l = days.len() - 1;
        assert(days.last() == days[l]);
        let prev = apply_replace(m0, days.drop_last());
        let kl = canon_chars(days[l]@.date);
        assert(apply_replace(m0, days) == prev.insert(kl, row_of(days[l]@)));
        assert forall|k: Seq<char>| #[trigger]
            apply_replace(m0, days).contains_key(k) implies m.contains_key(k) && apply_replace(
            m0,
            days,
        )[k] == m[k] by {
            if k != kl {
                assert(prev.contains_key(k));
            }
        }
        assert forall|i: int| 0 <= i < days.len() implies apply_replace(m0, days).contains_key(
            canon_chars((#[trigger] days[i])@.date),
        ) by {
            if i < l {
                assert(days.drop_last()[i] == days[i]);
                assert(prev.contains_key(canon_chars(days[i]@.date)));
            }
        }
    }
}

/// Law: exporting every record of a store and importing that exact
/// payload with the replace policy into an empty store reproduces the
/// original store. `days` stands for the imported candidates: one per
/// stored date, carrying exactly the stored content, as the export and
/// the per-record conversion hand them over.
pub proof fn lemma_export_import_round_trip(m: Map<Seq<char>, RowV>, days: Seq<Day>)
    requires
        forall|i: int|
            0 <= i < days.len() ==> m.contains_key(canon_chars((#[trigger] days[i])@.date))
                && row_of(days[i]@) == m[canon_chars(days[i]@.date)],
        forall|k: Seq<char>| #[trigger]
            m.contains_key(k) ==> exists|i: int|
                0 <= i < days.len() && canon_chars(days[i]@.date) == k,
    ensures
        apply_replace(empty_store(), days) == m,
{
    lemma_apply_replace_sub(empty_store(), days, m);
    let r = apply_replace(empty_store(), days);
    assert forall|k: Seq<char>| #[trigger] m.contains_key(k) implies r.contains_key(k) by {
        let i = choose|i: int| 0 <= i < days.len() && canon_chars(days[i]@.date) == k;
        assert(r.contains_key(canon_chars(days[i]@.date)));
    }
    assert(r =~= m);
}

} // verus!
