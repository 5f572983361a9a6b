use vstd::prelude::*;
use vstd::seq_lib::*;
use crate::date::{lemma_key_injective, Date};
use crate::datestr::{canon_chars, lemma_canon_round_trip, lemma_parse_canon_inverse, parse_canon};
use crate::day::{clone_opt, opt_str_view, opt_view, Day, DayView};
use crate::error::Error;
use crate::event::Event;

verus! {

/// Declaration of rusqlite's connection handle. A value of it is opaque:
/// the library reads the table behind it only through the trusted wrappers
/// below, whose contracts speak of `table_of`.
#[verifier::external_type_specification]
#[verifier::external_body]
pub struct ExConnection(rusqlite::Connection);

/// A stored row's content: entry text, weather and mood columns.
pub type RowV = (Seq<char>, Option<Seq<char>>, Option<Seq<char>>);

/// A raw row as the database hands it out: date text and the three columns.
pub type RawRow = (String, String, Option<String>, Option<String>);

/// What the day table of the connected database holds: for each date text
/// (the primary key, so unique) the stored entry, weather and mood.
/// The store assumes a single actor: the table behind a handle is read
/// and changed through that handle alone.
pub uninterp spec fn table_of(conn: rusqlite::Connection) -> Map<Seq<char>, RowV>;

/// The empty table.
pub open spec fn empty_store() -> Map<Seq<char>, RowV> {
    Map::empty()
}

/// The content of a raw row.
pub open spec fn raw_row_view(v: RawRow) -> RowV {
    (v.1@, opt_view(v.2), opt_view(v.3))
}

/// The stored content of a record.
pub open spec fn row_of(d: DayView) -> RowV {
    (d.event, d.weather, d.mood)
}

/// The map after inserting every row in order.
pub open spec fn insert_all(m: Map<Seq<char>, RowV>, rows: Seq<RawRow>) -> Map<Seq<char>, RowV>
    decreases rows.len(),
{
    if rows.len() == 0 {
        m
    } else {
        insert_all(m, rows.drop_last()).insert(rows.last().0@, raw_row_view(rows.last()))
    }
}

/// Records in strictly ascending date order.
pub open spec fn sorted_by_date(s: Seq<Day>) -> bool {
    forall|i: int, j: int| 0 <= i < j < s.len() ==> s[i]@.date.key() < s[j]@.date.key()
}

/// Owns the embedded database: get, upsert, delete, list and range
/// operations keyed by date, with at most one record per date at all
/// times (the date column is the primary key).
pub struct DatabaseManager {
    conn: rusqlite::Connection,
}

impl View for DatabaseManager {
    type V = Map<Seq<char>, RowV>;

    closed spec fn view(&self) -> Map<Seq<char>, RowV> {
        table_of(self.conn)
    }
}

impl DatabaseManager {
    /// Relies on rusqlite's `Connection::open` and `Connection::execute`:
    /// opens the database file, creating it if absent, and creates the day
    /// table if it does not exist. What an existing file holds is unknown;
    /// only finiteness of the table is assumed.
    #[verifier::external_body]
    fn open_conn(path: &str) -> (r: Result<DatabaseManager, Error>)
        ensures
            r matches Ok(db) ==> table_of(db.conn).dom().finite(),
            r matches Err(e) ==> e is Db,
    {
        let conn = match rusqlite::Connection::open(path) {
            Ok(c) => c,
            Err(e) => return Err(Error::Db(e.to_string())),
        };
        let create = "CREATE TABLE IF NOT EXISTS day (date TEXT NOT NULL PRIMARY KEY, event TEXT, weather TEXT, mood TEXT)";
        match conn.execute(create, ()) {
            Ok(_) => Ok(DatabaseManager { conn }),
            Err(e) => Err(Error::Db(e.to_string())),
        }
    }

    /// Relies on rusqlite's `Connection::open_in_memory` and
    /// `Connection::execute`: a fresh in-memory database is empty, so the
    /// newly created day table holds nothing.
    #[verifier::external_body]
    fn open_conn_memory() -> (r: Result<DatabaseManager, Error>)
        ensures
            r matches Ok(db) ==> table_of(db.conn) == empty_store(),
            r matches Err(e) ==> e is Db,
    {
        let conn = match rusqlite::Connection::open_in_memory() {
            Ok(c) => c,
            Err(e) => return Err(Error::Db(e.to_string())),
        };
        let create = "CREATE TABLE IF NOT EXISTS day (date TEXT NOT NULL PRIMARY KEY, event TEXT, weather TEXT, mood TEXT)";
        match conn.execute(create, ()) {
            Ok(_) => Ok(DatabaseManager { conn }),
            Err(e) => Err(Error::Db(e.to_string())),
        }
    }

    /// Relies on rusqlite's `Connection::query_row` selecting by the
    /// primary key: hands back the stored row for exactly this date text,
    /// or nothing when the table has no such key.
    #[verifier::external_body]
    fn sql_get(&self, key: &str) -> (r: Result<
        Option<(String, Option<String>, Option<String>)>,
        Error,
    >)
        ensures
            r matches Ok(Some(v)) ==> table_of(self.conn).contains_key(key@) && table_of(
                self.conn,
            )[key@] == (v.0@, opt_view(v.1), opt_view(v.2)),
            r matches Ok(None) ==> !table_of(self.conn).contains_key(key@),
            r matches Err(e) ==> e is Db,
    {
        let q = "SELECT event, weather, mood FROM day WHERE date=?1";
        let res = self.conn.query_row(q, [key], |row| {
            Ok((row.get(0)?, row.get(1)?, row.get(2)?))
        });
        match res {
            Ok(v) => Ok(Some(v)),
            Err(rusqlite::Error::QueryReturnedNoRows) => Ok(None),
            Err(e) => Err(Error::Db(e.to_string())),
        }
    }

    /// Relies on rusqlite's `Connection::execute` with INSERT OR REPLACE on
    /// the primary key: the row for this date text is written wholesale,
    /// replacing any previous row. A single SQLite statement is atomic:
    /// when it fails, the table is as it was.
    #[verifier::external_body]
    fn sql_upsert(
        &mut self,
        key: &str,
        event: &str,
        weather: Option<&str>,
        mood: Option<&str>,
    ) -> (r: Result<(), Error>)
        ensures
            r is Ok ==> table_of(final(self).conn) == table_of(old(self).conn).insert(
                key@,
                (event@, opt_str_view(weather), opt_str_view(mood)),
            ),
            r is Err ==> table_of(final(self).conn) == table_of(old(self).conn),
            r matches Err(e) ==> e is Db,
    {
        let q = "INSERT OR REPLACE INTO day (date, event, weather, mood) VALUES (?1, ?2, ?3, ?4)";
        match self.conn.execute(q, (key, event, weather, mood)) {
            Ok(_) => Ok(()),
            Err(e) => Err(Error::Db(e.to_string())),
        }
    }

    /// Relies on rusqlite's `Connection::execute` with DELETE on the
    /// primary key: removes the row if present; the count of changed rows
    /// is one or zero accordingly, the key being unique. A single SQLite
    /// statement is atomic: when it fails, the table is as it was.
    #[verifier::external_body]
    fn sql_delete(&mut self, key: &str) -> (r: Result<usize, Error>)
        ensures
            r matches Ok(n) ==> table_of(final(self).conn) == table_of(old(self).conn).remove(
                key@,
            ) && (n == 1 <==> table_of(old(self).conn).contains_key(key@)) && n <= 1,
            r is Err ==> table_of(final(self).conn) == table_of(old(self).conn),
            r matches Err(e) ==> e is Db,
    {
        match self.conn.execute("DELETE FROM day WHERE date=?1", [key]) {
            Ok(n) => Ok(n),
            Err(e) => Err(Error::Db(e.to_string())),
        }
    }

    /// Relies on rusqlite's `Connection::prepare` and `Statement::query_map`
    /// over SELECT on the day table: hands back every stored row exactly
    /// once, in unspecified order; date texts are pairwise distinct (the
    /// primary key) and the row count is the table's size.
    #[verifier::external_body]
    fn sql_select_all(&self) -> (r: Result<Vec<RawRow>, Error>)
        ensures
            r matches Ok(v) ==> table_of(self.conn).dom().finite(),
            r matches Ok(v) ==> v@.len() == table_of(self.conn).dom().len(),
            r matches Ok(v) ==> forall|i: int|
                0 <= i < v@.len() ==> table_of(self.conn).contains_key(#[trigger] v@[i].0@)
                    && table_of(self.conn)[v@[i].0@] == raw_row_view(v@[i]),
            r matches Ok(v) ==> forall|i: int, j: int|
                0 <= i < j < v@.len() ==> v@[i].0@ != v@[j].0@,
            r matches Ok(v) ==> forall|k: Seq<char>|
                table_of(self.conn).contains_key(k) ==> exists|i: int|
                    0 <= i < v@.len() && v@[i].0@ == k,
            r matches Err(e) ==> e is Db,
    {
        let mut stmt = match self.conn.prepare("SELECT date, event, weather, mood FROM day") {
            Ok(s) => s,
            Err(e) => return Err(Error::Db(e.to_string())),
        };
        let res: Result<Vec<RawRow>, rusqlite::Error> = stmt
            .query_map([], |row| Ok((row.get(0)?, row.get(1)?, row.get(2)?, row.get(3)?)))
            .and_then(|it| it.collect());
        match res {
            Ok(v) => Ok(v),
            Err(e) => Err(Error::Db(e.to_string())),
        }
    }

    /// Relies on rusqlite's `Connection::transaction`, `Transaction::execute`
    /// with plain INSERT, and `Transaction::commit`: all rows are inserted
    /// inside one transaction; on any failure (a duplicate key included)
    /// the transaction is dropped uncommitted, which rolls every change
    /// back, leaving the table as it was.
    #[verifier::external_body]
    fn sql_insert_batch(&mut self, rows: &Vec<RawRow>) -> (r: Result<(), Error>)
        ensures
            r is Ok ==> table_of(final(self).conn) == insert_all(table_of(old(self).conn), rows@),
            r is Err ==> table_of(final(self).conn) == table_of(old(self).conn),
            r matches Err(e) ==> e is Db,
    {
        let tx = match self.conn.transaction() {
            Ok(t) => t,
            Err(e) => return Err(Error::Db(e.to_string())),
        };
        let q = "INSERT INTO day (date, event, weather, mood) VALUES (?1, ?2, ?3, ?4)";
        for row in rows.iter() {
            if let Err(e) = tx.execute(q, (&row.0, &row.1, &row.2, &row.3)) {
                return Err(Error::Db(e.to_string()));
            }
        }
        match tx.commit() {
            Ok(()) => Ok(()),
            Err(e) => Err(Error::Db(e.to_string())),
        }
    }

    /// Applies a batch of raw rows inside one all-or-nothing transaction:
    /// either every row is inserted, or the store is left unchanged.
    pub(crate) fn insert_batch(&mut self, rows: &Vec<RawRow>) -> (r: Result<(), Error>)
        ensures
            r is Ok ==> final(self)@ == insert_all(old(self)@, rows@),
            r is Err ==> final(self)@ == old(self)@,
            r matches Err(e) ==> e is Db,
    {
        self.sql_insert_batch(rows)
    }

    /// Opens (creating if needed) the database file at `path`, with the day
    /// table created idempotently. What an existing file already holds is
    /// unknown to the contracts.
    pub fn from_path(path: &str) -> (r: Result<DatabaseManager, Error>)
        ensures
            r matches Ok(db) ==> db@.dom().finite(),
            r matches Err(e) ==> e is Db,
    {
        DatabaseManager::open_conn(path)
    }

    /// Opens a fresh, empty in-memory store.
    pub fn open_in_memory() -> (r: Result<DatabaseManager, Error>)
        ensures
            r matches Ok(db) ==> db@ == empty_store(),
            r matches Err(e) ==> e is Db,
    {
        DatabaseManager::open_conn_memory()
    }

    /// Reads the record stored for a date: `None` when no record exists,
    /// never a placeholder.
    pub fn read_day(&self, date: Date) -> (r: Result<Option<Day>, Error>)
        requires
            date.wf(),
        ensures
            r matches Ok(Some(day)) ==> self@.contains_key(canon_chars(date)) && day@.date == date
                && row_of(day@) == self@[canon_chars(date)] && day.wf(),
            r matches Ok(None) ==> !self@.contains_key(canon_chars(date)),
            r matches Err(e) ==> e is Db,
    {
        let key = date.format_canonical();
        match self.sql_get(key.as_str()) {
            Ok(Some((event, weather, mood))) => Ok(
                Some(Day::new(date, Event::new(event.as_str()), weather, mood)),
            ),
            Ok(None) => Ok(None),
            Err(e) => Err(e),
        }
    }

    /// Writes a record: replaces the record under its date wholesale, or
    /// inserts it if the date had none. The write is atomic for the single
    /// record: on failure the store is unchanged.
    pub fn add_day(&mut self, day: &Day) -> (r: Result<(), Error>)
        requires
            day.wf(),
        ensures
            r is Ok ==> final(self)@ == old(self)@.insert(
                canon_chars(day@.date),
                row_of(day@),
            ),
            r is Err ==> final(self)@ == old(self)@,
            r matches Err(e) ==> e is Db,
    {
        let key = day.date().format_canonical();
        self.sql_upsert(key.as_str(), day.event().instruct.as_str(), day.weather(), day.mood())
    }

    /// Deletes the record of a date; idempotent, deleting an absent date
    /// succeeds and leaves the store unchanged. The count says whether a
    /// record was removed. The deletion is atomic for the single record:
    /// on failure the store is unchanged.
    pub fn remove_day(&mut self, date: Date) -> (r: Result<usize, Error>)
        requires
            date.wf(),
        ensures
            r matches Ok(n) ==> final(self)@ == old(self)@.remove(canon_chars(date)) && (n == 1
                <==> old(self)@.contains_key(canon_chars(date))) && n <= 1,
            r is Err ==> final(self)@ == old(self)@,
            r matches Err(e) ==> e is Db,
    {
        let key = date.format_canonical();
        self.sql_delete(key.as_str())
    }

    /// Lists every stored record, ordered by date ascending, one record per
    /// stored key; fails when the store holds a date text that is not
    /// canonical, naming it.
    #[verifier::loop_isolation(false)]
    #[verifier::rlimit(60)]
    pub fn read_all(&self) -> (r: Result<Vec<Day>, Error>)
        ensures
            r matches Ok(v) ==> sorted_by_date(v@),
            r matches Ok(v) ==> v@.len() == self@.dom().len(),
            r matches Ok(v) ==> forall|i: int|
                0 <= i < v@.len() ==> (#[trigger] v@[i]).wf() && self@.contains_key(
                    canon_chars(v@[i]@.date),
                ) && row_of(v@[i]@) == self@[canon_chars(v@[i]@.date)],
            r matches Ok(v) ==> forall|k: Seq<char>|
                self@.contains_key(k) ==> exists|i: int|
                    0 <= i < v@.len() && canon_chars(v@[i]@.date) == k,
            r matches Err(e) ==> e is Db || e is InvalidData,
            r matches Err(e) ==> (e matches Error::InvalidData(s) ==> self@.contains_key(s@)
                && parse_canon(s@) is None),
    {
        let rows = match self.sql_select_all() {
            Ok(v) => v,
            Err(e) => return Err(e),
        };
        let n = rows.len();
        let mut out: Vec<Day> = Vec::new();
        let mut i: usize = 0;
        while i < n
            invariant
                0 <= i <= n,
                out@.len() == i,
                sorted_by_date(out@),
                forall|p: int|
                    0 <= p < out@.len() ==> (#[trigger] out@[p]).wf() && self@.contains_key(
                        canon_chars(out@[p]@.date),
                    ) && row_of(out@[p]@) == self@[canon_chars(out@[p]@.date)],
                forall|p: int|
                    0 <= p < out@.len() ==> exists|jj: int|
                        0 <= jj < i && canon_chars((#[trigger] out@[p])@.date) == rows@[jj].0@,
                forall|jj: int|
                    0 <= jj < i ==> exists|p: int|
                        0 <= p < out@.len() && canon_chars(out@[p]@.date) == (
                        #[trigger] rows@[jj]).0@,
            decreases n - i,
        {
            let date = match Date::parse_canonical(rows[i].0.as_str()) {
                Some(d) => d,
                None => {
                    return Err(Error::InvalidData(rows[i].0.clone()));
                },
            };
            proof {
                lemma_parse_canon_inverse(rows@[i as int].0@, date);
            }
            let day = Day::new(
                date,
                Event::new(rows[i].1.as_str()),
                clone_opt(&rows[i].2),
                clone_opt(&rows[i].3),
            );
            proof {
                assert forall|p: int| 0 <= p < out@.len() implies (#[trigger] out@[p])@.date.key()
                    != day@.date.key() by {
                    if out@[p]@.date.key() == day@.date.key() {
                        lemma_key_injective(out@[p]@.date, date);
                        let jj = choose|jj: int|
                            0 <= jj < i && canon_chars(out@[p]@.date) == rows@[jj].0@;
                        assert(rows@[jj].0@ == rows@[i as int].0@);
                    }
                }
            }
            let ghost old_out = out@;
            insert_sorted(&mut out, day);
            proof {
                assert forall|p: int| 0 <= p < out@.len() implies (#[trigger] out@[p]).wf()
                    && self@.contains_key(canon_chars(out@[p]@.date)) && row_of(out@[p]@)
                    == self@[canon_chars(out@[p]@.date)] by {
                    if out@[p] != day {
                        let q = choose|q: int| 0 <= q < old_out.len() && old_out[q] == out@[p];
                    }
                }
                assert forall|p: int| 0 <= p < out@.len() implies exists|jj: int|
                    0 <= jj < i + 1 && canon_chars((#[trigger] out@[p])@.date) == rows@[jj].0@ by {
                    if out@[p] == day {
                        assert(canon_chars(out@[p]@.date) == rows@[i as int].0@);
                    } else {
                        let q = choose|q: int| 0 <= q < old_out.len() && old_out[q] == out@[p];
                    }
                }
                assert forall|jj: int| 0 <= jj < i + 1 implies exists|p: int|
                    0 <= p < out@.len() && canon_chars(out@[p]@.date) == (
                #[trigger] rows@[jj]).0@ by {
                    if jj == i {
                        let q = choose|q: int| 0 <= q < out@.len() && out@[q] == day;
                        assert(canon_chars(out@[q]@.date) == rows@[jj].0@);
                    } else {
                        let p0 = choose|p0: int|
                            0 <= p0 < old_out.len() && canon_chars(old_out[p0]@.date)
                                == rows@[jj].0@;
                        assert(out@.contains(old_out[p0]));
                        let p = choose|p: int| 0 <= p < out@.len() && out@[p] == old_out[p0];
                        assert(canon_chars(out@[p]@.date) == rows@[jj].0@);
                    }
                }
            }
            i = i + 1;
        }
        proof {
            assert forall|k: Seq<char>| self@.contains_key(k) implies exists|p: int|
                0 <= p < out@.len() && canon_chars(out@[p]@.date) == k by {
                let jj = choose|jj: int| 0 <= jj < rows@.len() && rows@[jj].0@ == k;
                assert(exists|p: int|
                    0 <= p < out@.len() && canon_chars(out@[p]@.date) == rows@[jj].0@);
            }
        }
        Ok(out)
    }

    /// Lists the records with dates between `from` and `to`, both
    /// inclusive, ordered ascending; an empty range gives an empty list.
    #[verifier::rlimit(60)]
    pub fn read_from_to(&self, from: Date, to: Date) -> (r: Result<Vec<Day>, Error>)
        requires
            from.wf(),
            to.wf(),
        ensures
            r matches Ok(v) ==> sorted_by_date(v@),
            r matches Ok(v) ==> forall|i: int|
                0 <= i < v@.len() ==> (#[trigger] v@[i]).wf() && from.key() <= v@[i]@.date.key()
                    <= to.key() && self@.contains_key(canon_chars(v@[i]@.date)) && row_of(v@[i]@)
                    == self@[canon_chars(v@[i]@.date)],
            r matches Ok(v) ==> forall|d: Date|
                d.wf() && self@.contains_key(#[trigger] canon_chars(d)) && from.key() <= d.key()
                    <= to.key() ==> exists|i: int| 0 <= i < v@.len() && v@[i]@.date == d,
            from.key() > to.key() ==> (r matches Ok(v) ==> v@.len() == 0),
            r matches Err(e) ==> e is Db || e is InvalidData,
    {
        let all = match self.read_all() {
            Ok(v) => v,
            Err(e) => return Err(e),
        };
        let n = all.len();
        let mut out: Vec<Day> = Vec::new();
        let mut i: usize = 0;
        while i < n
            invariant
                0 <= i <= n,
                n == all@.len(),
                from.wf(),
                to.wf(),
                sorted_by_date(all@),
                forall|j: int| 0 <= j < all@.len() ==> (#[trigger] all@[j]).wf(),
                sorted_by_date(out@),
                forall|p: int|
                    0 <= p < out@.len() ==> exists|j: int|
                        0 <= j < i && (#[trigger] out@[p])@ == all@[j]@,
                forall|p: int|
                    0 <= p < out@.len() ==> from.key() <= (#[trigger] out@[p])@.date.key()
                        <= to.key(),
                forall|j: int|
                    0 <= j < i && from.key() <= (#[trigger] all@[j])@.date.key() <= to.key()
                        ==> exists|p: int| 0 <= p < out@.len() && out@[p]@ == all@[j]@,
            decreases n - i,
        {
            let d = all[i].date();
            if from.le(&d) && d.le(&to) {
                let ghost old_out = out@;
                let copy = all[i].duplicate();
                proof {
                    assert forall|p: int| 0 <= p < old_out.len() implies old_out[p]@.date.key()
                        < all@[i as int]@.date.key() by {
                        let j = choose|j: int| 0 <= j < i && old_out[p]@ == all@[j]@;
                        assert(all@[j]@.date.key() < all@[i as int]@.date.key());
                    }
                }
                out.push(copy);
                proof {
                    assert forall|p: int| 0 <= p < out@.len() implies exists|j: int|
                        0 <= j < i + 1 && (#[trigger] out@[p])@ == all@[j]@ by {
                        if p == out@.len() - 1 {
                            assert(out@[p]@ == all@[i as int]@);
                        } else {
                            assert(out@[p] == old_out[p]);
                        }
                    }
                    assert forall|j: int|
                        0 <= j < i + 1 && from.key() <= (#[trigger] all@[j])@.date.key()
                            <= to.key() implies exists|p: int|
                        0 <= p < out@.len() && out@[p]@ == all@[j]@ by {
                        if j == i {
                            assert(out@[out@.len() - 1]@ == all@[i as int]@);
                        } else {
                            let p = choose|p: int|
                                0 <= p < old_out.len() && old_out[p]@ == all@[j]@;
                            assert(out@[p]@ == all@[j]@);
                        }
                    }
                }
            }
            i = i + 1;
        }
        proof {
            if from.key() > to.key() && out@.len() > 0 {
                let d0 = out@[0];
                assert(from.key() <= out@[0]@.date.key() <= to.key());
                assert(false);
            }
            lemma_range_cover(self@, all@, out@, from, to);
        }
        Ok(out)
    }
}

/// Every stored date inside the range is represented in the filtered list.
proof fn lemma_range_cover(
    m: Map<Seq<char>, RowV>,
    all: Seq<Day>,
    out: Seq<Day>,
    from: Date,
    to: Date,
)
    requires
        forall|j: int| 0 <= j < all.len() ==> (#[trigger] all[j]).wf(),
        forall|k: Seq<char>|
            m.contains_key(k) ==> exists|j: int|
                0 <= j < all.len() && canon_chars(all[j]@.date) == k,
        forall|j: int|
            0 <= j < all.len() && from.key() <= (#[trigger] all[j])@.date.key() <= to.key()
                ==> exists|p: int| 0 <= p < out.len() && out[p]@ == all[j]@,
    ensures
        forall|d: Date|
            d.wf() && m.contains_key(#[trigger] canon_chars(d)) && from.key() <= d.key()
                <= to.key() ==> exists|i2: int| 0 <= i2 < out.len() && out[i2]@.date == d,
{
    assert forall|d: Date|
        d.wf() && m.contains_key(#[trigger] canon_chars(d)) && from.key() <= d.key()
            <= to.key() implies exists|i2: int| 0 <= i2 < out.len() && out[i2]@.date == d by {
        let j = choose|j: int| 0 <= j < all.len() && canon_chars(all[j]@.date) == canon_chars(d);
        lemma_canon_round_trip(d);
        lemma_canon_round_trip(all[j]@.date);
        assert(all[j]@.date == d);
        let p = choose|p: int| 0 <= p < out.len() && out[p]@ == all[j]@;
        assert(out[p]@.date == d);
    }
}

/// Inserts a record into a date-sorted vector at its place, keeping the
/// order strict; the record's date must not collide with a present one.
#[verifier::loop_isolation(false)]
#[verifier::rlimit(60)]
fn insert_sorted(out: &mut Vec<Day>, day: Day)
    requires
        sorted_by_date(old(out)@),
        day.wf(),
        forall|p: int| 0 <= p < old(out)@.len() ==> (#[trigger] old(out)@[p]).wf(),
        forall|p: int|
            0 <= p < old(out)@.len() ==> (#[trigger] old(out)@[p])@.date.key() != day@.date.key(),
    ensures
        sorted_by_date(final(out)@),
        final(out)@.len() == old(out)@.len() + 1,
        exists|q: int| 0 <= q < final(out)@.len() && final(out)@[q] == day,
        forall|p: int|
            0 <= p < final(out)@.len() ==> final(out)@[p] == day || old(out)@.contains(
                #[trigger] final(out)@[p],
            ),
        forall|p: int| 0 <= p < old(out)@.len() ==> final(out)@.contains(#[trigger] old(out)@[p]),
{
    let dk = day.date().key_value();
    let mut pos: usize = 0;
    while pos < out.len() && out[pos].date().key_value() <= dk
        invariant
            0 <= pos <= out@.len(),
            forall|p: int| 0 <= p < pos ==> (#[trigger] out@[p])@.date.key() <= dk,
        decreases out@.len() - pos,
    {
        pos = pos + 1;
    }
    proof {
        out@.insert_ensures(pos as int, day);
    }
    let ghost old_out = out@;
    out.insert(pos, day);
    proof {
        assert forall|a: int, b: int| 0 <= a < b < out@.len() implies out@[a]@.date.key()
            < out@[b]@.date.key() by {
            if b < pos {
            } else if a < pos && b == pos {
                assert(out@[a] == old_out[a]);
                assert(old_out[a]@.date.key() <= dk && old_out[a]@.date.key() != dk);
            } else if a < pos && b > pos {
                assert(out@[a] == old_out[a]);
                assert(out@[b] == old_out[b - 1]);
                assert(old_out[a]@.date.key() < dk);
                if pos < old_out.len() {
                    assert(old_out[pos as int]@.date.key() > dk);
                }
            } else if a == pos && b > pos {
                assert(out@[b] == old_out[b - 1]);
                if pos < old_out.len() {
                    assert(old_out[pos as int]@.date.key() > dk);
                }
            } else {
                assert(out@[a] == old_out[a - 1]);
                assert(out@[b] == old_out[b - 1]);
            }
        }
        assert(out@[pos as int] == day);
        assert forall|p: int| 0 <= p < out@.len() implies out@[p] == day || old_out.contains(
            #[trigger] out@[p],
        ) by {
            if p < pos {
                assert(out@[p] == old_out[p]);
            } else if p > pos {
                assert(out@[p] == old_out[p - 1]);
            }
        }
        assert forall|p: int| 0 <= p < old_out.len() implies out@.contains(
            #[trigger] old_out[p],
        ) by {
            if p < pos {
                assert(out@[p] == old_out[p]);
            } else {
                assert(out@[p + 1] == old_out[p]);
            }
        }
    }
}

/// Law: writing a record and then reading the same date yields exactly
/// the just-written content.
pub proof fn lemma_upsert_then_get(m: Map<Seq<char>, RowV>, day: DayView)
    ensures
        m.insert(canon_chars(day.date), row_of(day)).contains_key(canon_chars(day.date)),
        m.insert(canon_chars(day.date), row_of(day))[canon_chars(day.date)] == row_of(day),
{
}

/// Law: a second write for the same date wholly replaces the first; the
/// earlier content does not survive.
pub proof fn lemma_upsert_replaces(m: Map<Seq<char>, RowV>, a: DayView, b: DayView)
    requires
        a.date == b.date,
    ensures
        m.insert(canon_chars(a.date), row_of(a)).insert(canon_chars(b.date), row_of(b)) == m.insert(
            canon_chars(b.date),
            row_of(b),
        ),
{
    assert(m.insert(canon_chars(a.date), row_of(a)).insert(canon_chars(b.date), row_of(b)) =~= m
        .insert(canon_chars(b.date), row_of(b)));
}

/// Law: deleting a date with no record leaves the store unchanged.
pub proof fn lemma_delete_absent(m: Map<Seq<char>, RowV>, date: Date)
    requires
        !m.contains_key(canon_chars(date)),
    ensures
        m.remove(canon_chars(date)) == m,
{
    assert(m.remove(canon_chars(date)) =~= m);
}

/// Law: deleting an existing record shrinks the listing by exactly one.
pub proof fn lemma_delete_len(m: Map<Seq<char>, RowV>, date: Date)
    requires
        m.dom().finite(),
        m.contains_key(canon_chars(date)),
    ensures
        m.remove(canon_chars(date)).dom().len() == m.dom().len() - 1,
{
    broadcast use vstd::map::axiom_map_remove_domain;
    broadcast use vstd::set::axiom_set_remove_len;

    assert(m.remove(canon_chars(date)).dom() == m.dom().remove(canon_chars(date)));
}

} // verus!
