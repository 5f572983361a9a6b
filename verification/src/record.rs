use vstd::prelude::*;
use vstd::string::StringExecFns;
use crate::date::Date;
use crate::datestr::parse_canon;
use crate::day::{clone_opt, opt_view, Day};
use crate::error::Error;
use crate::event::Event;

verus! {

/// The serialization-facing shape of a record: the date as canonical
/// YYYYMMDD text, the other fields as plain optional strings. Converting a
/// record of the store into this form is total; reading one back can fail
/// on its date text.
#[derive(Debug)]
pub struct Record {
    pub date: String,
    pub event: String,
    pub weather: Option<String>,
    pub mood: Option<String>,
}

impl Record {
    /// Renders a stored record in exchange form; always succeeds.
    pub fn from_day(day: &Day) -> (r: Record)
        requires
            day.wf(),
        ensures
            r.date@ == crate::datestr::canon_chars(day@.date),
            r.event@ == day@.event,
            opt_view(r.weather) == day@.weather,
            opt_view(r.mood) == day@.mood,
    {
        let weather: Option<String> = match day.weather() {
            Some(w) => Some(w.to_owned()),
            None => None,
        };
        let mood: Option<String> = match day.mood() {
            Some(m) => Some(m.to_owned()),
            None => None,
        };
        Record {
            date: day.date().format_canonical(),
            event: String::from_str(day.event().instruct.as_str()),
            weather,
            mood,
        }
    }

    /// A copy of this record.
    pub fn duplicate(&self) -> (r: Record)
        ensures
            r.date@ == self.date@,
            r.event@ == self.event@,
            opt_view(r.weather) == opt_view(self.weather),
            opt_view(r.mood) == opt_view(self.mood),
    {
        Record {
            date: self.date.clone(),
            event: self.event.clone(),
            weather: clone_opt(&self.weather),
            mood: clone_opt(&self.mood),
        }
    }
}

impl Day {
    /// Reads an exchange record back into a stored record; fails exactly
    /// when the date text is not a canonical date, reporting that text.
    pub fn from_record(r: &Record) -> (res: Result<Day, Error>)
        ensures
            res is Ok <==> parse_canon(r.date@) is Some,
            res matches Ok(day) ==> parse_canon(r.date@) == Some(day@.date) && day.wf()
                && day@.event == r.event@ && day@.weather == opt_view(r.weather) && day@.mood
                == opt_view(r.mood),
            res matches Err(e) ==> e matches Error::InvalidDate(s) && s@ == r.date@,
    {
        match Date::parse_canonical(r.date.as_str()) {
            Some(d) => Ok(
                Day::new(d, Event::new(r.event.as_str()), clone_opt(&r.weather), clone_opt(&r.mood)),
            ),
            None => Err(Error::InvalidDate(r.date.clone())),
        }
    }
}

/// The supported exchange encodings. The encodings themselves are a
/// concern of the surrounding application; the library only names them
/// and produces or consumes `Record` values.
#[derive(Clone, Copy, PartialEq, Eq, Structural, Debug)]
pub enum Format {
    Json,
    Csv,
}

/// Which encoding a name denotes, case-insensitively.
pub open spec fn format_of(t: Seq<char>) -> Option<Format> {
    if t.len() == 4 && (t[0] == 'j' || t[0] == 'J') && (t[1] == 's' || t[1] == 'S') && (t[2] == 'o'
        || t[2] == 'O') && (t[3] == 'n' || t[3] == 'N') {
        Some(Format::Json)
    } else if t.len() == 3 && (t[0] == 'c' || t[0] == 'C') && (t[1] == 's' || t[1] == 'S') && (t[2]
        == 'v' || t[2] == 'V') {
        Some(Format::Csv)
    } else {
        None
    }
}

impl Format {
    /// Reads a format name ("json" or "csv", in any case); any other name
    /// is unsupported data, reported with the offending text.
    pub fn parse(s: &str) -> (r: Result<Format, Error>)
        ensures
            r matches Ok(f) ==> format_of(s@) == Some(f),
            r is Err <==> format_of(s@) is None,
            r matches Err(e) ==> e matches Error::InvalidData(t) && t@ == s@,
    {
        let n = s.unicode_len();
        if n == 4 {
            let c0 = s.get_char(0);
            let c1 = s.get_char(1);
            let c2 = s.get_char(2);
            let c3 = s.get_char(3);
            if (c0 == 'j' || c0 == 'J') && (c1 == 's' || c1 == 'S') && (c2 == 'o' || c2 == 'O')
                && (c3 == 'n' || c3 == 'N') {
                return Ok(Format::Json);
            }
        }
        if n == 3 {
            let c0 = s.get_char(0);
            let c1 = s.get_char(1);
            let c2 = s.get_char(2);
            if (c0 == 'c' || c0 == 'C') && (c1 == 's' || c1 == 'S') && (c2 == 'v' || c2 == 'V') {
                return Ok(Format::Csv);
            }
        }
        Err(Error::InvalidData(s.to_owned()))
    }
}

} // verus!
