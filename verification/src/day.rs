use vstd::prelude::*;
use crate::date::{min_date, Date};
use crate::event::Event;

verus! {

/// The mathematical content of a stored record: its date and the three
/// text fields, the optional ones distinguishing absent from empty.
pub struct DayView {
    pub date: Date,
    pub event: Seq<char>,
    pub weather: Option<Seq<char>>,
    pub mood: Option<Seq<char>>,
}

/// The view of an optional owned text.
pub open spec fn opt_view(o: Option<String>) -> Option<Seq<char>> {
    match o {
        Some(s) => Some(s@),
        None => None,
    }
}

/// The view of an optional borrowed text.
pub open spec fn opt_str_view(o: Option<&str>) -> Option<Seq<char>> {
    match o {
        Some(s) => Some(s@),
        None => None,
    }
}

/// The record of one calendar date: the unit of storage. At most one day
/// per date exists in a store; an upsert replaces it wholesale.
#[derive(Debug)]
pub struct Day {
    date: Date,
    event: Event,
    weather: Option<String>,
    mood: Option<String>,
}

impl View for Day {
    type V = DayView;

    closed spec fn view(&self) -> DayView {
        DayView {
            date: self.date,
            event: self.event.instruct@,
            weather: opt_view(self.weather),
            mood: opt_view(self.mood),
        }
    }
}

impl Day {
    /// Validity: the record's date is a valid calendar date.
    pub open spec fn wf(self) -> bool {
        self@.date.wf()
    }

    /// Builds a record from all four fields.
    pub fn new(date: Date, event: Event, weather: Option<String>, mood: Option<String>) -> (d: Day)
        ensures
            d@.date == date,
            d@.event == event.instruct@,
            d@.weather == opt_view(weather),
            d@.mood == opt_view(mood),
    {
        Day { date, event, weather, mood }
    }

    /// A record holding only entry text, dated at the start of the calendar
    /// until a date is chosen.
    pub fn from_event(event: Event) -> (d: Day)
        ensures
            d@.date == min_date(),
            d@.event == event.instruct@,
            d@.weather is None,
            d@.mood is None,
    {
        Day { date: Date::first_day(), event, weather: None, mood: None }
    }

    /// An empty record for a date.
    pub fn from_date(date: Date) -> (d: Day)
        ensures
            d@.date == date,
            d@.event == Seq::<char>::empty(),
            d@.weather is None,
            d@.mood is None,
    {
        Day { date, event: Event::default(), weather: None, mood: None }
    }

    /// Replaces the entry text.
    pub fn with_event(self, event: Event) -> (d: Day)
        ensures
            d@ == (DayView { event: event.instruct@, ..self@ }),
    {
        Day { event, ..self }
    }

    /// Replaces the date.
    pub fn with_date(self, date: Date) -> (d: Day)
        ensures
            d@ == (DayView { date, ..self@ }),
    {
        Day { date, ..self }
    }

    /// Sets the weather label.
    pub fn with_weather(self, w: String) -> (d: Day)
        ensures
            d@ == (DayView { weather: Some(w@), ..self@ }),
    {
        Day { weather: Some(w), ..self }
    }

    /// Sets the mood text.
    pub fn with_mood(self, m: String) -> (d: Day)
        ensures
            d@ == (DayView { mood: Some(m@), ..self@ }),
    {
        Day { mood: Some(m), ..self }
    }

    /// The mood text, if set.
    pub fn mood(&self) -> (r: Option<&str>)
        ensures
            opt_str_view(r) == self@.mood,
    {
        match &self.mood {
            Some(m) => Some(m.as_str()),
            None => None,
        }
    }

    /// The weather label, if set.
    pub fn weather(&self) -> (r: Option<&str>)
        ensures
            opt_str_view(r) == self@.weather,
    {
        match &self.weather {
            Some(w) => Some(w.as_str()),
            None => None,
        }
    }

    /// The entry text.
    pub fn event(&self) -> (r: &Event)
        ensures
            r.instruct@ == self@.event,
    {
        &self.event
    }

    /// An identical copy of the record.
    pub fn duplicate(&self) -> (d: Day)
        ensures
            d@ == self@,
    {
        Day {
            date: self.date,
            event: self.event.duplicate(),
            weather: clone_opt(&self.weather),
            mood: clone_opt(&self.mood),
        }
    }

    /// The record's date.
    pub fn date(&self) -> (r: Date)
        ensures
            r == self@.date,
    {
        self.date
    }
}

/// An owned copy of an optional borrowed text.
pub fn own_opt(o: Option<&str>) -> (r: Option<String>)
    ensures
        opt_view(r) == opt_str_view(o),
{
    match o {
        Some(s) => Some(s.to_owned()),
        None => None,
    }
}

/// A copy of an optional owned text.
pub fn clone_opt(o: &Option<String>) -> (r: Option<String>)
    ensures
        opt_view(r) == opt_view(*o),
{
    match o {
        Some(s) => Some(s.clone()),
        None => None,
    }
}

impl Default for Day {
    /// An empty record dated at the start of the calendar.
    fn default() -> (d: Day)
        ensures
            d@.date == min_date(),
            d@.event == Seq::<char>::empty(),
            d@.weather is None,
            d@.mood is None,
    {
        Day { date: Date::first_day(), event: Event::default(), weather: None, mood: None }
    }
}

} // verus!
