use vstd::prelude::*;
use vstd::string::StringExecFns;
use crate::date::Date;
use crate::datestr::{canon_chars, parse_canon, trim_spec};
use crate::day::{opt_view, own_opt, Day};
use crate::error::Error;
use crate::event::Event;
use crate::resolve::{resolve_ok, resolve_out_of_range, str_eq};
use crate::store::{row_of, sorted_by_date, DatabaseManager, RowV};

verus! {

/// The four domain operations a command line can request.
#[derive(Clone, Copy, PartialEq, Eq, Structural, Debug)]
pub enum SubCommand {
    Add,
    Remove,
    Check,
    ListAll,
}

/// A parsed command: the operation, its resolved date, and for an
/// addition the entry text that followed the date token.
#[derive(Debug)]
pub enum Command {
    Add(Date, Option<String>),
    Remove(Date),
    Check(Date),
    ListAll,
}

/// The mathematical content of a command.
pub enum CommandView {
    Add(Date, Option<Seq<char>>),
    Remove(Date),
    Check(Date),
    ListAll,
}

pub open spec fn command_view(c: &Command) -> CommandView {
    match c {
        Command::Add(d, t) => CommandView::Add(*d, opt_view(*t)),
        Command::Remove(d) => CommandView::Remove(*d),
        Command::Check(d) => CommandView::Check(*d),
        Command::ListAll => CommandView::ListAll,
    }
}

/// A command's dates are valid calendar dates.
pub open spec fn command_wf(c: &Command) -> bool {
    match c {
        Command::Add(d, _) => d.wf(),
        Command::Remove(d) => d.wf(),
        Command::Check(d) => d.wf(),
        Command::ListAll => true,
    }
}

/// The operation a verb token names, over its fixed alias vocabulary.
pub open spec fn verb_of(t: Seq<char>) -> Option<SubCommand> {
    if t == "ad"@ || t == "add"@ {
        Some(SubCommand::Add)
    } else if t == "rm"@ || t == "remove"@ || t == "delete"@ || t == "del"@ {
        Some(SubCommand::Remove)
    } else if t == "chk"@ || t == "check"@ || t == "read"@ || t == "show"@ {
        Some(SubCommand::Check)
    } else if t == "ls"@ || t == "list"@ {
        Some(SubCommand::ListAll)
    } else {
        None
    }
}

/// The index of the first space, or the length when there is none.
pub open spec fn idx_space(s: Seq<char>) -> int
    decreases s.len(),
{
    if s.len() == 0 {
        0
    } else if s[0] == ' ' {
        0
    } else {
        1 + idx_space(s.drop_first())
    }
}

/// The verb token: everything before the first space.
pub open spec fn head_token(s: Seq<char>) -> Seq<char> {
    s.subrange(0, idx_space(s))
}

/// What follows the first space, or nothing when there is no space.
pub open spec fn tail_after(s: Seq<char>) -> Option<Seq<char>> {
    if idx_space(s) < s.len() {
        Some(s.subrange(idx_space(s) + 1, s.len() as int))
    } else {
        None
    }
}

/// The date token of a command line: the token after the verb, empty when
/// nothing follows the verb.
pub open spec fn date_token_of(line: Seq<char>) -> Seq<char> {
    match tail_after(line) {
        Some(r) => head_token(r),
        None => Seq::empty(),
    }
}

/// The free text of a command line: what follows the date token.
pub open spec fn context_of(line: Seq<char>) -> Option<Seq<char>> {
    match tail_after(line) {
        Some(r) => tail_after(r),
        None => None,
    }
}

/// The command a line denotes against a reference date, or nothing when
/// the verb is unknown or the date does not resolve.
pub open spec fn command_ok(line: Seq<char>, reference: Date) -> Option<CommandView> {
    match verb_of(head_token(line)) {
        None => None,
        Some(sc) => match sc {
            SubCommand::Add => match resolve_ok(date_token_of(line), reference) {
                Some(d) => Some(CommandView::Add(d, context_of(line))),
                None => None,
            },
            SubCommand::Remove => match resolve_ok(date_token_of(line), reference) {
                Some(d) => Some(CommandView::Remove(d)),
                None => None,
            },
            SubCommand::Check => match resolve_ok(date_token_of(line), reference) {
                Some(d) => Some(CommandView::Check(d)),
                None => None,
            },
            SubCommand::ListAll => Some(CommandView::ListAll),
        },
    }
}

proof fn lemma_idx_space(s: Seq<char>, k: int)
    requires
        0 <= k <= s.len(),
        forall|j: int| 0 <= j < k ==> s[j] != ' ',
        k < s.len() ==> s[k] == ' ',
    ensures
        idx_space(s) == k,
    decreases k,
{
    if k == 0 {
    } else {
        let t = s.drop_first();
        assert(t =~= s.subrange(1, s.len() as int));
        lemma_idx_space(t, k - 1);
    }
}

/// The index of the first space of a string, or its length.
fn find_space(s: &str) -> (k: usize)
    ensures
        k as int == idx_space(s@),
        k <= s@.len(),
        k < s@.len() ==> s@[k as int] == ' ',
        forall|j: int| 0 <= j < k ==> s@[j] != ' ',
{
    let n = s.unicode_len();
    let mut i: usize = 0;
    while i < n && s.get_char(i) != ' '
        invariant
            0 <= i <= n,
            n == s@.len(),
            forall|j: int| 0 <= j < i ==> s@[j] != ' ',
        decreases n - i,
    {
        i = i + 1;
    }
    proof {
        lemma_idx_space(s@, i as int);
    }
    i
}

impl SubCommand {
    /// Reads a verb token; an unknown verb is reported with its text.
    pub fn parse(s: &str) -> (r: Result<SubCommand, Error>)
        ensures
            r matches Ok(c) ==> verb_of(s@) == Some(c),
            r is Err <==> verb_of(s@) is None,
            r matches Err(e) ==> (e matches Error::UnknownCommand(v) && v@ == s@),
    {
        if str_eq(s, "ad") || str_eq(s, "add") {
            Ok(SubCommand::Add)
        } else if str_eq(s, "rm") || str_eq(s, "remove") || str_eq(s, "delete") || str_eq(
            s,
            "del",
        ) {
            Ok(SubCommand::Remove)
        } else if str_eq(s, "chk") || str_eq(s, "check") || str_eq(s, "read") || str_eq(
            s,
            "show",
        ) {
            Ok(SubCommand::Check)
        } else if str_eq(s, "ls") || str_eq(s, "list") {
            Ok(SubCommand::ListAll)
        } else {
            Err(Error::UnknownCommand(s.to_owned()))
        }
    }
}

impl Command {
    /// Reads a raw line into a command, resolving its date token against
    /// the reference date. An unknown verb and an unresolvable date are
    /// reported exactly as the verb vocabulary and the resolver decide.
    pub fn parse(line: &str, reference: Date) -> (r: Result<Command, Error>)
        requires
            reference.wf(),
        ensures
            r matches Ok(c) ==> command_ok(line@, reference) == Some(command_view(&c))
                && command_wf(&c),
            r is Err ==> command_ok(line@, reference) is None,
            r matches Err(e) ==> (e is UnknownCommand <==> verb_of(head_token(line@)) is None),
            r matches Err(e) ==> (e matches Error::UnknownCommand(v) ==> v@ == head_token(line@)),
            r matches Err(e) ==> (e is OutOfRange <==> verb_of(head_token(line@)) is Some
                && resolve_out_of_range(date_token_of(line@), reference)),
            r matches Err(e) ==> (e matches Error::InvalidDate(s) ==> s@ == trim_spec(
                date_token_of(line@),
            )),
            r matches Err(e) ==> (e is UnknownCommand || e is OutOfRange || e is InvalidDate),
    {
        let n = line.unicode_len();
        let k = find_space(line);
        let verb = line.substring_char(0, k);
        let sc = match SubCommand::parse(verb) {
            Ok(c) => c,
            Err(e) => {
                return Err(e);
            },
        };
        let rest: Option<&str> = if k < n {
            Some(line.substring_char(k + 1, n))
        } else {
            None
        };
        let (datetok, ctx): (&str, Option<&str>) = match rest {
            Some(r) => {
                let n2 = r.unicode_len();
                let k2 = find_space(r);
                let d = r.substring_char(0, k2);
                if k2 < n2 {
                    (d, Some(r.substring_char(k2 + 1, n2)))
                } else {
                    (d, None)
                }
            },
            None => ("", None),
        };
        proof {
            reveal_strlit("");
            assert(datetok@ == date_token_of(line@));
            assert(crate::day::opt_str_view(ctx) == context_of(line@));
        }
        match sc {
            SubCommand::ListAll => Ok(Command::ListAll),
            SubCommand::Add => match Date::resolve(datetok, reference) {
                Ok(d) => Ok(Command::Add(d, own_opt(ctx))),
                Err(e) => Err(e),
            },
            SubCommand::Remove => match Date::resolve(datetok, reference) {
                Ok(d) => Ok(Command::Remove(d)),
                Err(e) => Err(e),
            },
            SubCommand::Check => match Date::resolve(datetok, reference) {
                Ok(d) => Ok(Command::Check(d)),
                Err(e) => Err(e),
            },
        }
    }
}

/// Splits a raw line into verb, date token and free text, and resolves
/// the parts into a command.
pub struct Parser;

impl Parser {
    pub fn new() -> (p: Parser) {
        Parser
    }

    /// Reads a raw line against a reference date; the contract of
    /// `Command::parse` applies unchanged.
    pub fn parse(&self, input: &str, reference: Date) -> (r: Result<Command, Error>)
        requires
            reference.wf(),
        ensures
            r matches Ok(c) ==> command_ok(input@, reference) == Some(command_view(&c))
                && command_wf(&c),
            r is Err ==> command_ok(input@, reference) is None,
            r matches Err(e) ==> (e is UnknownCommand <==> verb_of(head_token(input@)) is None),
            r matches Err(e) ==> (e matches Error::UnknownCommand(v) ==> v@ == head_token(
                input@,
            )),
            r matches Err(e) ==> (e is OutOfRange <==> verb_of(head_token(input@)) is Some
                && resolve_out_of_range(date_token_of(input@), reference)),
            r matches Err(e) ==> (e matches Error::InvalidDate(s) ==> s@ == trim_spec(
                date_token_of(input@),
            )),
            r matches Err(e) ==> (e is UnknownCommand || e is OutOfRange || e is InvalidDate),
    {
        Command::parse(input, reference)
    }
}

/// The store after an addition: absent or empty text changes nothing;
/// otherwise the text is joined onto the stored entry with a newline (or
/// stands alone when no entry text is stored), keeping the stored weather
/// and mood of an existing record.
pub open spec fn add_result(m: Map<Seq<char>, RowV>, d: Date, ctx: Option<Seq<char>>) -> Map<
    Seq<char>,
    RowV,
> {
    match ctx {
        None => m,
        Some(t) => {
            if t.len() == 0 {
                m
            } else {
                let k = canon_chars(d);
                if m.contains_key(k) {
                    let row = m[k];
                    let joined = if row.0.len() == 0 {
                        t
                    } else {
                        row.0 + seq!['\n'] + t
                    };
                    m.insert(k, (joined, row.1, row.2))
                } else {
                    m.insert(k, (t, None, None))
                }
            }
        },
    }
}

/// Maps commands onto the record store.
pub struct Executor {
    conn: DatabaseManager,
}

impl View for Executor {
    type V = Map<Seq<char>, RowV>;

    closed spec fn view(&self) -> Map<Seq<char>, RowV> {
        self.conn@
    }
}

impl Executor {
    /// Wraps a store.
    pub fn new(conn: DatabaseManager) -> (e: Executor)
        ensures
            e@ == conn@,
    {
        Executor { conn }
    }

    /// The underlying store.
    pub fn conn(&self) -> (r: &DatabaseManager)
        ensures
            r@ == self@,
    {
        &self.conn
    }

    /// Performs one command against the store and hands back the records
    /// it produced: the checked record if any, the full listing for a
    /// list command, nothing for a write.
    pub fn exec(&mut self, command: &Command) -> (r: Result<Vec<Day>, Error>)
        requires
            command_wf(command),
        ensures
            command matches Command::Add(d, ctx) ==> (r is Ok ==> final(self)@ == add_result(
                old(self)@,
                *d,
                opt_view(*ctx),
            )),
            command matches Command::Add(d, ctx) ==> (r is Err ==> final(self)@ == old(self)@),
            command matches Command::Add(d, ctx) ==> (r matches Ok(v) ==> v@.len() == 0),
            command matches Command::Remove(d) ==> (r is Ok ==> final(self)@ == old(
                self,
            )@.remove(canon_chars(*d))),
            command matches Command::Remove(d) ==> (r is Err ==> final(self)@ == old(self)@),
            command matches Command::Remove(d) ==> (r matches Ok(v) ==> v@.len() == 0),
            command matches Command::Check(d) ==> final(self)@ == old(self)@,
            command matches Command::Check(d) ==> (r matches Ok(v) ==> (old(
                self,
            )@.contains_key(canon_chars(*d)) ==> v@.len() == 1 && v@[0]@.date == *d && row_of(
                v@[0]@,
            ) == old(self)@[canon_chars(*d)]) && (!old(self)@.contains_key(canon_chars(*d))
                ==> v@.len() == 0)),
            command is ListAll ==> final(self)@ == old(self)@,
            command is ListAll ==> (r matches Ok(v) ==> sorted_by_date(v@) && v@.len() == old(
                self,
            )@.dom().len() && (forall|i: int|
                0 <= i < v@.len() ==> (#[trigger] v@[i]).wf() && old(self)@.contains_key(
                    canon_chars(v@[i]@.date),
                ) && row_of(v@[i]@) == old(self)@[canon_chars(v@[i]@.date)]) && (forall|
                k: Seq<char>,
            |
                old(self)@.contains_key(k) ==> exists|i: int|
                    0 <= i < v@.len() && canon_chars(v@[i]@.date) == k)),
            r matches Err(e) ==> e is Db || e is InvalidData,
    {
        match command {
            Command::Add(d, ctx) => {
                match self.handle_add(*d, ctx) {
                    Ok(()) => Ok(Vec::new()),
                    Err(e) => Err(e),
                }
            },
            Command::Remove(d) => {
                match self.conn.remove_day(*d) {
                    Ok(_) => Ok(Vec::new()),
                    Err(e) => Err(e),
                }
            },
            Command::Check(d) => {
                match self.conn.read_day(*d) {
                    Ok(Some(day)) => {
                        let mut v: Vec<Day> = Vec::new();
                        v.push(day);
                        Ok(v)
                    },
                    Ok(None) => Ok(Vec::new()),
                    Err(e) => Err(e),
                }
            },
            Command::ListAll => self.conn.read_all(),
        }
    }

    /// The read-merge-write of an addition: load the current entry text,
    /// join the new text onto it, persist. Not safe for concurrent
    /// multi-process use; the store assumes a single actor.
    fn handle_add(&mut self, date: Date, ctx: &Option<String>) -> (r: Result<(), Error>)
        requires
            date.wf(),
        ensures
            r is Ok ==> final(self)@ == add_result(old(self)@, date, opt_view(*ctx)),
            r is Err ==> final(self)@ == old(self)@,
            r matches Err(e) ==> e is Db,
    {
        let text: &String = match ctx {
            None => {
                return Ok(());
            },
            Some(t) => t,
        };
        if text.as_str().unicode_len() == 0 {
            return Ok(());
        }
        let existing = match self.conn.read_day(date) {
            Ok(o) => o,
            Err(e) => {
                return Err(e);
            },
        };
        let day = match existing {
            Some(prior) => {
                let joined: String;
                if prior.event().instruct.as_str().unicode_len() == 0 {
                    joined = text.clone();
                } else {
                    let mut s = prior.event().instruct.clone();
                    s.append("\n");
                    s.append(text.as_str());
                    proof {
                        reveal_strlit("\n");
                        assert("\n"@ =~= seq!['\n']);
                    }
                    joined = s;
                }
                Day::new(
                    date,
                    Event::new(joined.as_str()),
                    own_opt(prior.weather()),
                    own_opt(prior.mood()),
                )
            },
            None => Day::new(date, Event::new(text.as_str()), None, None),
        };
        match self.conn.add_day(&day) {
            Ok(_) => Ok(()),
            Err(e) => Err(e),
        }
    }
}

/// The command-line arguments of the surrounding application, as plain
/// data.
#[derive(Debug)]
pub struct Args {
    pub time: Option<String>,
    pub event: Option<String>,
    pub remove: bool,
    pub clear: bool,
    pub interactive: bool,
}

/// The top-level invocations of the surrounding application.
#[derive(Debug)]
pub enum Commands {
    Interactive,
    Import { path: String },
    Export { path: String },
}

/// Whether a session runs interactively or handles one request.
#[derive(Clone, Copy, PartialEq, Eq, Structural, Debug)]
pub enum Mode {
    Interactive,
    Once,
}

impl Mode {
    /// The session mode an argument set selects: interactive when asked
    /// for or when no date was given, a single request otherwise.
    pub fn of_args(args: &Args) -> (m: Mode)
        ensures
            m == (if args.interactive || args.time is None {
                Mode::Interactive
            } else {
                Mode::Once
            }),
    {
        if args.interactive {
            Mode::Interactive
        } else if args.time.is_none() {
            Mode::Interactive
        } else {
            Mode::Once
        }
    }
}

} // verus!
