use vstd::prelude::*;

use crate::encode::encode_in;
use crate::parser::{decode_out, in_result_view};
use crate::text::{chars_of, string_of};
use crate::uci::{
    same_name, validate_spec, GoModel, value_result_view, opt_view, strings_view, is_safe_name, InModel,
    InfoModel, OptionSchema, OutModel, ProtocolError, UciIn, UciOption, UciOptionName, UciOut,
};

verus! {

/// Identifies the client that drives the engine; session 0 is the startup
/// handshake.
#[derive(Copy, Clone, PartialEq, Eq, Structural, Debug)]
pub struct Session(pub u64);

/// Why a command was not sent to the engine.
#[derive(Copy, Clone, PartialEq, Eq, Structural, Debug)]
pub enum EngineError {
    /// A search was started while another one is running.
    AlreadySearching,
    /// An option was set to a value that its declared type does not admit.
    InvalidOptionValue,
}

impl EngineError {
    pub fn message(&self) -> String {
        match self {
            EngineError::AlreadySearching => String::from_str("already searching"),
            EngineError::InvalidOptionValue => String::from_str("invalid option value"),
        }
    }
}

/// The first index at or after `i` whose name equals `k`, or the length.
pub open spec fn name_index(m: Seq<(Seq<char>, OptionSchema)>, k: Seq<char>, i: int) -> int
    decreases m.len() - i,
{
    if i < 0 || i >= m.len() {
        m.len() as int
    } else if same_name(m[i].0, k) {
        i
    } else {
        name_index(m, k, i + 1)
    }
}

/// The declared type of option `k`, if there is one.
pub open spec fn lookup(m: Seq<(Seq<char>, OptionSchema)>, k: Seq<char>) -> Option<OptionSchema> {
    let i = name_index(m, k, 0);
    if i < m.len() {
        Some(m[i].1)
    } else {
        None
    }
}

/// The table with option `k` declared as `o`: the earlier entry of that name
/// is replaced in place, keeping its spelling; a new name goes at the end.
pub open spec fn declare(m: Seq<(Seq<char>, OptionSchema)>, k: Seq<char>, o: OptionSchema) -> Seq<
    (Seq<char>, OptionSchema),
> {
    let i = name_index(m, k, 0);
    if i < m.len() {
        m.update(i, (m[i].0, o))
    } else {
        m.push((k, o))
    }
}

pub open spec fn inc(n: u64) -> u64 {
    if n == u64::MAX {
        n
    } else {
        (n + 1) as u64
    }
}

pub open spec fn dec(n: u64) -> u64 {
    if n == 0 {
        0
    } else {
        (n - 1) as u64
    }
}

/// What the supervisor knows of the engine.
pub struct EngineModel {
    pub pending_uciok: u64,
    pub pending_readyok: u64,
    pub searching: bool,
    pub options: Seq<(Seq<char>, OptionSchema)>,
}

pub open spec fn idle(e: EngineModel) -> bool {
    e.pending_uciok == 0 && e.pending_readyok == 0 && !e.searching
}

/// The line written to the engine for `c`.
pub open spec fn wire_line(c: InModel) -> Seq<char> {
    encode_in(c) + "\r\n"@
}

/// Sending `c` without the allowlist: the new state, and the line to write
/// (`None` when the command is dropped).
pub open spec fn send_dangerous_spec(e: EngineModel, c: InModel) -> (EngineModel, Result<
    Option<Seq<char>>,
    EngineError,
>) {
    match c {
        InModel::Uci => (
            EngineModel { pending_uciok: inc(e.pending_uciok), options: Seq::empty(), ..e },
            Ok(Some(wire_line(c))),
        ),
        InModel::Isready => (
            EngineModel { pending_readyok: inc(e.pending_readyok), ..e },
            Ok(Some(wire_line(c))),
        ),
        InModel::Go(_) => if e.searching {
            (e, Err(EngineError::AlreadySearching))
        } else {
            (EngineModel { searching: true, ..e }, Ok(Some(wire_line(c))))
        },
        InModel::Setoption { name, value } => match lookup(e.options, name) {
            None => (e, Ok(None)),
            Some(o) => if validate_spec(o, value) is Ok {
                (e, Ok(Some(wire_line(c))))
            } else {
                (e, Err(EngineError::InvalidOptionValue))
            },
        },
        _ => (e, Ok(Some(wire_line(c)))),
    }
}

/// Sending `c` from a client: an option off the allowlist is dropped.
pub open spec fn send_spec(e: EngineModel, c: InModel) -> (EngineModel, Result<
    Option<Seq<char>>,
    EngineError,
>) {
    match c {
        InModel::Setoption { name, .. } => if !is_safe_name(name) {
            (e, Ok(None))
        } else {
            send_dangerous_spec(e, c)
        },
        _ => send_dangerous_spec(e, c),
    }
}

/// An `info` line with no principal variation, no text and no score.
pub open spec fn is_noise(o: OutModel) -> bool {
    o matches OutModel::Info(i) && i.pv is None && i.string is None && i.score is None
}

/// Accounting for a line the engine sent.
pub open spec fn observe(e: EngineModel, o: OutModel) -> EngineModel {
    match o {
        OutModel::Uciok => EngineModel { pending_uciok: dec(e.pending_uciok), ..e },
        OutModel::Readyok => EngineModel { pending_readyok: dec(e.pending_readyok), ..e },
        OutModel::Bestmove { .. } => EngineModel { searching: false, ..e },
        OutModel::OptionDecl { name, option } => EngineModel {
            options: declare(e.options, name, option),
            ..e
        },
        _ => e,
    }
}

pub open spec fn strip_line_end(s: Seq<char>) -> Seq<char>
    decreases s.len(),
{
    if s.len() > 0 && (s.last() == '\r' || s.last() == '\n') {
        strip_line_end(s.drop_last())
    } else {
        s
    }
}

/// Receiving the line `s`: the new state, and the message for the client.
/// A line that does not read, one of no known kind, and an `info` line
/// with nothing worth showing are skipped (`None`), and change nothing.
pub open spec fn recv_spec(e: EngineModel, s: Seq<char>) -> (EngineModel, Option<OutModel>) {
    match decode_out(strip_line_end(s)) {
        Err(_) => (e, None),
        Ok(None) => (e, None),
        Ok(Some(o)) => if is_noise(o) {
            (e, None)
        } else {
            (observe(e, o), Some(o))
        },
    }
}

pub open spec fn out_option_view(r: Option<UciOut>) -> Option<OutModel> {
    match r {
        Some(v) => Some(v@),
        None => None,
    }
}

pub open spec fn line_result_view(r: Result<Option<String>, EngineError>) -> Result<
    Option<Seq<char>>,
    EngineError,
> {
    match r {
        Ok(Some(s)) => Ok(Some(s@)),
        Ok(None) => Ok(None),
        Err(e) => Err(e),
    }
}

pub open spec fn options_view(v: Seq<(UciOptionName, UciOption)>) -> Seq<(Seq<char>, OptionSchema)> {
    v.map_values(|p: (UciOptionName, UciOption)| (p.0@, p.1@))
}

/// The bookkeeping of a supervised engine: outstanding acknowledgements,
/// whether a search runs, and the options it declared.
pub struct Engine {
    pending_uciok: u64,
    pending_readyok: u64,
    searching: bool,
    options: Vec<(UciOptionName, UciOption)>,
}

impl View for Engine {
    type V = EngineModel;

    closed spec fn view(&self) -> EngineModel {
        EngineModel {
            pending_uciok: self.pending_uciok,
            pending_readyok: self.pending_readyok,
            searching: self.searching,
            options: options_view(self.options@),
        }
    }
}

/// What to do next to bring the engine to rest.
pub enum IdleStep {
    /// The engine is idle.
    Done,
    /// Read the next line from the engine.
    Read,
    /// Write these lines, then read the next line.
    WriteThenRead(Vec<String>),
}

fn copy_opt_string(o: &Option<String>) -> (r: Option<String>)
    ensures
        opt_view(r) == opt_view(*o),
{
    match o {
        Some(s) => Some(s.clone()),
        None => None,
    }
}

impl Engine {
    /// A fresh engine: nothing outstanding, no options known.
    pub fn new() -> (r: Engine)
        ensures
            r@ == (EngineModel {
                pending_uciok: 0,
                pending_readyok: 0,
                searching: false,
                options: Seq::empty(),
            }),
    {
        let r = Engine { pending_uciok: 0, pending_readyok: 0, searching: false, options: Vec::new() };
        assert(options_view(r.options@) =~= Seq::empty());
        r
    }

    pub fn is_searching(&self) -> (r: bool)
        ensures
            r == self@.searching,
    {
        self.searching
    }

    pub fn is_idle(&self) -> (r: bool)
        ensures
            r == idle(self@),
    {
        self.pending_uciok == 0 && self.pending_readyok == 0 && !self.searching
    }

    /// The declared type of the option `name`.
    fn find_option(&self, name: &UciOptionName) -> (r: Option<usize>)
        ensures
            match r {
                Some(i) => i < self.options@.len() && name_index(self@.options, name@, 0) == i,
                None => name_index(self@.options, name@, 0) == self@.options.len(),
            },
    {
        let ghost m = self@.options;
        let mut i: usize = 0;
        while i < self.options.len()
            invariant
                i <= self.options@.len(),
                m == options_view(self.options@),
                name_index(m, name@, 0) == name_index(m, name@, i as int),
            decreases self.options@.len() - i,
        {
            if self.options[i].0 == *name {
                assert(same_name(m[i as int].0, name@));
                return Some(i);
            }
            i = i + 1;
        }
        None
    }

    fn line(command: &UciIn) -> (r: String)
        ensures
            r@ == wire_line(command@),
    {
        let mut s = command.to_string();
        s.append("\r\n");
        s
    }

    /// Accounts for `command` and gives the line to write to the engine, or
    /// `None` where the command is dropped. The allowlist of options is not
    /// consulted.
    pub fn send_dangerous(&mut self, command: &UciIn) -> (r: Result<Option<String>, EngineError>)
        ensures
            (final(self)@, line_result_view(r)) == send_dangerous_spec(old(self)@, command@),
    {
        match command {
            UciIn::Uci => {
                if self.pending_uciok < u64::MAX {
                    self.pending_uciok = self.pending_uciok + 1;
                }
                self.options = Vec::new();
                assert(options_view(self.options@) =~= Seq::empty());
            },
            UciIn::Isready => {
                if self.pending_readyok < u64::MAX {
                    self.pending_readyok = self.pending_readyok + 1;
                }
            },
            UciIn::Go { .. } => {
                if self.searching {
                    return Err(EngineError::AlreadySearching);
                }
                self.searching = true;
            },
            UciIn::Setoption { name, value } => match self.find_option(name) {
                None => {
                    return Ok(None);
                },
                Some(i) => {
                    assert(self@.options[i as int].1 == self.options@[i as int].1@);
                    if self.options[i].1.validate(copy_opt_string(value)).is_err() {
                        return Err(EngineError::InvalidOptionValue);
                    }
                },
            },
            _ => {},
        }
        Ok(Some(Engine::line(command)))
    }

    /// Accounts for `command` from a client and gives the line to write to
    /// the engine, or `None` where the command is dropped: an option off the
    /// allowlist, or one the engine did not declare.
    pub fn send(&mut self, command: &UciIn) -> (r: Result<Option<String>, EngineError>)
        ensures
            (final(self)@, line_result_view(r)) == send_spec(old(self)@, command@),
            command@ matches InModel::Setoption { name, .. } && !is_safe_name(name) ==> r == Ok::<
                Option<String>,
                EngineError,
            >(None) && final(self)@ == old(self)@,
    {
        match command {
            UciIn::Setoption { name, .. } => {
                if !name.is_safe() {
                    return Ok(None);
                }
            },
            _ => {},
        }
        self.send_dangerous(command)
    }

    /// Declares option `name` as `option`.
    fn declare(&mut self, name: &UciOptionName, option: &UciOption)
        ensures
            final(self)@ == (EngineModel {
                options: declare(old(self)@.options, name@, option@),
                ..old(self)@
            }),
    {
        match self.find_option(name) {
            Some(i) => {
                let ghost m = self@.options;
                let n = self.options[i].0.duplicate();
                self.options.set(i, (n, option.duplicate()));
                assert(options_view(self.options@) =~= m.update(i as int, (m[i as int].0, option@)));
            },
            None => {
                let ghost m = self@.options;
                self.options.push((name.duplicate(), option.duplicate()));
                assert(options_view(self.options@) =~= m.push((name@, option@)));
            },
        }
    }

    /// Accounts for a line the engine sent, with or without its line ending,
    /// and gives the message for the client, or `None` for a line that is
    /// skipped: one that does not read, one of no known kind, or an `info`
    /// line with nothing worth showing. A skipped line changes nothing.
    pub fn recv(&mut self, line: &str) -> (r: Option<UciOut>)
        ensures
            (final(self)@, out_option_view(r)) == recv_spec(old(self)@, line@),
    {
        let cs = chars_of(line);
        let mut end = cs.len();
        assert(cs@.subrange(0, end as int) =~= cs@);
        while end > 0 && (cs[end - 1] == '\r' || cs[end - 1] == '\n')
            invariant
                end <= cs@.len(),
                cs@ == line@,
                strip_line_end(line@) == strip_line_end(cs@.subrange(0, end as int)),
            decreases end,
        {
            assert(cs@.subrange(0, end as int).drop_last() =~= cs@.subrange(0, end - 1));
            end = end - 1;
        }
        assert(cs@.subrange(0, end as int) =~= strip_line_end(cs@.subrange(0, end as int)));
        let text = string_of(&cs, 0, end);
        let command = match UciOut::from_line(text.as_str()) {
            Err(_) => {
                return None;
            },
            Ok(None) => {
                return None;
            },
            Ok(Some(c)) => c,
        };
        match &command {
            UciOut::Info { pv: None, string: None, score: None, .. } => {
                return None;
            },
            UciOut::Uciok => {
                if self.pending_uciok > 0 {
                    self.pending_uciok = self.pending_uciok - 1;
                }
            },
            UciOut::Readyok => {
                if self.pending_readyok > 0 {
                    self.pending_readyok = self.pending_readyok - 1;
                }
            },
            UciOut::Bestmove { .. } => {
                self.searching = false;
            },
            UciOut::Option { name, option } => {
                self.declare(name, option);
            },
            _ => {},
        }
        Some(command)
    }

    /// The next step towards an idle engine. A running search is stopped,
    /// and an `isready` sent after it, whose answer shows that the engine
    /// has said all it had to say about the search.
    pub fn idle_step(&mut self) -> (r: IdleStep)
        ensures
            r is Done <==> idle(old(self)@),
            r is Done ==> final(self)@ == old(self)@,
            r is Read ==> final(self)@ == old(self)@,
            r is WriteThenRead <==> (!idle(old(self)@) && old(self)@.searching && old(self)@.pending_readyok == 0),
            match r {
                IdleStep::WriteThenRead(lines) => lines@.len() == 2 && lines@[0]@ == wire_line(
                    InModel::Stop,
                ) && lines@[1]@ == wire_line(InModel::Isready) && final(self)@ == send_spec(
                    old(self)@,
                    InModel::Isready,
                ).0,
                _ => true,
            },
    {
        if self.is_idle() {
            return IdleStep::Done;
        }
        if self.searching && self.pending_readyok < 1 {
            let mut lines: Vec<String> = Vec::new();
            lines.push(Engine::line(&UciIn::Stop));
            if self.pending_readyok < u64::MAX {
                self.pending_readyok = self.pending_readyok + 1;
            }
            lines.push(Engine::line(&UciIn::Isready));
            return IdleStep::WriteThenRead(lines);
        }
        IdleStep::Read
    }

    /// Starts a new game: the lines to write once the engine is idle, after
    /// which it is to be brought to rest again.
    pub fn newgame_lines(&mut self) -> (r: Vec<String>)
        ensures
            r@.len() == 2,
            r@[0]@ == wire_line(InModel::Ucinewgame),
            r@[1]@ == wire_line(InModel::Isready),
            final(self)@ == send_spec(send_spec(old(self)@, InModel::Ucinewgame).0, InModel::Isready).0,
    {
        let mut lines: Vec<String> = Vec::new();
        lines.push(Engine::line(&UciIn::Ucinewgame));
        if self.pending_readyok < u64::MAX {
            self.pending_readyok = self.pending_readyok + 1;
        }
        lines.push(Engine::line(&UciIn::Isready));
        lines
    }
}

} // verus!

verus! {

/// What the startup handshake learns about the engine.
#[derive(Debug)]
pub struct EngineInfo {
    pub name: Option<String>,
    pub max_threads: Option<usize>,
    pub max_hash: Option<u64>,
    pub variants: Vec<String>,
}

/// The largest value of an integer option, where it is a spin option whose
/// maximum is a non-negative number no larger than `limit`.
pub open spec fn spin_max_within(o: OptionSchema, limit: int) -> Option<int> {
    match o {
        OptionSchema::Spin { max, .. } => if 0 <= max <= limit {
            Some(max as int)
        } else {
            None
        },
        _ => None,
    }
}

impl EngineInfo {
    pub fn new() -> (r: EngineInfo)
        ensures
            r.name is None,
            r.max_threads is None,
            r.max_hash is None,
            r.variants@.len() == 0,
    {
        EngineInfo { name: None, max_threads: None, max_hash: None, variants: Vec::new() }
    }

    /// Takes note of a line of the handshake: the engine's name, the largest
    /// hash table and thread count it allows, and the variants it plays.
    pub fn observe(&mut self, out: &UciOut)
        ensures
            match out@ {
                OutModel::IdName(n) => final(self).name matches Some(x) && x@ == n
                    && final(self).max_threads == old(self).max_threads && final(self).max_hash
                    == old(self).max_hash && final(self).variants@ == old(self).variants@,
                OutModel::OptionDecl { name, option } => final(self).name == old(self).name && if same_name(
                    name,
                    "Hash"@,
                ) {
                    (match spin_max_within(option, u64::MAX as int) {
                        Some(m) => final(self).max_hash == Some(m as u64),
                        None => final(self).max_hash is None,
                    }) && final(self).max_threads == old(self).max_threads && final(self).variants@
                        == old(self).variants@
                } else if same_name(name, "Threads"@) {
                    (match spin_max_within(option, usize::MAX as int) {
                        Some(m) => final(self).max_threads == Some(m as usize),
                        None => final(self).max_threads is None,
                    }) && final(self).max_hash == old(self).max_hash && final(self).variants@
                        == old(self).variants@
                } else if same_name(name, "UCI_Variant"@) {
                    strings_view(final(self).variants@) == (match option {
                        OptionSchema::Combo { var, .. } => var,
                        _ => Seq::empty(),
                    }) && final(self).max_hash == old(self).max_hash && final(self).max_threads
                        == old(self).max_threads
                } else {
                    final(self).max_hash == old(self).max_hash && final(self).max_threads == old(self).max_threads && final(self).variants@ == old(self).variants@
                },
                _ => final(self).name == old(self).name && final(self).max_hash == old(self).max_hash
                    && final(self).max_threads == old(self).max_threads && final(self).variants@
                    == old(self).variants@,
            },
    {
        match out {
            UciOut::IdName(n) => {
                self.name = Some(n.clone());
            },
            UciOut::Option { name, option } => {
                if name.is("Hash") {
                    self.max_hash = match option.max() {
                        Some(m) => if m >= 0 {
                            Some(m as u64)
                        } else {
                            None
                        },
                        None => None,
                    };
                } else if name.is("Threads") {
                    self.max_threads = match option.max() {
                        Some(m) => if m >= 0 && (m as u64) <= (usize::MAX as u64) {
                            Some(m as usize)
                        } else {
                            None
                        },
                        None => None,
                    };
                } else if name.is("UCI_Variant") {
                    self.variants = match option.var() {
                        Some(v) => crate::uci::copy_strings(v),
                        None => {
                            let v: Vec<String> = Vec::new();
                            assert(strings_view(v@) =~= Seq::empty());
                            v
                        },
                    };
                }
            },
            _ => {},
        }
    }
}

/// At most one search runs: once a `go` is accepted, a second `go` is
/// refused until a line that reads as `bestmove` is received.
pub proof fn law_one_search(e: EngineModel, g1: GoModel, g2: GoModel, line: Seq<char>)
    ensures
        send_spec(e, InModel::Go(g1)).1 is Ok ==> send_spec(e, InModel::Go(g1)).0.searching,
        e.searching ==> send_spec(e, InModel::Go(g2)) == (e, Err::<Option<Seq<char>>, _>(
            EngineError::AlreadySearching,
        )),
        e.searching && !(recv_spec(e, line).1 matches Some(OutModel::Bestmove { .. }))
            ==> recv_spec(e, line).0.searching,
{
}

/// An option off the allowlist is never written to the engine.
pub proof fn law_unsafe_option_dropped(e: EngineModel, name: Seq<char>, value: Option<Seq<char>>)
    requires
        !is_safe_name(name),
    ensures
        send_spec(e, InModel::Setoption { name, value }) == (e, Ok::<Option<Seq<char>>, EngineError>(
            None,
        )),
{
}

/// A value that the declared type of an allowed option does not admit is
/// refused, and nothing is written.
pub proof fn law_invalid_option_refused(e: EngineModel, name: Seq<char>, value: Option<Seq<char>>)
    requires
        is_safe_name(name),
        lookup(e.options, name) matches Some(o) && validate_spec(o, value) is Err,
    ensures
        send_spec(e, InModel::Setoption { name, value }) == (e, Err::<Option<Seq<char>>, _>(
            EngineError::InvalidOptionValue,
        )),
{
}

} // verus!
