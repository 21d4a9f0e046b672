use vstd::prelude::*;

use crate::number::{in_range, parse_signed, parse_unsigned, signed_text, unsigned_text};
use crate::text::{
    chars_of, next_token, range_is, read_token, skip_seps, skip_seps_at, string_of, take_until,
    take_until_at, trim, trim_end, trim_end_at, Stop,
};
use crate::uci::{
    fen_is_valid, fen_parses, is_uci_move, move_is_valid, opt_strings_view, strings_view, GoModel,
    InModel, ProtocolError, UciIn, UciOptionName, OutModel, InfoModel, Score, Eval, OptionSchema,
    UciOut, UciOption, assoc_put, key_index, pairs_view, lines_view, opt_view,
};

verus! {

pub open spec fn has_line_break(s: Seq<char>) -> bool {
    exists|i: int| 0 <= i < s.len() && (s[i] == '\r' || s[i] == '\n')
}

pub open spec fn text_or_empty(o: Option<Seq<char>>) -> Seq<char> {
    match o {
        Some(t) => t,
        None => Seq::empty(),
    }
}

/// A required token and what follows it.
pub open spec fn p_token(s: Seq<char>) -> Result<(Seq<char>, Seq<char>), ProtocolError> {
    match next_token(s).0 {
        Some(t) => Ok((t, next_token(s).1)),
        None => Err(ProtocolError::UnexpectedEndOfLine),
    }
}

/// A required unsigned integer in `lo..=hi`.
pub open spec fn p_unsigned(s: Seq<char>, lo: int, hi: int) -> Result<(int, Seq<char>), ProtocolError> {
    match next_token(s).0 {
        Some(t) => match in_range(unsigned_text(t), lo, hi) {
            Some(n) => Ok((n, next_token(s).1)),
            None => Err(ProtocolError::InvalidInteger),
        },
        None => Err(ProtocolError::UnexpectedEndOfLine),
    }
}

/// A required signed integer in `lo..=hi`.
pub open spec fn p_signed(s: Seq<char>, lo: int, hi: int) -> Result<(int, Seq<char>), ProtocolError> {
    match next_token(s).0 {
        Some(t) => match in_range(signed_text(t), lo, hi) {
            Some(n) => Ok((n, next_token(s).1)),
            None => Err(ProtocolError::InvalidInteger),
        },
        None => Err(ProtocolError::UnexpectedEndOfLine),
    }
}

/// A required move.
pub open spec fn p_move(s: Seq<char>) -> Result<(Seq<char>, Seq<char>), ProtocolError> {
    match next_token(s).0 {
        Some(t) => if is_uci_move(t) {
            Ok((t, next_token(s).1))
        } else {
            Err(ProtocolError::InvalidMove)
        },
        None => Err(ProtocolError::UnexpectedEndOfLine),
    }
}

/// The moves at the start of `s`, up to the first token that is not a move.
pub open spec fn p_moves(s: Seq<char>) -> (Seq<Seq<char>>, Seq<char>)
    decreases s.len(),
{
    match next_token(s).0 {
        Some(t) => if is_uci_move(t) && next_token(s).1.len() < s.len() {
            let (ms, r) = p_moves(next_token(s).1);
            (seq![t] + ms, r)
        } else {
            (Seq::empty(), s)
        },
        None => (Seq::empty(), s),
    }
}

/// Every remaining token, each a move.
pub open spec fn p_all_moves(s: Seq<char>) -> Result<Seq<Seq<char>>, ProtocolError>
    decreases s.len(),
{
    match next_token(s).0 {
        Some(t) => if !is_uci_move(t) {
            Err(ProtocolError::InvalidMove)
        } else if next_token(s).1.len() < s.len() {
            match p_all_moves(next_token(s).1) {
                Ok(ms) => Ok(seq![t] + ms),
                Err(e) => Err(e),
            }
        } else {
            Ok(seq![t])
        },
        None => Ok(Seq::empty()),
    }
}

pub open spec fn some_in(r: Result<InModel, ProtocolError>) -> Result<Option<InModel>, ProtocolError> {
    match r {
        Ok(v) => Ok(Some(v)),
        Err(e) => Err(e),
    }
}

/// `v`, when nothing follows.
pub open spec fn at_end<T>(s: Seq<char>, v: T) -> Result<Option<T>, ProtocolError> {
    if next_token(s).0 is Some {
        Err(ProtocolError::ExpectedEndOfLine)
    } else {
        Ok(Some(v))
    }
}

pub open spec fn setoption_spec(s: Seq<char>) -> Result<InModel, ProtocolError> {
    match next_token(s).0 {
        None => Err(ProtocolError::UnexpectedEndOfLine),
        Some(t) => if t != "name"@ {
            Err(ProtocolError::UnexpectedToken)
        } else {
            let (n, r) = take_until(next_token(s).1, Stop::Value);
            match n {
                None => Err(ProtocolError::UnexpectedEndOfLine),
                Some(name) => match next_token(r).0 {
                    None => Ok(InModel::Setoption { name, value: None }),
                    Some(_) => Ok(
                        InModel::Setoption {
                            name,
                            value: Some(text_or_empty(take_until(next_token(r).1, Stop::Never).0)),
                        },
                    ),
                },
            }
        },
    }
}

pub open spec fn position_moves(s: Seq<char>, fen: Option<Seq<char>>) -> Result<InModel, ProtocolError> {
    match next_token(s).0 {
        None => Ok(InModel::Position { fen, moves: Seq::empty() }),
        Some(t) => if t == "moves"@ {
            match p_all_moves(next_token(s).1) {
                Ok(moves) => Ok(InModel::Position { fen, moves }),
                Err(e) => Err(e),
            }
        } else {
            Err(ProtocolError::UnexpectedToken)
        },
    }
}

pub open spec fn position_spec(s: Seq<char>) -> Result<InModel, ProtocolError> {
    match next_token(s).0 {
        None => Err(ProtocolError::UnexpectedEndOfLine),
        Some(t) => if t == "startpos"@ {
            position_moves(next_token(s).1, None)
        } else if t == "fen"@ {
            let (f, r) = take_until(next_token(s).1, Stop::Moves);
            match f {
                None => Err(ProtocolError::UnexpectedEndOfLine),
                Some(fen) => if fen_is_valid(fen) {
                    position_moves(r, Some(fen))
                } else {
                    Err(ProtocolError::InvalidFen)
                },
            }
        } else {
            Err(ProtocolError::UnexpectedToken)
        },
    }
}

pub open spec fn go_default() -> GoModel {
    GoModel {
        searchmoves: None,
        ponder: false,
        wtime: None,
        btime: None,
        winc: None,
        binc: None,
        movestogo: None,
        depth: None,
        nodes: None,
        mate: None,
        movetime: None,
        infinite: false,
    }
}

/// Reads the value of the `go` parameter `k` from `s` into `g`.
pub open spec fn go_key(k: Seq<char>, s: Seq<char>, g: GoModel) -> Result<(GoModel, Seq<char>), ProtocolError> {
    if k == "ponder"@ {
        Ok((GoModel { ponder: true, ..g }, s))
    } else if k == "infinite"@ {
        Ok((GoModel { infinite: true, ..g }, s))
    } else if k == "searchmoves"@ {
        Ok((GoModel { searchmoves: Some(p_moves(s).0), ..g }, p_moves(s).1))
    } else if k == "movestogo"@ || k == "depth"@ || k == "mate"@ {
        match p_unsigned(s, 0, u32::MAX as int) {
            Ok((n, r)) => Ok(
                (if k == "movestogo"@ {
                    GoModel { movestogo: Some(n as u32), ..g }
                } else if k == "depth"@ {
                    GoModel { depth: Some(n as u32), ..g }
                } else {
                    GoModel { mate: Some(n as u32), ..g }
                }, r),
            ),
            Err(e) => Err(e),
        }
    } else if k == "nodes"@ || k == "movetime"@ || k == "wtime"@ || k == "btime"@ || k == "winc"@
        || k == "binc"@ {
        match p_unsigned(s, 0, u64::MAX as int) {
            Ok((n, r)) => Ok(
                (if k == "nodes"@ {
                    GoModel { nodes: Some(n as u64), ..g }
                } else if k == "movetime"@ {
                    GoModel { movetime: Some(n as u64), ..g }
                } else if k == "wtime"@ {
                    GoModel { wtime: Some(n as u64), ..g }
                } else if k == "btime"@ {
                    GoModel { btime: Some(n as u64), ..g }
                } else if k == "winc"@ {
                    GoModel { winc: Some(n as u64), ..g }
                } else {
                    GoModel { binc: Some(n as u64), ..g }
                }, r),
            ),
            Err(e) => Err(e),
        }
    } else {
        Err(ProtocolError::UnexpectedToken)
    }
}

/// Reads `go` parameters until the end of the line.
pub open spec fn go_loop(s: Seq<char>, g: GoModel) -> Result<GoModel, ProtocolError>
    decreases s.len(),
{
    match next_token(s).0 {
        None => Ok(g),
        Some(k) => match go_key(k, next_token(s).1, g) {
            Err(e) => Err(e),
            Ok((g2, r)) => if r.len() < s.len() {
                go_loop(r, g2)
            } else {
                Ok(g2)
            },
        },
    }
}

/// What a line without line breaks and without separators at either end
/// reads as, when sent to an engine.
pub open spec fn in_spec(s: Seq<char>) -> Result<Option<InModel>, ProtocolError> {
    match next_token(s).0 {
        None => Ok(None),
        Some(t) => {
            let r = next_token(s).1;
            if t == "uci"@ {
                at_end(r, InModel::Uci)
            } else if t == "isready"@ {
                at_end(r, InModel::Isready)
            } else if t == "ucinewgame"@ {
                at_end(r, InModel::Ucinewgame)
            } else if t == "stop"@ {
                at_end(r, InModel::Stop)
            } else if t == "ponderhit"@ {
                at_end(r, InModel::Ponderhit)
            } else if t == "setoption"@ {
                some_in(setoption_spec(r))
            } else if t == "position"@ {
                some_in(position_spec(r))
            } else if t == "go"@ {
                match go_loop(r, go_default()) {
                    Ok(g) => Ok(Some(InModel::Go(g))),
                    Err(e) => Err(e),
                }
            } else {
                Err(ProtocolError::UnexpectedToken)
            }
        },
    }
}

/// What a line sent to an engine reads as.
pub open spec fn decode_in(s: Seq<char>) -> Result<Option<InModel>, ProtocolError> {
    if has_line_break(s) {
        Err(ProtocolError::UnexpectedLineBreak)
    } else {
        in_spec(trim(s))
    }
}

pub open spec fn in_result_view(r: Result<Option<UciIn>, ProtocolError>) -> Result<
    Option<InModel>,
    ProtocolError,
> {
    match r {
        Ok(Some(v)) => Ok(Some(v@)),
        Ok(None) => Ok(None),
        Err(e) => Err(e),
    }
}

/// A line being read, token by token.
pub struct Parser {
    line: Vec<char>,
    pos: usize,
}

impl Parser {
    pub closed spec fn wf(&self) -> bool {
        self.pos <= self.line@.len()
    }

    /// What is left to read.
    pub closed spec fn rest(&self) -> Seq<char> {
        self.line@.skip(self.pos as int)
    }

    pub closed spec fn token_view(&self, t: (usize, usize)) -> Seq<char> {
        self.line@.subrange(t.0 as int, t.1 as int)
    }

    pub closed spec fn token_ok(&self, t: (usize, usize)) -> bool {
        t.0 <= t.1 <= self.line@.len()
    }

    /// Starts reading `s`, which must not hold a line break. Separators at
    /// either end are dropped.
    pub fn new(s: &str) -> (r: Result<Parser, ProtocolError>)
        ensures
            match r {
                Ok(p) => !has_line_break(s@) && p.wf() && p.rest() == trim(s@),
                Err(e) => has_line_break(s@) && e == ProtocolError::UnexpectedLineBreak,
            },
    {
        let cs = chars_of(s);
        let mut i: usize = 0;
        while i < cs.len()
            invariant
                cs@ == s@,
                i <= cs@.len(),
                forall|j: int| 0 <= j < i ==> !(cs@[j] == '\r' || cs@[j] == '\n'),
            decreases cs@.len() - i,
        {
            if cs[i] == '\r' || cs[i] == '\n' {
                return Err(ProtocolError::UnexpectedLineBreak);
            }
            i = i + 1;
        }
        let a = skip_seps_at(&cs, 0);
        let e = trim_end_at(&cs, a, cs.len());
        proof {
            assert(cs@.skip(0) =~= cs@);
            assert(cs@.skip(a as int) =~= cs@.subrange(a as int, cs@.len() as int));
        }
        let mut line: Vec<char> = Vec::new();
        let mut k = a;
        while k < e
            invariant
                a <= k <= e <= cs@.len(),
                line@ == cs@.subrange(a as int, k as int),
            decreases e - k,
        {
            line.push(cs[k]);
            assert(line@ =~= cs@.subrange(a as int, k + 1));
            k = k + 1;
        }
        assert(line@.skip(0) =~= line@);
        Ok(Parser { line, pos: 0 })
    }

    /// Reads the next token.
    fn next(&mut self) -> (r: Option<(usize, usize)>)
        requires
            old(self).wf(),
        ensures
            final(self).wf(),
            final(self).line == old(self).line,
            next_token(old(self).rest()).1 == final(self).rest(),
            final(self).rest().len() <= old(self).rest().len(),
            r is Some ==> final(self).rest().len() < old(self).rest().len(),
            match r {
                Some(t) => final(self).token_ok(t) && t.0 < t.1 && next_token(old(self).rest()).0
                    == Some(final(self).token_view(t)),
                None => next_token(old(self).rest()).0 is None,
            },
    {
        let (t, p) = read_token(&self.line, self.pos);
        self.pos = p;
        t
    }

    /// The next token, left unread.
    fn peek(&self) -> (r: Option<(usize, usize)>)
        requires
            self.wf(),
        ensures
            match r {
                Some(t) => self.token_ok(t) && next_token(self.rest()).0 == Some(self.token_view(t)),
                None => next_token(self.rest()).0 is None,
            },
    {
        read_token(&self.line, self.pos).0
    }

    /// Reads free-form text up to the next stopping token.
    fn until(&mut self, stop: Stop) -> (r: Option<(usize, usize)>)
        requires
            old(self).wf(),
        ensures
            final(self).wf(),
            final(self).line == old(self).line,
            take_until(old(self).rest(), stop).1 == final(self).rest(),
            final(self).rest().len() <= old(self).rest().len(),
            match r {
                Some(t) => final(self).token_ok(t) && take_until(old(self).rest(), stop).0 == Some(
                    final(self).token_view(t),
                ),
                None => take_until(old(self).rest(), stop).0 is None,
            },
    {
        let (t, p) = take_until_at(&self.line, self.pos, stop);
        self.pos = p;
        t
    }

    /// Succeeds when nothing is left to read.
    fn end(&self) -> (r: Result<(), ProtocolError>)
        requires
            self.wf(),
        ensures
            match r {
                Ok(()) => next_token(self.rest()).0 is None,
                Err(e) => next_token(self.rest()).0 is Some && e == ProtocolError::ExpectedEndOfLine,
            },
    {
        match self.peek() {
            Some(_) => Err(ProtocolError::ExpectedEndOfLine),
            None => Ok(()),
        }
    }

    fn is(&self, t: (usize, usize), word: &str) -> (r: bool)
        requires
            self.token_ok(t),
        ensures
            r == (self.token_view(t) == word@),
    {
        range_is(&self.line, t.0, t.1, word)
    }

    fn text(&self, t: (usize, usize)) -> (r: String)
        requires
            self.token_ok(t),
        ensures
            r@ == self.token_view(t),
    {
        string_of(&self.line, t.0, t.1)
    }

    fn text_or_empty(&self, t: Option<(usize, usize)>) -> (r: String)
        requires
            t matches Some(x) ==> self.token_ok(x),
        ensures
            r@ == text_or_empty(
                match t {
                    Some(x) => Some(self.token_view(x)),
                    None => None,
                },
            ),
    {
        match t {
            Some(x) => self.text(x),
            None => String::new(),
        }
    }

    fn unsigned(&mut self, max: u64) -> (r: Result<u64, ProtocolError>)
        requires
            old(self).wf(),
        ensures
            final(self).wf(),
            final(self).line == old(self).line,
            final(self).rest().len() <= old(self).rest().len(),
            match r {
                Ok(n) => p_unsigned(old(self).rest(), 0, max as int) == Ok::<_, ProtocolError>((n as int, final(self).rest())),
                Err(e) => p_unsigned(old(self).rest(), 0, max as int) == Err::<(int, Seq<char>), _>(e),
            },
    {
        match self.next() {
            None => Err(ProtocolError::UnexpectedEndOfLine),
            Some(t) => match parse_unsigned(&self.line, t.0, t.1, max) {
                Some(n) => Ok(n),
                None => Err(ProtocolError::InvalidInteger),
            },
        }
    }

    fn signed(&mut self, min: i64, max: i64) -> (r: Result<i64, ProtocolError>)
        requires
            old(self).wf(),
            min <= 0 <= max,
        ensures
            final(self).wf(),
            final(self).line == old(self).line,
            final(self).rest().len() <= old(self).rest().len(),
            match r {
                Ok(n) => p_signed(old(self).rest(), min as int, max as int) == Ok::<_, ProtocolError>((n as int, final(self).rest())),
                Err(e) => p_signed(old(self).rest(), min as int, max as int) == Err::<(int, Seq<char>), _>(e),
            },
    {
        match self.next() {
            None => Err(ProtocolError::UnexpectedEndOfLine),
            Some(t) => match parse_signed(&self.line, t.0, t.1, min, max) {
                Some(n) => Ok(n),
                None => Err(ProtocolError::InvalidInteger),
            },
        }
    }

    /// Reads a duration in milliseconds.
    fn parse_millis(&mut self) -> (r: Result<u64, ProtocolError>)
        requires
            old(self).wf(),
        ensures
            final(self).wf(),
            final(self).line == old(self).line,
            final(self).rest().len() <= old(self).rest().len(),
            match r {
                Ok(n) => p_unsigned(old(self).rest(), 0, u64::MAX as int) == Ok::<_, ProtocolError>((n as int, final(self).rest())),
                Err(e) => p_unsigned(old(self).rest(), 0, u64::MAX as int) == Err::<(int, Seq<char>), _>(e),
            },
    {
        self.unsigned(u64::MAX)
    }

    fn is_move(&self, t: (usize, usize)) -> (r: bool)
        requires
            self.token_ok(t),
        ensures
            r == is_uci_move(self.token_view(t)),
    {
        let s = self.text(t);
        move_is_valid(s.as_str())
    }

    fn parse_move(&mut self) -> (r: Result<String, ProtocolError>)
        requires
            old(self).wf(),
        ensures
            final(self).wf(),
            final(self).line == old(self).line,
            final(self).rest().len() <= old(self).rest().len(),
            match r {
                Ok(m) => p_move(old(self).rest()) == Ok::<_, ProtocolError>((m@, final(self).rest())),
                Err(e) => p_move(old(self).rest()) == Err::<(Seq<char>, Seq<char>), _>(e),
            },
    {
        match self.next() {
            None => Err(ProtocolError::UnexpectedEndOfLine),
            Some(t) => if self.is_move(t) {
                Ok(self.text(t))
            } else {
                Err(ProtocolError::InvalidMove)
            },
        }
    }

    /// Reads moves for as long as the next token is one.
    fn parse_moves(&mut self) -> (r: Vec<String>)
        requires
            old(self).wf(),
        ensures
            final(self).wf(),
            final(self).line == old(self).line,
            final(self).rest().len() <= old(self).rest().len(),
            p_moves(old(self).rest()) == (strings_view(r@), final(self).rest()),
    {
        let mut moves: Vec<String> = Vec::new();
        let ghost s0 = self.rest();
        loop
            invariant
                self.wf(),
                self.line == old(self).line,
                s0 == old(self).rest(),
                self.rest().len() <= s0.len(),
                p_moves(s0) == (strings_view(moves@) + p_moves(self.rest()).0, p_moves(self.rest()).1),
            decreases self.line@.len() - self.pos,
        {
            match self.peek() {
                Some(t) => {
                    if self.is_move(t) {
                        let ghost before = self.rest();
                        let m = self.text(t);
                        self.next();
                        moves.push(m);
                        proof {
                            assert(strings_view(moves@) =~= strings_view(moves@.drop_last()).push(m@));
                            assert(moves@.drop_last() == moves@.subrange(0, moves@.len() - 1));
                            assert(next_token(before).0 == Some(m@));
                            assert(next_token(before).1 == self.rest());
                            assert(self.rest().len() < before.len());
                            assert(is_uci_move(m@));
                            assert(seq![m@] + p_moves(self.rest()).0 == p_moves(before).0);
                            assert(strings_view(moves@) + p_moves(self.rest()).0 =~= strings_view(
                                moves@.drop_last(),
                            ) + (seq![m@] + p_moves(self.rest()).0));
                        }
                    } else {
                        return moves;
                    }
                },
                None => {
                    assert(strings_view(moves@) + Seq::<Seq<char>>::empty() =~= strings_view(moves@));
                    return moves;
                },
            }
        }
    }
}

} // verus!

verus! {

pub open spec fn go_view(
    searchmoves: Option<Vec<String>>,
    ponder: bool,
    wtime: Option<u64>,
    btime: Option<u64>,
    winc: Option<u64>,
    binc: Option<u64>,
    movestogo: Option<u32>,
    depth: Option<u32>,
    nodes: Option<u64>,
    mate: Option<u32>,
    movetime: Option<u64>,
    infinite: bool,
) -> GoModel {
    GoModel {
        searchmoves: opt_strings_view(searchmoves),
        ponder,
        wtime,
        btime,
        winc,
        binc,
        movestogo,
        depth,
        nodes,
        mate,
        movetime,
        infinite,
    }
}

/// The parameters of a `go` command as they are read.
struct GoFields {
    searchmoves: Option<Vec<String>>,
    ponder: bool,
    wtime: Option<u64>,
    btime: Option<u64>,
    winc: Option<u64>,
    binc: Option<u64>,
    movestogo: Option<u32>,
    depth: Option<u32>,
    nodes: Option<u64>,
    mate: Option<u32>,
    movetime: Option<u64>,
    infinite: bool,
}

impl View for GoFields {
    type V = GoModel;

    closed spec fn view(&self) -> GoModel {
        go_view(
            self.searchmoves,
            self.ponder,
            self.wtime,
            self.btime,
            self.winc,
            self.binc,
            self.movestogo,
            self.depth,
            self.nodes,
            self.mate,
            self.movetime,
            self.infinite,
        )
    }
}

pub open spec fn in_model_result(r: Result<UciIn, ProtocolError>) -> Result<InModel, ProtocolError> {
    match r {
        Ok(v) => Ok(v@),
        Err(e) => Err(e),
    }
}

impl Parser {
    fn parse_setoption(&mut self) -> (r: Result<UciIn, ProtocolError>)
        requires
            old(self).wf(),
        ensures
            in_model_result(r) == setoption_spec(old(self).rest()),
    {
        match self.next() {
            None => Err(ProtocolError::UnexpectedEndOfLine),
            Some(t) => {
                if !self.is(t, "name") {
                    return Err(ProtocolError::UnexpectedToken);
                }
                let n = match self.until(Stop::Value) {
                    None => {
                        return Err(ProtocolError::UnexpectedEndOfLine);
                    },
                    Some(n) => n,
                };
                let name = UciOptionName(self.text(n));
                let value = match self.next() {
                    None => None,
                    Some(_) => {
                        let v = self.until(Stop::Never);
                        Some(self.text_or_empty(v))
                    },
                };
                Ok(UciIn::Setoption { name, value })
            },
        }
    }

    /// Reads every remaining token as a move.
    fn parse_all_moves(&mut self) -> (r: Result<Vec<String>, ProtocolError>)
        requires
            old(self).wf(),
        ensures
            match r {
                Ok(ms) => p_all_moves(old(self).rest()) == Ok::<_, ProtocolError>(strings_view(ms@)),
                Err(e) => p_all_moves(old(self).rest()) == Err::<Seq<Seq<char>>, _>(e),
            },
    {
        let mut moves: Vec<String> = Vec::new();
        let ghost s0 = self.rest();
        loop
            invariant
                self.wf(),
                s0 == old(self).rest(),
                p_all_moves(s0) == match p_all_moves(self.rest()) {
                    Ok(ms) => Ok::<_, ProtocolError>(strings_view(moves@) + ms),
                    Err(e) => Err(e),
                },
            decreases self.rest().len(),
        {
            let ghost before = self.rest();
            match self.next() {
                None => {
                    assert(strings_view(moves@) + Seq::<Seq<char>>::empty() =~= strings_view(moves@));
                    return Ok(moves);
                },
                Some(t) => {
                    if !self.is_move(t) {
                        return Err(ProtocolError::InvalidMove);
                    }
                    let m = self.text(t);
                    let ghost old_moves = moves@;
                    moves.push(m);
                    proof {
                        assert(next_token(before).0 == Some(m@));
                        assert(strings_view(moves@) =~= strings_view(old_moves).push(m@));
                        match p_all_moves(self.rest()) {
                            Ok(ms) => {
                                assert(p_all_moves(before) == Ok::<_, ProtocolError>(seq![m@] + ms));
                                assert(strings_view(moves@) + ms =~= strings_view(old_moves) + (seq![m@] + ms));
                            },
                            Err(e) => {
                                assert(p_all_moves(before) == Err::<Seq<Seq<char>>, _>(e));
                            },
                        }
                    }
                },
            }
        }
    }

    fn parse_position(&mut self) -> (r: Result<UciIn, ProtocolError>)
        requires
            old(self).wf(),
        ensures
            in_model_result(r) == position_spec(old(self).rest()),
    {
        let ghost s0 = self.rest();
        let fen = match self.next() {
            None => {
                return Err(ProtocolError::UnexpectedEndOfLine);
            },
            Some(t) => if self.is(t, "startpos") {
                None
            } else if self.is(t, "fen") {
                let ghost s1 = self.rest();
                match self.until(Stop::Moves) {
                    None => {
                        return Err(ProtocolError::UnexpectedEndOfLine);
                    },
                    Some(f) => {
                        let text = self.text(f);
                        if !fen_parses(text.as_str()) {
                            return Err(ProtocolError::InvalidFen);
                        }
                        assert(take_until(s1, Stop::Moves) == (Some(text@), self.rest()));
                        Some(text)
                    },
                }
            } else {
                return Err(ProtocolError::UnexpectedToken);
            },
        };
        assert(position_spec(old(self).rest()) == position_moves(self.rest(), opt_view_local(fen)));
        let ghost s1 = self.rest();
        match self.next() {
            None => {
                let moves: Vec<String> = Vec::new();
                assert(strings_view(moves@) =~= Seq::<Seq<char>>::empty());
                Ok(UciIn::Position { fen, moves })
            },
            Some(t) => if self.is(t, "moves") {
                let ghost s2 = self.rest();
                match self.parse_all_moves() {
                    Ok(moves) => {
                        assert(p_all_moves(s2) == Ok::<_, ProtocolError>(strings_view(moves@)));
                        assert(position_moves(s1, opt_view_local(fen)) == Ok::<_, ProtocolError>(
                            InModel::Position { fen: opt_view_local(fen), moves: strings_view(moves@) },
                        ));
                        Ok(UciIn::Position { fen, moves })
                    },
                    Err(e) => Err(e),
                }
            } else {
                Err(ProtocolError::UnexpectedToken)
            },
        }
    }

    /// Reads the value of the `go` parameter `k` into `g`.
    fn go_param(&mut self, k: (usize, usize), g: &mut GoFields) -> (r: Result<(), ProtocolError>)
        requires
            old(self).wf(),
            old(self).token_ok(k),
        ensures
            final(self).wf(),
            final(self).line == old(self).line,
            final(self).rest().len() <= old(self).rest().len(),
            go_key(old(self).token_view(k), old(self).rest(), old(g)@) == match r {
                Ok(_) => Ok::<_, ProtocolError>((final(g)@, final(self).rest())),
                Err(e) => Err(e),
            },
    {
        if self.is(k, "ponder") {
            g.ponder = true;
        } else if self.is(k, "infinite") {
            g.infinite = true;
        } else if self.is(k, "searchmoves") {
            g.searchmoves = Some(self.parse_moves());
        } else if self.is(k, "movestogo") {
            g.movestogo = Some(self.unsigned(u32::MAX as u64)? as u32);
        } else if self.is(k, "depth") {
            g.depth = Some(self.unsigned(u32::MAX as u64)? as u32);
        } else if self.is(k, "mate") {
            g.mate = Some(self.unsigned(u32::MAX as u64)? as u32);
        } else if self.is(k, "nodes") {
            g.nodes = Some(self.unsigned(u64::MAX)?);
        } else if self.is(k, "movetime") {
            g.movetime = Some(self.parse_millis()?);
        } else if self.is(k, "wtime") {
            g.wtime = Some(self.parse_millis()?);
        } else if self.is(k, "btime") {
            g.btime = Some(self.parse_millis()?);
        } else if self.is(k, "winc") {
            g.winc = Some(self.parse_millis()?);
        } else if self.is(k, "binc") {
            g.binc = Some(self.parse_millis()?);
        } else {
            return Err(ProtocolError::UnexpectedToken);
        }
        Ok(())
    }

    fn parse_go(&mut self) -> (r: Result<UciIn, ProtocolError>)
        requires
            old(self).wf(),
        ensures
            in_model_result(r) == match go_loop(old(self).rest(), go_default()) {
                Ok(g) => Ok::<_, ProtocolError>(InModel::Go(g)),
                Err(e) => Err(e),
            },
    {
        let mut g = GoFields {
            searchmoves: None,
            ponder: false,
            wtime: None,
            btime: None,
            winc: None,
            binc: None,
            movestogo: None,
            depth: None,
            nodes: None,
            mate: None,
            movetime: None,
            infinite: false,
        };
        let ghost s0 = self.rest();
        loop
            invariant
                self.wf(),
                s0 == old(self).rest(),
                go_loop(s0, go_default()) == go_loop(self.rest(), g@),
            ensures
                go_loop(s0, go_default()) == Ok::<_, ProtocolError>(g@),
            decreases self.rest().len(),
        {
            let ghost before = self.rest();
            let t = match self.next() {
                None => {
                    assert(go_loop(before, g@) == Ok::<_, ProtocolError>(g@));
                    break;
                },
                Some(t) => t,
            };
            let ghost k = self.token_view(t);
            let ghost after_key = self.rest();
            let ghost g0 = g@;
            match self.go_param(t, &mut g) {
                Err(e) => {
                    assert(go_loop(before, g0) == Err::<GoModel, _>(e));
                    return Err(e);
                },
                Ok(_) => {
                    assert(go_loop(before, g0) == go_loop(self.rest(), g@));
                },
            }
        }
        Ok(
            UciIn::Go {
                searchmoves: g.searchmoves,
                ponder: g.ponder,
                wtime: g.wtime,
                btime: g.btime,
                winc: g.winc,
                binc: g.binc,
                movestogo: g.movestogo,
                depth: g.depth,
                nodes: g.nodes,
                mate: g.mate,
                movetime: g.movetime,
                infinite: g.infinite,
            },
        )
    }

    fn parse_in(&mut self) -> (r: Result<Option<UciIn>, ProtocolError>)
        requires
            old(self).wf(),
        ensures
            in_result_view(r) == in_spec(old(self).rest()),
    {
        let t = match self.next() {
            None => {
                return Ok(None);
            },
            Some(t) => t,
        };
        if self.is(t, "uci") {
            self.end()?;
            Ok(Some(UciIn::Uci))
        } else if self.is(t, "isready") {
            self.end()?;
            Ok(Some(UciIn::Isready))
        } else if self.is(t, "ucinewgame") {
            self.end()?;
            Ok(Some(UciIn::Ucinewgame))
        } else if self.is(t, "stop") {
            self.end()?;
            Ok(Some(UciIn::Stop))
        } else if self.is(t, "ponderhit") {
            self.end()?;
            Ok(Some(UciIn::Ponderhit))
        } else if self.is(t, "setoption") {
            Ok(Some(self.parse_setoption()?))
        } else if self.is(t, "position") {
            Ok(Some(self.parse_position()?))
        } else if self.is(t, "go") {
            Ok(Some(self.parse_go()?))
        } else {
            Err(ProtocolError::UnexpectedToken)
        }
    }
}

pub open spec fn opt_view_local(o: Option<String>) -> Option<Seq<char>> {
    match o {
        Some(s) => Some(s@),
        None => None,
    }
}

impl UciIn {
    /// Reads a command sent to an engine. A line without tokens reads as
    /// `None`.
    pub fn from_line(s: &str) -> (r: Result<Option<UciIn>, ProtocolError>)
        ensures
            in_result_view(r) == decode_in(s@),
    {
        let mut p = Parser::new(s)?;
        p.parse_in()
    }
}

} // verus!

verus! {

pub open spec fn some_out(r: Result<OutModel, ProtocolError>) -> Result<Option<OutModel>, ProtocolError> {
    match r {
        Ok(v) => Ok(Some(v)),
        Err(e) => Err(e),
    }
}

pub open spec fn id_spec(s: Seq<char>) -> Result<OutModel, ProtocolError> {
    match next_token(s).0 {
        None => Err(ProtocolError::UnexpectedEndOfLine),
        Some(t) => if t == "name"@ || t == "author"@ {
            match take_until(next_token(s).1, Stop::Never).0 {
                None => Err(ProtocolError::UnexpectedEndOfLine),
                Some(x) => if t == "name"@ {
                    Ok(OutModel::IdName(x))
                } else {
                    Ok(OutModel::IdAuthor(x))
                },
            }
        } else {
            Err(ProtocolError::UnexpectedToken)
        },
    }
}

/// A move or `(none)`, where a token is required to be one when present.
pub open spec fn opt_move(t: Option<Seq<char>>) -> Result<Option<Seq<char>>, ProtocolError> {
    match t {
        None => Ok(None),
        Some(m) => if m == "(none)"@ {
            Ok(None)
        } else if is_uci_move(m) {
            Ok(Some(m))
        } else {
            Err(ProtocolError::InvalidMove)
        },
    }
}

pub open spec fn bestmove_spec(s: Seq<char>) -> Result<OutModel, ProtocolError> {
    match opt_move(next_token(s).0) {
        Err(e) => Err(e),
        Ok(m) => {
            let r = next_token(s).1;
            match next_token(r).0 {
                None => Ok(OutModel::Bestmove { m, ponder: None }),
                Some(t) => if t == "ponder"@ {
                    match opt_move(next_token(next_token(r).1).0) {
                        Err(e) => Err(e),
                        Ok(p) => Ok(OutModel::Bestmove { m, ponder: p }),
                    }
                } else {
                    Err(ProtocolError::UnexpectedToken)
                },
            }
        },
    }
}

/// Reads `lowerbound` and `upperbound` flags for as long as they come.
pub open spec fn bounds_loop(s: Seq<char>, sc: Score) -> (Score, Seq<char>)
    decreases s.len(),
{
    match next_token(s).0 {
        Some(t) => if next_token(s).1.len() < s.len() && t == "lowerbound"@ {
            bounds_loop(next_token(s).1, Score { lowerbound: true, ..sc })
        } else if next_token(s).1.len() < s.len() && t == "upperbound"@ {
            bounds_loop(next_token(s).1, Score { upperbound: true, ..sc })
        } else {
            (sc, s)
        },
        None => (sc, s),
    }
}

pub open spec fn score_spec(s: Seq<char>) -> Result<(Score, Seq<char>), ProtocolError> {
    match next_token(s).0 {
        None => Err(ProtocolError::UnexpectedEndOfLine),
        Some(t) => {
            let r = next_token(s).1;
            if t == "cp"@ {
                match p_signed(r, i64::MIN as int, i64::MAX as int) {
                    Ok((n, r2)) => Ok(
                        bounds_loop(
                            r2,
                            Score { eval: Eval::Cp(n as i64), lowerbound: false, upperbound: false },
                        ),
                    ),
                    Err(e) => Err(e),
                }
            } else if t == "mate"@ {
                match p_signed(r, i32::MIN as int, i32::MAX as int) {
                    Ok((n, r2)) => Ok(
                        bounds_loop(
                            r2,
                            Score { eval: Eval::Mate(n as i32), lowerbound: false, upperbound: false },
                        ),
                    ),
                    Err(e) => Err(e),
                }
            } else {
                Err(ProtocolError::UnexpectedToken)
            }
        },
    }
}

pub open spec fn info_default() -> InfoModel {
    InfoModel {
        multipv: None,
        depth: None,
        seldepth: None,
        time: None,
        nodes: None,
        score: None,
        currmove: None,
        currmovenumber: None,
        hashfull: None,
        nps: None,
        tbhits: None,
        sbhits: None,
        cpuload: None,
        refutation: Seq::empty(),
        currline: Seq::empty(),
        pv: None,
        string: None,
    }
}

pub open spec fn info_u32(k: Seq<char>, n: u32, i: InfoModel) -> InfoModel {
    if k == "multipv"@ {
        InfoModel { multipv: Some(n), ..i }
    } else if k == "depth"@ {
        InfoModel { depth: Some(n), ..i }
    } else if k == "seldepth"@ {
        InfoModel { seldepth: Some(n), ..i }
    } else if k == "currmovenumber"@ {
        InfoModel { currmovenumber: Some(n), ..i }
    } else if k == "hashfull"@ {
        InfoModel { hashfull: Some(n), ..i }
    } else {
        InfoModel { cpuload: Some(n), ..i }
    }
}

pub open spec fn info_u64(k: Seq<char>, n: u64, i: InfoModel) -> InfoModel {
    if k == "time"@ {
        InfoModel { time: Some(n), ..i }
    } else if k == "nodes"@ {
        InfoModel { nodes: Some(n), ..i }
    } else if k == "nps"@ {
        InfoModel { nps: Some(n), ..i }
    } else if k == "tbhits"@ {
        InfoModel { tbhits: Some(n), ..i }
    } else {
        InfoModel { sbhits: Some(n), ..i }
    }
}

pub open spec fn is_info_u32_key(k: Seq<char>) -> bool {
    k == "multipv"@ || k == "depth"@ || k == "seldepth"@ || k == "currmovenumber"@ || k
        == "hashfull"@ || k == "cpuload"@
}

pub open spec fn is_info_u64_key(k: Seq<char>) -> bool {
    k == "time"@ || k == "nodes"@ || k == "nps"@ || k == "tbhits"@ || k == "sbhits"@
}

/// Reads the value of the `info` field `k` from `s` into `i`.
pub open spec fn info_key(k: Seq<char>, s: Seq<char>, i: InfoModel) -> Result<(InfoModel, Seq<char>), ProtocolError> {
    if is_info_u32_key(k) {
        match p_unsigned(s, if k == "multipv"@ { 1 } else { 0 }, u32::MAX as int) {
            Ok((n, r)) => Ok((info_u32(k, n as u32, i), r)),
            Err(e) => Err(e),
        }
    } else if is_info_u64_key(k) {
        match p_unsigned(s, 0, u64::MAX as int) {
            Ok((n, r)) => Ok((info_u64(k, n as u64, i), r)),
            Err(e) => Err(e),
        }
    } else if k == "score"@ {
        match score_spec(s) {
            Ok((sc, r)) => Ok((InfoModel { score: Some(sc), ..i }, r)),
            Err(e) => Err(e),
        }
    } else if k == "currmove"@ {
        match p_move(s) {
            Ok((m, r)) => Ok((InfoModel { currmove: Some(m), ..i }, r)),
            Err(e) => Err(e),
        }
    } else if k == "refutation"@ {
        match p_move(s) {
            Ok((m, r)) => Ok(
                (
                    InfoModel { refutation: assoc_put(i.refutation, m, p_moves(r).0), ..i },
                    p_moves(r).1,
                ),
            ),
            Err(e) => Err(e),
        }
    } else if k == "currline"@ {
        match p_unsigned(s, 0, u32::MAX as int) {
            Ok((n, r)) => Ok(
                (
                    InfoModel { currline: assoc_put(i.currline, n as u32, p_moves(r).0), ..i },
                    p_moves(r).1,
                ),
            ),
            Err(e) => Err(e),
        }
    } else if k == "pv"@ {
        Ok((InfoModel { pv: Some(p_moves(s).0), ..i }, p_moves(s).1))
    } else if k == "string"@ {
        Ok(
            (
                InfoModel { string: Some(text_or_empty(take_until(s, Stop::Never).0)), ..i },
                take_until(s, Stop::Never).1,
            ),
        )
    } else {
        Err(ProtocolError::UnexpectedToken)
    }
}

/// Reads `info` fields until the end of the line.
pub open spec fn info_loop(s: Seq<char>, i: InfoModel) -> Result<InfoModel, ProtocolError>
    decreases s.len(),
{
    match next_token(s).0 {
        None => Ok(i),
        Some(k) => match info_key(k, next_token(s).1, i) {
            Err(e) => Err(e),
            Ok((i2, r)) => if r.len() < s.len() {
                info_loop(r, i2)
            } else {
                Ok(i2)
            },
        },
    }
}

/// Reads the `spin` bounds until the end of the line.
pub open spec fn spin_loop(s: Seq<char>, d: Option<i64>, lo: Option<i64>, hi: Option<i64>) -> Result<
    (Option<i64>, Option<i64>, Option<i64>),
    ProtocolError,
>
    decreases s.len(),
{
    match next_token(s).0 {
        None => Ok((d, lo, hi)),
        Some(k) => if k == "default"@ || k == "min"@ || k == "max"@ {
            match p_signed(next_token(s).1, i64::MIN as int, i64::MAX as int) {
                Err(e) => Err(e),
                Ok((n, r)) => if r.len() < s.len() {
                    if k == "default"@ {
                        spin_loop(r, Some(n as i64), lo, hi)
                    } else if k == "min"@ {
                        spin_loop(r, d, Some(n as i64), hi)
                    } else {
                        spin_loop(r, d, lo, Some(n as i64))
                    }
                } else {
                    Ok((d, lo, hi))
                },
            }
        } else {
            Err(ProtocolError::UnexpectedToken)
        },
    }
}

/// Reads the `combo` default and variants until the end of the line.
pub open spec fn combo_loop(s: Seq<char>, d: Option<Seq<char>>, var: Seq<Seq<char>>) -> Result<
    (Option<Seq<char>>, Seq<Seq<char>>),
    ProtocolError,
>
    decreases s.len(),
{
    match next_token(s).0 {
        None => Ok((d, var)),
        Some(k) => if k == "default"@ || k == "var"@ {
            let (x, r) = take_until(next_token(s).1, Stop::DefaultOrVar);
            match x {
                None => Err(ProtocolError::UnexpectedEndOfLine),
                Some(x) => if r.len() < s.len() {
                    if k == "default"@ {
                        combo_loop(r, Some(x), var)
                    } else {
                        combo_loop(r, d, var.push(x))
                    }
                } else {
                    Ok((d, var))
                },
            }
        } else {
            Err(ProtocolError::UnexpectedToken)
        },
    }
}

/// A `spin` option from its default and bounds: all three are required,
/// and the default lies within the bounds.
pub open spec fn spin_result(
    r: Result<(Option<i64>, Option<i64>, Option<i64>), ProtocolError>,
) -> Result<OptionSchema, ProtocolError> {
    match r {
        Err(e) => Err(e),
        Ok((Some(d), Some(lo), Some(hi))) => if lo <= d <= hi {
            Ok(OptionSchema::Spin { default: d, min: lo, max: hi })
        } else {
            Err(ProtocolError::InvalidOptionValue)
        },
        Ok(_) => Err(ProtocolError::UnexpectedEndOfLine),
    }
}

/// A `combo` option from its default and variants: the default is
/// required, and there is at least one variant.
pub open spec fn combo_result(r: Result<(Option<Seq<char>>, Seq<Seq<char>>), ProtocolError>) -> Result<
    OptionSchema,
    ProtocolError,
> {
    match r {
        Err(e) => Err(e),
        Ok((Some(d), var)) => if var.len() > 0 {
            Ok(OptionSchema::Combo { default: d, var })
        } else {
            Err(ProtocolError::InvalidOptionValue)
        },
        Ok((None, _)) => Err(ProtocolError::UnexpectedEndOfLine),
    }
}

pub open spec fn option_result_view(r: Result<UciOption, ProtocolError>) -> Result<OptionSchema, ProtocolError> {
    match r {
        Ok(o) => Ok(o@),
        Err(e) => Err(e),
    }
}

pub open spec fn schema_spec(s: Seq<char>) -> Result<OptionSchema, ProtocolError> {
    match next_token(s).0 {
        None => Err(ProtocolError::UnexpectedEndOfLine),
        Some(t) => {
            let r = next_token(s).1;
            if t == "check"@ {
                match next_token(r).0 {
                    None => Err(ProtocolError::UnexpectedEndOfLine),
                    Some(d) => if d != "default"@ {
                        Err(ProtocolError::UnexpectedToken)
                    } else {
                        match next_token(next_token(r).1).0 {
                            None => Err(ProtocolError::UnexpectedEndOfLine),
                            Some(v) => if v == "true"@ {
                                Ok(OptionSchema::Check { default: true })
                            } else if v == "false"@ {
                                Ok(OptionSchema::Check { default: false })
                            } else {
                                Err(ProtocolError::UnexpectedToken)
                            },
                        }
                    },
                }
            } else if t == "spin"@ {
                spin_result(spin_loop(r, None, None, None))
            } else if t == "combo"@ {
                combo_result(combo_loop(r, None, Seq::empty()))
            } else if t == "button"@ {
                if next_token(r).0 is Some {
                    Err(ProtocolError::ExpectedEndOfLine)
                } else {
                    Ok(OptionSchema::Button)
                }
            } else if t == "string"@ {
                match next_token(r).0 {
                    None => Err(ProtocolError::UnexpectedEndOfLine),
                    Some(d) => if d == "default"@ {
                        Ok(
                            OptionSchema::Text {
                                default: text_or_empty(take_until(next_token(r).1, Stop::Never).0),
                            },
                        )
                    } else {
                        Err(ProtocolError::UnexpectedToken)
                    },
                }
            } else {
                Err(ProtocolError::UnexpectedToken)
            }
        },
    }
}

pub open spec fn option_spec(s: Seq<char>) -> Result<OutModel, ProtocolError> {
    match next_token(s).0 {
        None => Err(ProtocolError::UnexpectedEndOfLine),
        Some(t) => if t != "name"@ {
            Err(ProtocolError::UnexpectedToken)
        } else {
            let (n, r) = take_until(next_token(s).1, Stop::Type);
            match n {
                None => Err(ProtocolError::UnexpectedEndOfLine),
                Some(name) => match schema_spec(next_token(r).1) {
                    Ok(option) => Ok(OutModel::OptionDecl { name, option }),
                    Err(e) => Err(e),
                },
            }
        },
    }
}

/// What a line without line breaks and without separators at either end
/// reads as, when sent by an engine. Lines of any other kind read as `None`.
pub open spec fn out_spec(s: Seq<char>) -> Result<Option<OutModel>, ProtocolError> {
    match next_token(s).0 {
        None => Ok(None),
        Some(t) => {
            let r = next_token(s).1;
            if t == "id"@ {
                some_out(id_spec(r))
            } else if t == "uciok"@ {
                Ok(Some(OutModel::Uciok))
            } else if t == "readyok"@ {
                Ok(Some(OutModel::Readyok))
            } else if t == "bestmove"@ {
                some_out(bestmove_spec(r))
            } else if t == "info"@ {
                match info_loop(r, info_default()) {
                    Ok(i) => Ok(Some(OutModel::Info(i))),
                    Err(e) => Err(e),
                }
            } else if t == "option"@ {
                some_out(option_spec(r))
            } else {
                Ok(None)
            }
        },
    }
}

/// What a line sent by an engine reads as.
pub open spec fn decode_out(s: Seq<char>) -> Result<Option<OutModel>, ProtocolError> {
    if has_line_break(s) {
        Err(ProtocolError::UnexpectedLineBreak)
    } else {
        out_spec(trim(s))
    }
}

pub open spec fn out_result_view(r: Result<Option<UciOut>, ProtocolError>) -> Result<
    Option<OutModel>,
    ProtocolError,
> {
    match r {
        Ok(Some(v)) => Ok(Some(v@)),
        Ok(None) => Ok(None),
        Err(e) => Err(e),
    }
}

pub open spec fn out_model_result(r: Result<UciOut, ProtocolError>) -> Result<OutModel, ProtocolError> {
    match r {
        Ok(v) => Ok(v@),
        Err(e) => Err(e),
    }
}

} // verus!

verus! {

/// Binds the move `k` to `v` in a table of refutations.
fn put_refutation(m: &mut Vec<(String, Vec<String>)>, k: String, v: Vec<String>)
    ensures
        pairs_view(final(m)@) == assoc_put(pairs_view(old(m)@), k@, strings_view(v@)),
{
    let ghost pv = pairs_view(m@);
    let mut i: usize = 0;
    while i < m.len()
        invariant
            i <= m@.len(),
            pv == pairs_view(m@),
            m@ == old(m)@,
            key_index(pv, k@, 0) == key_index(pv, k@, i as int),
        decreases m@.len() - i,
    {
        if m[i].0 == k {
            assert(pv[i as int].0 == k@);
            m.set(i, (k, v));
            assert(pairs_view(m@) =~= pv.update(i as int, (k@, strings_view(v@))));
            return;
        }
        assert(pv[i as int].0 != k@);
        i = i + 1;
    }
    m.push((k, v));
    assert(pairs_view(m@) =~= pv.push((k@, strings_view(v@))));
}

/// Binds the processor `k` to `v` in a table of current lines.
fn put_currline(m: &mut Vec<(u32, Vec<String>)>, k: u32, v: Vec<String>)
    ensures
        lines_view(final(m)@) == assoc_put(lines_view(old(m)@), k, strings_view(v@)),
{
    let ghost lv = lines_view(m@);
    let mut i: usize = 0;
    while i < m.len()
        invariant
            i <= m@.len(),
            lv == lines_view(m@),
            m@ == old(m)@,
            key_index(lv, k, 0) == key_index(lv, k, i as int),
        decreases m@.len() - i,
    {
        if m[i].0 == k {
            assert(lv[i as int].0 == k);
            m.set(i, (k, v));
            assert(lines_view(m@) =~= lv.update(i as int, (k, strings_view(v@))));
            return;
        }
        assert(lv[i as int].0 != k);
        i = i + 1;
    }
    m.push((k, v));
    assert(lines_view(m@) =~= lv.push((k, strings_view(v@))));
}

/// The fields of an `info` line as they are read.
struct InfoFields {
    multipv: Option<u32>,
    depth: Option<u32>,
    seldepth: Option<u32>,
    time: Option<u64>,
    nodes: Option<u64>,
    score: Option<Score>,
    currmove: Option<String>,
    currmovenumber: Option<u32>,
    hashfull: Option<u32>,
    nps: Option<u64>,
    tbhits: Option<u64>,
    sbhits: Option<u64>,
    cpuload: Option<u32>,
    refutation: Vec<(String, Vec<String>)>,
    currline: Vec<(u32, Vec<String>)>,
    pv: Option<Vec<String>>,
    string: Option<String>,
}

impl View for InfoFields {
    type V = InfoModel;

    closed spec fn view(&self) -> InfoModel {
        InfoModel {
            multipv: self.multipv,
            depth: self.depth,
            seldepth: self.seldepth,
            time: self.time,
            nodes: self.nodes,
            score: self.score,
            currmove: opt_view(self.currmove),
            currmovenumber: self.currmovenumber,
            hashfull: self.hashfull,
            nps: self.nps,
            tbhits: self.tbhits,
            sbhits: self.sbhits,
            cpuload: self.cpuload,
            refutation: pairs_view(self.refutation@),
            currline: lines_view(self.currline@),
            pv: opt_strings_view(self.pv),
            string: opt_view(self.string),
        }
    }
}

impl Parser {
    fn parse_id(&mut self) -> (r: Result<UciOut, ProtocolError>)
        requires
            old(self).wf(),
        ensures
            out_model_result(r) == id_spec(old(self).rest()),
    {
        match self.next() {
            None => Err(ProtocolError::UnexpectedEndOfLine),
            Some(t) => {
                let is_name = self.is(t, "name");
                if !is_name && !self.is(t, "author") {
                    return Err(ProtocolError::UnexpectedToken);
                }
                match self.until(Stop::Never) {
                    None => Err(ProtocolError::UnexpectedEndOfLine),
                    Some(x) => if is_name {
                        Ok(UciOut::IdName(self.text(x)))
                    } else {
                        Ok(UciOut::IdAuthor(self.text(x)))
                    },
                }
            },
        }
    }

    /// Reads a move or `(none)` from an optional token.
    fn opt_move(&self, t: Option<(usize, usize)>) -> (r: Result<Option<String>, ProtocolError>)
        requires
            t matches Some(x) ==> self.token_ok(x),
        ensures
            match r {
                Ok(m) => opt_move(
                    match t {
                        Some(x) => Some(self.token_view(x)),
                        None => None,
                    },
                ) == Ok::<_, ProtocolError>(opt_view(m)),
                Err(e) => opt_move(
                    match t {
                        Some(x) => Some(self.token_view(x)),
                        None => None,
                    },
                ) == Err::<Option<Seq<char>>, _>(e),
            },
    {
        match t {
            None => Ok(None),
            Some(x) => if self.is(x, "(none)") {
                Ok(None)
            } else if self.is_move(x) {
                Ok(Some(self.text(x)))
            } else {
                Err(ProtocolError::InvalidMove)
            },
        }
    }

    fn parse_bestmove(&mut self) -> (r: Result<UciOut, ProtocolError>)
        requires
            old(self).wf(),
        ensures
            out_model_result(r) == bestmove_spec(old(self).rest()),
    {
        let t = self.next();
        let m = self.opt_move(t)?;
        let ghost r1 = self.rest();
        match self.next() {
            None => Ok(UciOut::Bestmove { m, ponder: None }),
            Some(k) => if self.is(k, "ponder") {
                let p = self.next();
                let ponder = self.opt_move(p)?;
                Ok(UciOut::Bestmove { m, ponder })
            } else {
                Err(ProtocolError::UnexpectedToken)
            },
        }
    }

    fn parse_score(&mut self) -> (r: Result<Score, ProtocolError>)
        requires
            old(self).wf(),
        ensures
            final(self).wf(),
            final(self).line == old(self).line,
            final(self).rest().len() <= old(self).rest().len(),
            match r {
                Ok(sc) => score_spec(old(self).rest()) == Ok::<_, ProtocolError>((sc, final(self).rest())),
                Err(e) => score_spec(old(self).rest()) == Err::<(Score, Seq<char>), _>(e),
            },
    {
        let eval = match self.next() {
            None => {
                return Err(ProtocolError::UnexpectedEndOfLine);
            },
            Some(t) => if self.is(t, "cp") {
                Eval::Cp(self.signed(i64::MIN, i64::MAX)?)
            } else if self.is(t, "mate") {
                Eval::Mate(self.signed(i32::MIN as i64, i32::MAX as i64)? as i32)
            } else {
                return Err(ProtocolError::UnexpectedToken);
            },
        };
        let mut sc = Score { eval, lowerbound: false, upperbound: false };
        let ghost s1 = self.rest();
        let ghost sc0 = sc;
        loop
            invariant
                self.wf(),
                self.line == old(self).line,
                self.rest().len() <= old(self).rest().len(),
                bounds_loop(s1, sc0) == bounds_loop(self.rest(), sc),
            ensures
                self.wf(),
                self.line == old(self).line,
                self.rest().len() <= old(self).rest().len(),
                bounds_loop(s1, sc0) == (sc, self.rest()),
            decreases self.rest().len(),
        {
            let ghost before = self.rest();
            match self.peek() {
                Some(t) => if self.is(t, "lowerbound") {
                    self.next();
                    sc.lowerbound = true;
                } else if self.is(t, "upperbound") {
                    self.next();
                    sc.upperbound = true;
                } else {
                    break;
                },
                None => {
                    break;
                },
            }
        }
        Ok(sc)
    }

    /// Reads the value of the `info` field `k` into `f`.
    fn info_param(&mut self, k: (usize, usize), f: &mut InfoFields) -> (r: Result<(), ProtocolError>)
        requires
            old(self).wf(),
            old(self).token_ok(k),
        ensures
            final(self).wf(),
            final(self).line == old(self).line,
            final(self).rest().len() <= old(self).rest().len(),
            info_key(old(self).token_view(k), old(self).rest(), old(f)@) == match r {
                Ok(_) => Ok::<_, ProtocolError>((final(f)@, final(self).rest())),
                Err(e) => Err(e),
            },
    {
        if self.is(k, "multipv") {
            match self.next() {
                None => {
                    return Err(ProtocolError::UnexpectedEndOfLine);
                },
                Some(t) => match parse_unsigned(&self.line, t.0, t.1, u32::MAX as u64) {
                    Some(n) => if n >= 1 {
                        f.multipv = Some(n as u32);
                    } else {
                        return Err(ProtocolError::InvalidInteger);
                    },
                    None => {
                        return Err(ProtocolError::InvalidInteger);
                    },
                },
            }
        } else if self.is(k, "depth") {
            f.depth = Some(self.unsigned(u32::MAX as u64)? as u32);
        } else if self.is(k, "seldepth") {
            f.seldepth = Some(self.unsigned(u32::MAX as u64)? as u32);
        } else if self.is(k, "currmovenumber") {
            f.currmovenumber = Some(self.unsigned(u32::MAX as u64)? as u32);
        } else if self.is(k, "hashfull") {
            f.hashfull = Some(self.unsigned(u32::MAX as u64)? as u32);
        } else if self.is(k, "cpuload") {
            f.cpuload = Some(self.unsigned(u32::MAX as u64)? as u32);
        } else if self.is(k, "time") {
            f.time = Some(self.parse_millis()?);
        } else if self.is(k, "nodes") {
            f.nodes = Some(self.unsigned(u64::MAX)?);
        } else if self.is(k, "nps") {
            f.nps = Some(self.unsigned(u64::MAX)?);
        } else if self.is(k, "tbhits") {
            f.tbhits = Some(self.unsigned(u64::MAX)?);
        } else if self.is(k, "sbhits") {
            f.sbhits = Some(self.unsigned(u64::MAX)?);
        } else if self.is(k, "score") {
            f.score = Some(self.parse_score()?);
        } else if self.is(k, "currmove") {
            f.currmove = Some(self.parse_move()?);
        } else if self.is(k, "refutation") {
            let m = self.parse_move()?;
            let ms = self.parse_moves();
            put_refutation(&mut f.refutation, m, ms);
        } else if self.is(k, "currline") {
            let n = self.unsigned(u32::MAX as u64)? as u32;
            let ms = self.parse_moves();
            put_currline(&mut f.currline, n, ms);
        } else if self.is(k, "pv") {
            f.pv = Some(self.parse_moves());
        } else if self.is(k, "string") {
            let x = self.until(Stop::Never);
            f.string = Some(self.text_or_empty(x));
        } else {
            return Err(ProtocolError::UnexpectedToken);
        }
        Ok(())
    }

    fn parse_info(&mut self) -> (r: Result<UciOut, ProtocolError>)
        requires
            old(self).wf(),
        ensures
            out_model_result(r) == match info_loop(old(self).rest(), info_default()) {
                Ok(i) => Ok::<_, ProtocolError>(OutModel::Info(i)),
                Err(e) => Err(e),
            },
    {
        let mut f = InfoFields {
            multipv: None,
            depth: None,
            seldepth: None,
            time: None,
            nodes: None,
            score: None,
            currmove: None,
            currmovenumber: None,
            hashfull: None,
            nps: None,
            tbhits: None,
            sbhits: None,
            cpuload: None,
            refutation: Vec::new(),
            currline: Vec::new(),
            pv: None,
            string: None,
        };
        assert(f@ == info_default()) by {
            assert(pairs_view(f.refutation@) =~= Seq::empty());
            assert(lines_view(f.currline@) =~= Seq::empty());
        }
        let ghost s0 = self.rest();
        loop
            invariant
                self.wf(),
                s0 == old(self).rest(),
                info_loop(s0, info_default()) == info_loop(self.rest(), f@),
            ensures
                info_loop(s0, info_default()) == Ok::<_, ProtocolError>(f@),
            decreases self.rest().len(),
        {
            let ghost before = self.rest();
            let t = match self.next() {
                None => {
                    assert(info_loop(before, f@) == Ok::<_, ProtocolError>(f@));
                    break;
                },
                Some(t) => t,
            };
            let ghost f0 = f@;
            match self.info_param(t, &mut f) {
                Err(e) => {
                    assert(info_loop(before, f0) == Err::<InfoModel, _>(e));
                    return Err(e);
                },
                Ok(_) => {
                    assert(info_loop(before, f0) == info_loop(self.rest(), f@));
                },
            }
        }
        Ok(
            UciOut::Info {
                multipv: f.multipv,
                depth: f.depth,
                seldepth: f.seldepth,
                time: f.time,
                nodes: f.nodes,
                score: f.score,
                currmove: f.currmove,
                currmovenumber: f.currmovenumber,
                hashfull: f.hashfull,
                nps: f.nps,
                tbhits: f.tbhits,
                sbhits: f.sbhits,
                cpuload: f.cpuload,
                refutation: f.refutation,
                currline: f.currline,
                pv: f.pv,
                string: f.string,
            },
        )
    }
}

} // verus!

verus! {

impl Parser {
    fn parse_spin(&mut self) -> (r: Result<UciOption, ProtocolError>)
        requires
            old(self).wf(),
        ensures
            option_result_view(r) == spin_result(spin_loop(old(self).rest(), None, None, None)),
    {
        let mut d: Option<i64> = None;
        let mut lo: Option<i64> = None;
        let mut hi: Option<i64> = None;
        let ghost s0 = self.rest();
        loop
            invariant
                self.wf(),
                s0 == old(self).rest(),
                spin_loop(s0, None, None, None) == spin_loop(self.rest(), d, lo, hi),
            ensures
                spin_loop(s0, None, None, None) == Ok::<_, ProtocolError>((d, lo, hi)),
            decreases self.rest().len(),
        {
            let ghost before = self.rest();
            let k = match self.next() {
                None => {
                    break;
                },
                Some(k) => k,
            };
            let is_default = self.is(k, "default");
            let is_min = self.is(k, "min");
            if !is_default && !is_min && !self.is(k, "max") {
                return Err(ProtocolError::UnexpectedToken);
            }
            let n = self.signed(i64::MIN, i64::MAX)?;
            if is_default {
                d = Some(n);
            } else if is_min {
                lo = Some(n);
            } else {
                hi = Some(n);
            }
        }
        match (d, lo, hi) {
            (Some(d), Some(lo), Some(hi)) => if lo <= d && d <= hi {
                Ok(UciOption::Spin { default: d, min: lo, max: hi })
            } else {
                Err(ProtocolError::InvalidOptionValue)
            },
            _ => Err(ProtocolError::UnexpectedEndOfLine),
        }
    }

    fn parse_combo(&mut self) -> (r: Result<UciOption, ProtocolError>)
        requires
            old(self).wf(),
        ensures
            option_result_view(r) == combo_result(combo_loop(old(self).rest(), None, Seq::empty())),
    {
        let mut d: Option<String> = None;
        let mut var: Vec<String> = Vec::new();
        let ghost s0 = self.rest();
        assert(strings_view(var@) =~= Seq::<Seq<char>>::empty());
        loop
            invariant
                self.wf(),
                s0 == old(self).rest(),
                combo_loop(s0, None, Seq::empty()) == combo_loop(
                    self.rest(),
                    opt_view(d),
                    strings_view(var@),
                ),
            ensures
                combo_loop(s0, None, Seq::empty()) == Ok::<_, ProtocolError>(
                    (opt_view(d), strings_view(var@)),
                ),
            decreases self.rest().len(),
        {
            let ghost before = self.rest();
            let k = match self.next() {
                None => {
                    break;
                },
                Some(k) => k,
            };
            let is_default = self.is(k, "default");
            if !is_default && !self.is(k, "var") {
                return Err(ProtocolError::UnexpectedToken);
            }
            let x = match self.until(Stop::DefaultOrVar) {
                None => {
                    return Err(ProtocolError::UnexpectedEndOfLine);
                },
                Some(x) => self.text(x),
            };
            if is_default {
                d = Some(x);
            } else {
                let ghost old_var = var@;
                var.push(x);
                assert(strings_view(var@) =~= strings_view(old_var).push(x@));
            }
        }
        match d {
            Some(d) => if var.len() > 0 {
                Ok(UciOption::Combo { default: d, var })
            } else {
                Err(ProtocolError::InvalidOptionValue)
            },
            None => Err(ProtocolError::UnexpectedEndOfLine),
        }
    }

    fn parse_schema(&mut self) -> (r: Result<UciOption, ProtocolError>)
        requires
            old(self).wf(),
        ensures
            match r {
                Ok(o) => schema_spec(old(self).rest()) == Ok::<_, ProtocolError>(o@),
                Err(e) => schema_spec(old(self).rest()) == Err::<OptionSchema, _>(e),
            },
    {
        let t = match self.next() {
            None => {
                return Err(ProtocolError::UnexpectedEndOfLine);
            },
            Some(t) => t,
        };
        if self.is(t, "check") {
            match self.next() {
                None => Err(ProtocolError::UnexpectedEndOfLine),
                Some(d) => if !self.is(d, "default") {
                    Err(ProtocolError::UnexpectedToken)
                } else {
                    match self.next() {
                        None => Err(ProtocolError::UnexpectedEndOfLine),
                        Some(v) => if self.is(v, "true") {
                            Ok(UciOption::Check { default: true })
                        } else if self.is(v, "false") {
                            Ok(UciOption::Check { default: false })
                        } else {
                            Err(ProtocolError::UnexpectedToken)
                        },
                    }
                },
            }
        } else if self.is(t, "spin") {
            self.parse_spin()
        } else if self.is(t, "combo") {
            self.parse_combo()
        } else if self.is(t, "button") {
            self.end()?;
            Ok(UciOption::Button)
        } else if self.is(t, "string") {
            match self.next() {
                None => Err(ProtocolError::UnexpectedEndOfLine),
                Some(d) => if self.is(d, "default") {
                    let x = self.until(Stop::Never);
                    Ok(UciOption::String { default: self.text_or_empty(x) })
                } else {
                    Err(ProtocolError::UnexpectedToken)
                },
            }
        } else {
            Err(ProtocolError::UnexpectedToken)
        }
    }

    fn parse_option(&mut self) -> (r: Result<UciOut, ProtocolError>)
        requires
            old(self).wf(),
        ensures
            out_model_result(r) == option_spec(old(self).rest()),
    {
        match self.next() {
            None => Err(ProtocolError::UnexpectedEndOfLine),
            Some(t) => {
                if !self.is(t, "name") {
                    return Err(ProtocolError::UnexpectedToken);
                }
                let name = match self.until(Stop::Type) {
                    None => {
                        return Err(ProtocolError::UnexpectedEndOfLine);
                    },
                    Some(n) => UciOptionName(self.text(n)),
                };
                self.next();
                let option = self.parse_schema()?;
                Ok(UciOut::Option { name, option })
            },
        }
    }

    fn parse_out(&mut self) -> (r: Result<Option<UciOut>, ProtocolError>)
        requires
            old(self).wf(),
        ensures
            out_result_view(r) == out_spec(old(self).rest()),
    {
        let t = match self.next() {
            None => {
                return Ok(None);
            },
            Some(t) => t,
        };
        if self.is(t, "id") {
            Ok(Some(self.parse_id()?))
        } else if self.is(t, "uciok") {
            Ok(Some(UciOut::Uciok))
        } else if self.is(t, "readyok") {
            Ok(Some(UciOut::Readyok))
        } else if self.is(t, "bestmove") {
            Ok(Some(self.parse_bestmove()?))
        } else if self.is(t, "info") {
            Ok(Some(self.parse_info()?))
        } else if self.is(t, "option") {
            Ok(Some(self.parse_option()?))
        } else {
            Ok(None)
        }
    }
}

impl UciOut {
    /// Reads a line sent by an engine. Lines of no known kind read as
    /// `None`.
    pub fn from_line(s: &str) -> (r: Result<Option<UciOut>, ProtocolError>)
        ensures
            out_result_view(r) == decode_out(s@),
    {
        let mut p = Parser::new(s)?;
        p.parse_out()
    }
}

} // verus!

verus! {

pub open spec fn padded(s: Seq<char>) -> Seq<char> {
    seq![' ', '\t'] + s + seq!['\t', ' ']
}

proof fn lemma_padded(s: Seq<char>)
    ensures
        trim(padded(s)) == trim(s),
        has_line_break(padded(s)) == has_line_break(s),
{
    crate::text::lemma_trim_padded(s, seq![' ', '\t'], seq!['\t', ' ']);
    let p = padded(s);
    if has_line_break(s) {
        let i = choose|i: int| 0 <= i < s.len() && (s[i] == '\r' || s[i] == '\n');
        assert(p[i + 2] == s[i]);
    }
    if has_line_break(p) {
        let i = choose|i: int| 0 <= i < p.len() && (p[i] == '\r' || p[i] == '\n');
        assert(2 <= i < s.len() + 2);
        assert(p[i] == s[i - 2]);
    }
}

/// Separators around a line change nothing about what it reads as, in
/// either direction.
pub proof fn law_whitespace_insensitive(s: Seq<char>)
    ensures
        decode_in(padded(s)) == decode_in(s),
        decode_out(padded(s)) == decode_out(s),
{
    lemma_padded(s);
}

/// A line that holds a carriage return or a line feed is refused, in either
/// direction.
pub proof fn law_line_break_rejected(s: Seq<char>)
    requires
        exists|i: int| 0 <= i < s.len() && (s[i] == '\r' || s[i] == '\n'),
    ensures
        decode_in(s) == Err::<Option<InModel>, _>(ProtocolError::UnexpectedLineBreak),
        decode_out(s) == Err::<Option<OutModel>, _>(ProtocolError::UnexpectedLineBreak),
{
}

} // verus!
