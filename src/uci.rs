use vstd::prelude::*;

use crate::number::{in_range, parse_signed, signed_text};
use crate::text::{chars_of, range_is};

verus! {

/// What goes wrong when a line of the protocol is read.
#[derive(Clone, Copy, PartialEq, Eq, Structural, Debug)]
pub enum ProtocolError {
    UnexpectedToken,
    UnexpectedLineBreak,
    ExpectedEndOfLine,
    UnexpectedEndOfLine,
    InvalidFen,
    InvalidMove,
    InvalidInteger,
    InvalidOptionValue,
}

impl ProtocolError {
    /// A short description of the error.
    pub fn message(&self) -> String {
        match self {
            ProtocolError::UnexpectedToken => String::from_str("unexpected token"),
            ProtocolError::UnexpectedLineBreak => String::from_str(
                "unexpected line break in uci command",
            ),
            ProtocolError::ExpectedEndOfLine => String::from_str("expected end of line"),
            ProtocolError::UnexpectedEndOfLine => String::from_str("unexpected end of line"),
            ProtocolError::InvalidFen => String::from_str("invalid fen"),
            ProtocolError::InvalidMove => String::from_str("invalid move"),
            ProtocolError::InvalidInteger => String::from_str("invalid integer"),
            ProtocolError::InvalidOptionValue => String::from_str("invalid option value"),
        }
    }
}

pub open spec fn ascii_lower(c: char) -> char {
    if 'A' <= c <= 'Z' {
        ((c as u32) + 32) as char
    } else {
        c
    }
}

/// Two option names are the same name when they agree up to the case of
/// ASCII letters.
pub open spec fn same_name(a: Seq<char>, b: Seq<char>) -> bool {
    a.len() == b.len() && forall|i: int| 0 <= i < a.len() ==> ascii_lower(#[trigger] a[i]) == ascii_lower(b[i])
}

/// A name under which every ASCII letter is lower case, followed by a
/// sentinel that no character of a name can equal.
pub open spec fn folded_key(a: Seq<char>) -> Seq<u32> {
    Seq::new(a.len(), |i: int| ascii_lower(a[i]) as u32) + seq![0x110000u32]
}

fn lower(c: char) -> (r: char)
    ensures
        r == ascii_lower(c),
{
    if 'A' <= c && c <= 'Z' {
        ((c as u8) + 32) as char
    } else {
        c
    }
}

/// The name of an engine option. Names compare without regard to the case
/// of ASCII letters, and keep their spelling for display.
#[derive(Clone, Debug)]
pub struct UciOptionName(pub String);

impl View for UciOptionName {
    type V = Seq<char>;

    open spec fn view(&self) -> Seq<char> {
        self.0@
    }
}

impl PartialEq for UciOptionName {
    fn eq(&self, other: &UciOptionName) -> (r: bool)
        ensures
            r == same_name(self@, other@),
    {
        names_equal(self.0.as_str(), other.0.as_str())
    }
}

impl vstd::std_specs::cmp::PartialEqSpecImpl for UciOptionName {
    open spec fn obeys_eq_spec() -> bool {
        true
    }

    open spec fn eq_spec(&self, other: &UciOptionName) -> bool {
        same_name(self@, other@)
    }
}

impl Eq for UciOptionName {

}

/// Compares two names without regard to the case of ASCII letters.
pub fn names_equal(a: &str, b: &str) -> (r: bool)
    ensures
        r == same_name(a@, b@),
{
    let x = chars_of(a);
    let y = chars_of(b);
    if x.len() != y.len() {
        return false;
    }
    let mut i: usize = 0;
    while i < x.len()
        invariant
            x@ == a@,
            y@ == b@,
            x@.len() == y@.len(),
            i <= x@.len(),
            forall|j: int| 0 <= j < i ==> ascii_lower(#[trigger] x@[j]) == ascii_lower(y@[j]),
        decreases x@.len() - i,
    {
        if lower(x[i]) != lower(y[i]) {
            return false;
        }
        i = i + 1;
    }
    true
}

/// The names that a remote client may set.
pub open spec fn safe_names() -> Seq<Seq<char>> {
    seq![
        "Hash"@,
        "Threads"@,
        "Ponder"@,
        "MultiPV"@,
        "UCI_ShowCurrLine"@,
        "UCI_ShowRefutations"@,
        "UCI_LimitStrength"@,
        "UCI_Elo"@,
        "UCI_AnalyseMode"@,
        "UCI_Opponent"@,
        "UCI_Chess960"@,
        "Analysis Contempt"@,
    ]
}

pub open spec fn is_safe_name(n: Seq<char>) -> bool {
    exists|i: int| 0 <= i < safe_names().len() && same_name(n, #[trigger] safe_names()[i])
}

impl UciOptionName {
    /// Whether this option is on the allowlist of options that are harmless
    /// to set remotely.
    pub fn is_safe(&self) -> (r: bool)
        ensures
            r == is_safe_name(self@),
    {
        let n = self.0.as_str();
        let names = [
            "Hash",
            "Threads",
            "Ponder",
            "MultiPV",
            "UCI_ShowCurrLine",
            "UCI_ShowRefutations",
            "UCI_LimitStrength",
            "UCI_Elo",
            "UCI_AnalyseMode",
            "UCI_Opponent",
            "UCI_Chess960",
            "Analysis Contempt",
        ];
        assert(names@.map_values(|s: &str| s@) =~= safe_names());
        let mut i: usize = 0;
        while i < 12
            invariant
                i <= 12,
                names@.len() == 12,
                names@.map_values(|s: &str| s@) == safe_names(),
                n@ == self@,
                forall|j: int| 0 <= j < i ==> !same_name(n@, #[trigger] safe_names()[j]),
            decreases 12 - i,
        {
            assert(names@.map_values(|s: &str| s@)[i as int] == names@[i as int]@);
            if names_equal(n, names[i]) {
                return true;
            }
            i = i + 1;
        }
        false
    }

    /// A copy of this name, in the same spelling.
    pub fn duplicate(&self) -> (r: UciOptionName)
        ensures
            r@ == self@,
    {
        UciOptionName(self.0.clone())
    }

    /// Whether this is the given name, up to the case of ASCII letters.
    pub fn is(&self, name: &str) -> (r: bool)
        ensures
            r == same_name(self@, name@),
    {
        names_equal(self.0.as_str(), name)
    }

    /// The key under which equal names coincide: each character with ASCII
    /// letters lowered, then a sentinel.
    pub fn folded(&self) -> (r: Vec<u32>)
        ensures
            r@ == folded_key(self@),
    {
        let x = chars_of(self.0.as_str());
        let mut r: Vec<u32> = Vec::new();
        let mut i: usize = 0;
        while i < x.len()
            invariant
                x@ == self@,
                i <= x@.len(),
                r@ =~= Seq::new(i as nat, |k: int| ascii_lower(x@[k]) as u32),
            decreases x@.len() - i,
        {
            r.push(lower(x[i]) as u32);
            i = i + 1;
        }
        r.push(0x110000u32);
        r
    }
}

/// Names that compare equal have the same folded key, and only those.
pub proof fn lemma_same_name_folded(a: Seq<char>, b: Seq<char>)
    ensures
        same_name(a, b) <==> folded_key(a) == folded_key(b),
{
    let fa = folded_key(a);
    let fb = folded_key(b);
    if same_name(a, b) {
        assert(fa =~= fb);
    }
    if fa == fb {
        assert(fa.len() == a.len() + 1);
        assert forall|i: int| 0 <= i < a.len() implies ascii_lower(#[trigger] a[i]) == ascii_lower(
            b[i],
        ) by {
            assert(fa[i] == fb[i]);
            assert(ascii_lower(a[i]) as u32 == ascii_lower(b[i]) as u32);
        }
    }
}

/// Name equality is an equivalence.
pub proof fn lemma_same_name_equivalence(a: Seq<char>, b: Seq<char>, c: Seq<char>)
    ensures
        same_name(a, a),
        same_name(a, b) ==> same_name(b, a),
        same_name(a, b) && same_name(b, c) ==> same_name(a, c),
{
    lemma_same_name_folded(a, b);
    lemma_same_name_folded(b, c);
    lemma_same_name_folded(a, c);
    lemma_same_name_folded(b, a);
    lemma_same_name_folded(a, a);
}

} // verus!

verus! {

pub open spec fn strings_view(v: Seq<String>) -> Seq<Seq<char>> {
    v.map_values(|s: String| s@)
}

pub open spec fn opt_view(o: Option<String>) -> Option<Seq<char>> {
    match o {
        Some(s) => Some(s@),
        None => None,
    }
}

/// A copy of a list of strings.
pub fn copy_strings(v: &Vec<String>) -> (r: Vec<String>)
    ensures
        strings_view(r@) == strings_view(v@),
{
    let mut r: Vec<String> = Vec::new();
    let mut i: usize = 0;
    while i < v.len()
        invariant
            i <= v@.len(),
            strings_view(r@) =~= strings_view(v@.subrange(0, i as int)),
        decreases v@.len() - i,
    {
        let c = v[i].clone();
        let ghost old_r = r@;
        r.push(c);
        assert(strings_view(r@) =~= strings_view(old_r).push(c@));
        assert(strings_view(v@.subrange(0, i + 1)) =~= strings_view(v@.subrange(0, i as int)).push(
            v@[i as int]@,
        ));
        i = i + 1;
    }
    assert(v@.subrange(0, v@.len() as int) =~= v@);
    r
}

/// The declared type of an engine option, with its default and bounds.
#[derive(Debug, Clone, PartialEq, Eq)]
pub enum UciOption {
    Check { default: bool },
    Spin { default: i64, min: i64, max: i64 },
    Combo { default: String, var: Vec<String> },
    Button,
    String { default: String },
}

/// The mathematical content of a [`UciOption`].
pub enum OptionSchema {
    Check { default: bool },
    Spin { default: i64, min: i64, max: i64 },
    Combo { default: Seq<char>, var: Seq<Seq<char>> },
    Button,
    Text { default: Seq<char> },
}

impl View for UciOption {
    type V = OptionSchema;

    open spec fn view(&self) -> OptionSchema {
        match self {
            UciOption::Check { default } => OptionSchema::Check { default: *default },
            UciOption::Spin { default, min, max } => OptionSchema::Spin {
                default: *default,
                min: *min,
                max: *max,
            },
            UciOption::Combo { default, var } => OptionSchema::Combo {
                default: default@,
                var: strings_view(var@),
            },
            UciOption::Button => OptionSchema::Button,
            UciOption::String { default } => OptionSchema::Text { default: default@ },
        }
    }
}

/// A value for an option, checked against its declared type.
#[derive(Debug, Clone, PartialEq, Eq)]
pub enum UciOptionValue {
    Check(bool),
    Spin(i64),
    Combo(String),
    Button,
    String(String),
}

pub enum OptionValueModel {
    Check(bool),
    Spin(i64),
    Combo(Seq<char>),
    Button,
    Text(Seq<char>),
}

impl View for UciOptionValue {
    type V = OptionValueModel;

    open spec fn view(&self) -> OptionValueModel {
        match self {
            UciOptionValue::Check(b) => OptionValueModel::Check(*b),
            UciOptionValue::Spin(n) => OptionValueModel::Spin(*n),
            UciOptionValue::Combo(s) => OptionValueModel::Combo(s@),
            UciOptionValue::Button => OptionValueModel::Button,
            UciOptionValue::String(s) => OptionValueModel::Text(s@),
        }
    }
}

/// What checking `value` against an option of type `o` gives.
pub open spec fn validate_spec(o: OptionSchema, value: Option<Seq<char>>) -> Result<
    OptionValueModel,
    ProtocolError,
> {
    match o {
        OptionSchema::Check { .. } => match value {
            Some(v) => if v == "true"@ {
                Ok(OptionValueModel::Check(true))
            } else if v == "false"@ {
                Ok(OptionValueModel::Check(false))
            } else {
                Err(ProtocolError::InvalidOptionValue)
            },
            None => Err(ProtocolError::InvalidOptionValue),
        },
        OptionSchema::Spin { min, max, .. } => match value {
            None => Err(ProtocolError::InvalidOptionValue),
            Some(v) => match in_range(signed_text(v), i64::MIN as int, i64::MAX as int) {
                None => Err(ProtocolError::InvalidInteger),
                Some(n) => if n < min || max < n {
                    Err(ProtocolError::InvalidOptionValue)
                } else {
                    Ok(OptionValueModel::Spin(n as i64))
                },
            },
        },
        OptionSchema::Combo { var, .. } => match value {
            None => Err(ProtocolError::InvalidOptionValue),
            Some(v) => if var.contains(v) {
                Ok(OptionValueModel::Combo(v))
            } else {
                Err(ProtocolError::InvalidOptionValue)
            },
        },
        OptionSchema::Button => match value {
            Some(_) => Err(ProtocolError::InvalidOptionValue),
            None => Ok(OptionValueModel::Button),
        },
        OptionSchema::Text { .. } => match value {
            Some(v) => Ok(OptionValueModel::Text(v)),
            None => Err(ProtocolError::InvalidOptionValue),
        },
    }
}

pub open spec fn value_result_view(r: Result<UciOptionValue, ProtocolError>) -> Result<
    OptionValueModel,
    ProtocolError,
> {
    match r {
        Ok(v) => Ok(v@),
        Err(e) => Err(e),
    }
}

/// An option whose integer bounds are in order.
pub open spec fn schema_wf(o: OptionSchema) -> bool {
    o matches OptionSchema::Spin { default, min, max } ==> min <= default <= max
}

impl UciOption {
    /// Checks a requested value against this option's type.
    #[verifier::loop_isolation(false)]
    pub fn validate(&self, value: Option<String>) -> (r: Result<UciOptionValue, ProtocolError>)
        ensures
            value_result_view(r) == validate_spec(self@, opt_view(value)),
    {
        match self {
            UciOption::Check { .. } => match value {
                Some(v) => {
                    let cs = chars_of(v.as_str());
                    assert(cs@.subrange(0, cs@.len() as int) =~= v@);
                    if range_is(&cs, 0, cs.len(), "true") {
                        Ok(UciOptionValue::Check(true))
                    } else if range_is(&cs, 0, cs.len(), "false") {
                        Ok(UciOptionValue::Check(false))
                    } else {
                        Err(ProtocolError::InvalidOptionValue)
                    }
                },
                None => Err(ProtocolError::InvalidOptionValue),
            },
            UciOption::Spin { min, max, .. } => match value {
                None => Err(ProtocolError::InvalidOptionValue),
                Some(v) => {
                    let cs = chars_of(v.as_str());
                    assert(cs@.subrange(0, cs@.len() as int) =~= v@);
                    match parse_signed(&cs, 0, cs.len(), i64::MIN, i64::MAX) {
                        None => Err(ProtocolError::InvalidInteger),
                        Some(n) => if n < *min || *max < n {
                            Err(ProtocolError::InvalidOptionValue)
                        } else {
                            Ok(UciOptionValue::Spin(n))
                        },
                    }
                },
            },
            UciOption::Combo { var, .. } => match value {
                None => Err(ProtocolError::InvalidOptionValue),
                Some(v) => {
                    let mut i: usize = 0;
                    while i < var.len()
                        invariant
                            i <= var@.len(),
                            forall|j: int| 0 <= j < i ==> var@[j]@ != v@,
                        decreases var@.len() - i,
                    {
                        if var[i] == v {
                            assert(var@[i as int]@ == v@);
                            assert(strings_view(var@)[i as int] == v@);
                            assert(strings_view(var@).contains(v@));
                            return Ok(UciOptionValue::Combo(v));
                        }
                        i = i + 1;
                    }
                    assert(!strings_view(var@).contains(v@)) by {
                        if strings_view(var@).contains(v@) {
                            let k = choose|k: int|
                                0 <= k < strings_view(var@).len() && strings_view(var@)[k] == v@;
                            assert(var@[k]@ == v@);
                        }
                    }
                    Err(ProtocolError::InvalidOptionValue)
                },
            },
            UciOption::Button => match value {
                Some(_) => Err(ProtocolError::InvalidOptionValue),
                None => Ok(UciOptionValue::Button),
            },
            UciOption::String { .. } => match value {
                Some(v) => Ok(UciOptionValue::String(v)),
                None => Err(ProtocolError::InvalidOptionValue),
            },
        }
    }

    /// A copy of this declaration.
    pub fn duplicate(&self) -> (r: UciOption)
        ensures
            r@ == self@,
    {
        match self {
            UciOption::Check { default } => UciOption::Check { default: *default },
            UciOption::Spin { default, min, max } => UciOption::Spin {
                default: *default,
                min: *min,
                max: *max,
            },
            UciOption::Combo { default, var } => UciOption::Combo {
                default: default.clone(),
                var: copy_strings(var),
            },
            UciOption::Button => UciOption::Button,
            UciOption::String { default } => UciOption::String { default: default.clone() },
        }
    }

    /// The upper bound of an integer option.
    pub fn max(&self) -> (r: Option<i64>)
        ensures
            r == (match self@ {
                OptionSchema::Spin { max, .. } => Some(max),
                _ => None,
            }),
    {
        match self {
            UciOption::Spin { max, .. } => Some(*max),
            _ => None,
        }
    }

    /// The permitted values of a combo option.
    pub fn var(&self) -> (r: Option<&Vec<String>>)
        ensures
            match self@ {
                OptionSchema::Combo { var, .. } => r is Some && strings_view(r->0@) == var,
                _ => r is None,
            },
    {
        match self {
            UciOption::Combo { var, .. } => Some(var),
            _ => None,
        }
    }

    /// Lowers the upper bound of an integer option to `limit`, keeping the
    /// default within the bounds. Other options are left as they are.
    pub fn limit_max(&mut self, limit: i64)
        requires
            old(self)@ matches OptionSchema::Spin { min, max, .. } ==> min <= max,
        ensures
            match old(self)@ {
                OptionSchema::Spin { default, min, max } => {
                    let m = if limit < min {
                        min
                    } else if limit > max {
                        max
                    } else {
                        limit
                    };
                    final(self)@ == OptionSchema::Spin {
                        default: if default < min {
                            min
                        } else if default > m {
                            m
                        } else {
                            default
                        },
                        min,
                        max: m,
                    }
                },
                _ => final(self)@ == old(self)@,
            },
            schema_wf(old(self)@) ==> schema_wf(final(self)@),
    {
        match self {
            UciOption::Spin { default, min, max } => {
                let m = if limit < *min {
                    *min
                } else if limit > *max {
                    *max
                } else {
                    limit
                };
                *max = m;
                let d = if *default < *min {
                    *min
                } else if *default > m {
                    m
                } else {
                    *default
                };
                *default = d;
            },
            _ => {},
        }
    }
}

} // verus!

verus! {

pub open spec fn opt_strings_view(o: Option<Vec<String>>) -> Option<Seq<Seq<char>>> {
    match o {
        Some(v) => Some(strings_view(v@)),
        None => None,
    }
}

/// A command sent to the engine. Durations are in milliseconds.
#[derive(Debug, Clone, PartialEq, Eq)]
pub enum UciIn {
    Uci,
    Isready,
    Setoption { name: UciOptionName, value: Option<String> },
    Ucinewgame,
    Position { fen: Option<String>, moves: Vec<String> },
    Go {
        searchmoves: Option<Vec<String>>,
        ponder: bool,
        wtime: Option<u64>,
        btime: Option<u64>,
        winc: Option<u64>,
        binc: Option<u64>,
        movestogo: Option<u32>,
        depth: Option<u32>,
        nodes: Option<u64>,
        mate: Option<u32>,
        movetime: Option<u64>,
        infinite: bool,
    },
    Stop,
    Ponderhit,
}

/// The parameters of a `go` command.
pub struct GoModel {
    pub searchmoves: Option<Seq<Seq<char>>>,
    pub ponder: bool,
    pub wtime: Option<u64>,
    pub btime: Option<u64>,
    pub winc: Option<u64>,
    pub binc: Option<u64>,
    pub movestogo: Option<u32>,
    pub depth: Option<u32>,
    pub nodes: Option<u64>,
    pub mate: Option<u32>,
    pub movetime: Option<u64>,
    pub infinite: bool,
}

/// The mathematical content of a [`UciIn`].
pub enum InModel {
    Uci,
    Isready,
    Setoption { name: Seq<char>, value: Option<Seq<char>> },
    Ucinewgame,
    Position { fen: Option<Seq<char>>, moves: Seq<Seq<char>> },
    Go(GoModel),
    Stop,
    Ponderhit,
}

impl View for UciIn {
    type V = InModel;

    open spec fn view(&self) -> InModel {
        match self {
            UciIn::Uci => InModel::Uci,
            UciIn::Isready => InModel::Isready,
            UciIn::Setoption { name, value } => InModel::Setoption {
                name: name@,
                value: opt_view(*value),
            },
            UciIn::Ucinewgame => InModel::Ucinewgame,
            UciIn::Position { fen, moves } => InModel::Position {
                fen: opt_view(*fen),
                moves: strings_view(moves@),
            },
            UciIn::Go {
                searchmoves,
                ponder,
                wtime,
                btime,
                winc,
                binc,
                movestogo,
                depth,
                nodes,
                mate,
                movetime,
                infinite,
            } => InModel::Go(
                GoModel {
                    searchmoves: opt_strings_view(*searchmoves),
                    ponder: *ponder,
                    wtime: *wtime,
                    btime: *btime,
                    winc: *winc,
                    binc: *binc,
                    movestogo: *movestogo,
                    depth: *depth,
                    nodes: *nodes,
                    mate: *mate,
                    movetime: *movetime,
                    infinite: *infinite,
                },
            ),
            UciIn::Stop => InModel::Stop,
            UciIn::Ponderhit => InModel::Ponderhit,
        }
    }
}

pub open spec fn is_file(c: char) -> bool {
    'a' <= c <= 'h'
}

pub open spec fn is_rank(c: char) -> bool {
    '1' <= c <= '8'
}

pub open spec fn is_role(c: char) -> bool {
    c == 'p' || c == 'n' || c == 'b' || c == 'r' || c == 'q' || c == 'k' || c == 'P' || c == 'N'
        || c == 'B' || c == 'R' || c == 'Q' || c == 'K'
}

/// A move in UCI notation: `0000`; a drop such as `Q@f7`; or two squares
/// and an optional promotion role, such as `e2e4` or `h2h1q`.
pub open spec fn is_uci_move(t: Seq<char>) -> bool {
    &&& t.len() == 4 || t.len() == 5
    &&& {
        ||| t == seq!['0', '0', '0', '0']
        ||| is_file(t[2]) && is_rank(t[3]) && if t[1] == '@' {
            is_role(t[0]) && (t.len() == 5 ==> (t[4] as u32) < 128)
        } else {
            is_file(t[0]) && is_rank(t[1]) && (t.len() == 5 ==> is_role(t[4]))
        }
    }
}

/// Whether a position in Forsyth-Edwards Notation is well formed.
pub uninterp spec fn fen_is_valid(text: Seq<char>) -> bool;

/// Relies on shakmaty's `Uci::from_ascii`, which accepts a UCI move: four or
/// five bytes, `0000`, a role letter and `@` before a square, or two squares
/// and an optional role letter.
#[verifier::external_body]
pub fn move_is_valid(token: &str) -> (r: bool)
    ensures
        r == is_uci_move(token@),
{
    shakmaty::uci::Uci::from_ascii(token.as_bytes()).is_ok()
}

/// Relies on shakmaty's `Fen::from_ascii`, whose verdict depends on the text
/// alone.
#[verifier::external_body]
pub fn fen_parses(text: &str) -> (r: bool)
    ensures
        r == fen_is_valid(text@),
{
    shakmaty::fen::Fen::from_ascii(text.as_bytes()).is_ok()
}

} // verus!

verus! {

/// An evaluation: centipawns, or mate in a number of moves.
#[derive(Debug, Clone, Copy, PartialEq, Eq, Structural)]
pub enum Eval {
    Cp(i64),
    Mate(i32),
}

/// An evaluation with the flags that mark it as a bound.
#[derive(Debug, Clone, Copy, PartialEq, Eq, Structural)]
pub struct Score {
    pub eval: Eval,
    pub lowerbound: bool,
    pub upperbound: bool,
}

pub open spec fn pairs_view(v: Seq<(String, Vec<String>)>) -> Seq<(Seq<char>, Seq<Seq<char>>)> {
    v.map_values(|p: (String, Vec<String>)| (p.0@, strings_view(p.1@)))
}

pub open spec fn lines_view(v: Seq<(u32, Vec<String>)>) -> Seq<(u32, Seq<Seq<char>>)> {
    v.map_values(|p: (u32, Vec<String>)| (p.0, strings_view(p.1@)))
}

/// A line sent by the engine. Durations are in milliseconds. The refutation
/// and current-line tables hold each key once.
#[derive(Debug, Clone, PartialEq, Eq)]
pub enum UciOut {
    IdName(String),
    IdAuthor(String),
    Uciok,
    Readyok,
    Bestmove { m: Option<String>, ponder: Option<String> },
    Info {
        multipv: Option<u32>,
        depth: Option<u32>,
        seldepth: Option<u32>,
        time: Option<u64>,
        nodes: Option<u64>,
        score: Option<Score>,
        currmove: Option<String>,
        currmovenumber: Option<u32>,
        hashfull: Option<u32>,
        nps: Option<u64>,
        tbhits: Option<u64>,
        sbhits: Option<u64>,
        cpuload: Option<u32>,
        refutation: Vec<(String, Vec<String>)>,
        currline: Vec<(u32, Vec<String>)>,
        pv: Option<Vec<String>>,
        string: Option<String>,
    },
    Option { name: UciOptionName, option: UciOption },
}

/// The content of an `info` line.
pub struct InfoModel {
    pub multipv: Option<u32>,
    pub depth: Option<u32>,
    pub seldepth: Option<u32>,
    pub time: Option<u64>,
    pub nodes: Option<u64>,
    pub score: Option<Score>,
    pub currmove: Option<Seq<char>>,
    pub currmovenumber: Option<u32>,
    pub hashfull: Option<u32>,
    pub nps: Option<u64>,
    pub tbhits: Option<u64>,
    pub sbhits: Option<u64>,
    pub cpuload: Option<u32>,
    pub refutation: Seq<(Seq<char>, Seq<Seq<char>>)>,
    pub currline: Seq<(u32, Seq<Seq<char>>)>,
    pub pv: Option<Seq<Seq<char>>>,
    pub string: Option<Seq<char>>,
}

/// The mathematical content of a [`UciOut`].
pub enum OutModel {
    IdName(Seq<char>),
    IdAuthor(Seq<char>),
    Uciok,
    Readyok,
    Bestmove { m: Option<Seq<char>>, ponder: Option<Seq<char>> },
    Info(InfoModel),
    OptionDecl { name: Seq<char>, option: OptionSchema },
}

impl View for UciOut {
    type V = OutModel;

    open spec fn view(&self) -> OutModel {
        match self {
            UciOut::IdName(s) => OutModel::IdName(s@),
            UciOut::IdAuthor(s) => OutModel::IdAuthor(s@),
            UciOut::Uciok => OutModel::Uciok,
            UciOut::Readyok => OutModel::Readyok,
            UciOut::Bestmove { m, ponder } => OutModel::Bestmove {
                m: opt_view(*m),
                ponder: opt_view(*ponder),
            },
            UciOut::Info {
                multipv,
                depth,
                seldepth,
                time,
                nodes,
                score,
                currmove,
                currmovenumber,
                hashfull,
                nps,
                tbhits,
                sbhits,
                cpuload,
                refutation,
                currline,
                pv,
                string,
            } => OutModel::Info(
                InfoModel {
                    multipv: *multipv,
                    depth: *depth,
                    seldepth: *seldepth,
                    time: *time,
                    nodes: *nodes,
                    score: *score,
                    currmove: opt_view(*currmove),
                    currmovenumber: *currmovenumber,
                    hashfull: *hashfull,
                    nps: *nps,
                    tbhits: *tbhits,
                    sbhits: *sbhits,
                    cpuload: *cpuload,
                    refutation: pairs_view(refutation@),
                    currline: lines_view(currline@),
                    pv: opt_strings_view(*pv),
                    string: opt_view(*string),
                },
            ),
            UciOut::Option { name, option } => OutModel::OptionDecl { name: name@, option: option@ },
        }
    }
}

/// The first index at or after `i` whose key is `k`, or the length.
pub open spec fn key_index<K, V>(m: Seq<(K, V)>, k: K, i: int) -> int
    decreases m.len() - i,
{
    if i < 0 || i >= m.len() {
        m.len() as int
    } else if m[i].0 == k {
        i
    } else {
        key_index(m, k, i + 1)
    }
}

/// The table with `k` bound to `v`: in place when `k` is there, else at the
/// end.
pub open spec fn assoc_put<K, V>(m: Seq<(K, V)>, k: K, v: V) -> Seq<(K, V)> {
    let i = key_index(m, k, 0);
    if i < m.len() {
        m.update(i, (k, v))
    } else {
        m.push((k, v))
    }
}

/// Each key at most once.
pub open spec fn keys_unique<K, V>(m: Seq<(K, V)>) -> bool {
    forall|i: int, j: int| 0 <= i < j < m.len() ==> m[i].0 != m[j].0
}

} // verus!
