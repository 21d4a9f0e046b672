use vstd::prelude::*;

use crate::number::{dec_text, push_decimal, push_signed, signed_dec_text};
use crate::uci::{
    opt_view, pairs_view, lines_view, strings_view, Eval, GoModel, InModel, InfoModel, OptionSchema,
    OutModel, Score, UciIn, UciOption, UciOut,
};

verus! {

proof fn lemma_extend(o: Seq<char>, a: Seq<char>, x: Seq<char>, p: Seq<char>)
    requires
        x == o + a,
    ensures
        x + p == o + (a + p),
{
    assert(x + p =~= o + (a + p));
}

/// Each move preceded by a space.
pub open spec fn moves_text(ms: Seq<Seq<char>>) -> Seq<char>
    decreases ms.len(),
{
    if ms.len() == 0 {
        Seq::empty()
    } else {
        " "@ + ms[0] + moves_text(ms.drop_first())
    }
}

pub open spec fn flag_text(word: Seq<char>, b: bool) -> Seq<char> {
    if b {
        word
    } else {
        Seq::empty()
    }
}

pub open spec fn num_text(word: Seq<char>, n: Option<int>) -> Seq<char> {
    match n {
        Some(x) => word + dec_text(x as nat),
        None => Seq::empty(),
    }
}

pub open spec fn opt32(n: Option<u32>) -> Option<int> {
    match n {
        Some(x) => Some(x as int),
        None => None,
    }
}

pub open spec fn opt64(n: Option<u64>) -> Option<int> {
    match n {
        Some(x) => Some(x as int),
        None => None,
    }
}

pub open spec fn go_text(g: GoModel) -> Seq<char> {
    "go"@ + go_fields_text(g)
}

pub open spec fn go_fields_text(g: GoModel) -> Seq<char> {
    go_head_text(g) + go_tail_text(g)
}

pub open spec fn go_head_text(g: GoModel) -> Seq<char> {
    (match g.searchmoves {
        Some(ms) => " searchmoves"@ + moves_text(ms),
        None => Seq::empty(),
    }) + flag_text(" ponder"@, g.ponder) + num_text(" wtime "@, opt64(g.wtime)) + num_text(
        " btime "@,
        opt64(g.btime),
    ) + num_text(" winc "@, opt64(g.winc)) + num_text(" binc "@, opt64(g.binc))
}

pub open spec fn go_tail_text(g: GoModel) -> Seq<char> {
    num_text(" movestogo "@, opt32(g.movestogo)) + num_text(" depth "@, opt32(g.depth)) + num_text(
        " nodes "@,
        opt64(g.nodes),
    ) + num_text(" mate "@, opt32(g.mate)) + num_text(" movetime "@, opt64(g.movetime)) + flag_text(
        " infinite"@,
        g.infinite,
    )
}

/// The line that sends `v` to an engine.
pub open spec fn encode_in(v: InModel) -> Seq<char> {
    match v {
        InModel::Uci => "uci"@,
        InModel::Isready => "isready"@,
        InModel::Setoption { name, value } => "setoption name "@ + name + (match value {
            Some(x) => " value "@ + x,
            None => Seq::empty(),
        }),
        InModel::Ucinewgame => "ucinewgame"@,
        InModel::Position { fen, moves } => (match fen {
            Some(f) => "position fen "@ + f,
            None => "position startpos"@,
        }) + (if moves.len() > 0 {
            " moves"@ + moves_text(moves)
        } else {
            Seq::empty()
        }),
        InModel::Go(g) => go_text(g),
        InModel::Stop => "stop"@,
        InModel::Ponderhit => "ponderhit"@,
    }
}

pub open spec fn eval_text(e: Eval) -> Seq<char> {
    match e {
        Eval::Cp(n) => "cp "@ + signed_dec_text(n as int),
        Eval::Mate(n) => "mate "@ + signed_dec_text(n as int),
    }
}

pub open spec fn score_text(s: Option<Score>) -> Seq<char> {
    match s {
        Some(sc) => " score "@ + eval_text(sc.eval) + flag_text(" lowerbound"@, sc.lowerbound)
            + flag_text(" upperbound"@, sc.upperbound),
        None => Seq::empty(),
    }
}

pub open spec fn refutations_text(m: Seq<(Seq<char>, Seq<Seq<char>>)>) -> Seq<char>
    decreases m.len(),
{
    if m.len() == 0 {
        Seq::empty()
    } else {
        " refutation "@ + m[0].0 + moves_text(m[0].1) + refutations_text(m.drop_first())
    }
}

pub open spec fn currlines_text(m: Seq<(u32, Seq<Seq<char>>)>) -> Seq<char>
    decreases m.len(),
{
    if m.len() == 0 {
        Seq::empty()
    } else {
        " currline "@ + dec_text(m[0].0 as nat) + moves_text(m[0].1) + currlines_text(m.drop_first())
    }
}

pub open spec fn info_text(i: InfoModel) -> Seq<char> {
    "info"@ + info_head_text(i) + info_middle_text(i) + info_tail_text(i)
}

pub open spec fn info_head_text(i: InfoModel) -> Seq<char> {
    num_text(" multipv "@, opt32(i.multipv)) + num_text(" depth "@, opt32(i.depth)) + num_text(
        " seldepth "@,
        opt32(i.seldepth),
    ) + num_text(" time "@, opt64(i.time)) + num_text(" nodes "@, opt64(i.nodes)) + score_text(
        i.score,
    )
}

pub open spec fn info_middle_text(i: InfoModel) -> Seq<char> {
    (match i.currmove {
        Some(m) => " currmove "@ + m,
        None => Seq::empty(),
    }) + num_text(" currmovenumber "@, opt32(i.currmovenumber)) + num_text(
        " hashfull "@,
        opt32(i.hashfull),
    ) + num_text(" nps "@, opt64(i.nps)) + num_text(" tbhits "@, opt64(i.tbhits)) + num_text(
        " sbhits "@,
        opt64(i.sbhits),
    )
}

pub open spec fn info_tail_text(i: InfoModel) -> Seq<char> {
    num_text(" cpuload "@, opt32(i.cpuload)) + refutations_text(i.refutation) + currlines_text(
        i.currline,
    ) + (match i.pv {
        Some(ms) => " pv"@ + moves_text(ms),
        None => Seq::empty(),
    }) + (match i.string {
        Some(s) => " string "@ + s,
        None => Seq::empty(),
    })
}

pub open spec fn vars_text(var: Seq<Seq<char>>) -> Seq<char>
    decreases var.len(),
{
    if var.len() == 0 {
        Seq::empty()
    } else {
        " var "@ + var[0] + vars_text(var.drop_first())
    }
}

pub open spec fn schema_text(o: OptionSchema) -> Seq<char> {
    match o {
        OptionSchema::Check { default } => "type check default "@ + (if default {
            "true"@
        } else {
            "false"@
        }),
        OptionSchema::Spin { default, min, max } => "type spin default "@ + signed_dec_text(
            default as int,
        ) + " min "@ + signed_dec_text(min as int) + " max "@ + signed_dec_text(max as int),
        OptionSchema::Combo { default, var } => "type combo default "@ + default + vars_text(var),
        OptionSchema::Button => "type button"@,
        OptionSchema::Text { default } => "type string default "@ + default,
    }
}

/// The line that sends `v` to a client.
pub open spec fn encode_out(v: OutModel) -> Seq<char> {
    match v {
        OutModel::IdName(n) => "id name "@ + n,
        OutModel::IdAuthor(a) => "id author "@ + a,
        OutModel::Uciok => "uciok"@,
        OutModel::Readyok => "readyok"@,
        OutModel::Bestmove { m, ponder } => (match m {
            Some(x) => "bestmove "@ + x,
            None => "bestmove (none)"@,
        }) + (match ponder {
            Some(p) => " ponder "@ + p,
            None => Seq::empty(),
        }),
        OutModel::Info(i) => info_text(i),
        OutModel::OptionDecl { name, option } => "option name "@ + name + " "@ + schema_text(option),
    }
}

fn push_moves(s: &mut String, ms: &Vec<String>)
    ensures
        final(s)@ == old(s)@ + moves_text(strings_view(ms@)),
{
    let ghost sv = strings_view(ms@);
    assert(sv.skip(0) =~= sv);
    let mut i: usize = 0;
    while i < ms.len()
        invariant
            i <= ms@.len(),
            sv == strings_view(ms@),
            s@ + moves_text(sv.skip(i as int)) == old(s)@ + moves_text(sv),
        decreases ms@.len() - i,
    {
        let ghost before = s@;
        s.append(" ");
        s.append(ms[i].as_str());
        proof {
            let t = sv.skip(i as int);
            assert(t.drop_first() =~= sv.skip(i + 1));
            assert(t[0] == ms@[i as int]@);
            assert(s@ + moves_text(sv.skip(i + 1)) =~= before + moves_text(t));
        }
        i = i + 1;
    }
    assert(sv.skip(ms@.len() as int) =~= Seq::<Seq<char>>::empty());
    assert(s@ + Seq::<char>::empty() =~= s@);
}

fn push_u64_field(s: &mut String, word: &str, n: Option<u64>)
    ensures
        final(s)@ == old(s)@ + num_text(word@, opt64(n)),
{
    match n {
        Some(x) => {
            s.append(word);
            push_decimal(s, x);
            assert(final(s)@ =~= old(s)@ + num_text(word@, opt64(n)));
        },
        None => {
            assert(final(s)@ =~= old(s)@ + num_text(word@, opt64(n)));
        },
    }
}

fn push_u32_field(s: &mut String, word: &str, n: Option<u32>)
    ensures
        final(s)@ == old(s)@ + num_text(word@, opt32(n)),
{
    match n {
        Some(x) => {
            s.append(word);
            push_decimal(s, x as u64);
            assert(final(s)@ =~= old(s)@ + num_text(word@, opt32(n)));
        },
        None => {
            assert(final(s)@ =~= old(s)@ + num_text(word@, opt32(n)));
        },
    }
}

fn push_flag(s: &mut String, word: &str, b: bool)
    ensures
        final(s)@ == old(s)@ + flag_text(word@, b),
{
    if b {
        s.append(word);
    } else {
        assert(final(s)@ =~= old(s)@ + flag_text(word@, b));
    }
}

fn push_go_head(
    s: &mut String,
    searchmoves: &Option<Vec<String>>,
    ponder: bool,
    wtime: Option<u64>,
    btime: Option<u64>,
    winc: Option<u64>,
    binc: Option<u64>,
    movestogo: Option<u32>,
    depth: Option<u32>,
    nodes: Option<u64>,
    mate: Option<u32>,
    movetime: Option<u64>,
    infinite: bool,
)
    ensures
        final(s)@ == old(s)@ + go_head_text(GoModel {
            searchmoves: match searchmoves {
                Some(v) => Some(strings_view(v@)),
                None => None,
            },
            ponder,
            wtime,
            btime,
            winc,
            binc,
            movestogo,
            depth,
            nodes,
            mate,
            movetime,
            infinite,
        }),
{
    let ghost g = GoModel {
            searchmoves: match searchmoves {
                Some(v) => Some(strings_view(v@)),
                None => None,
            },
            ponder,
            wtime,
            btime,
            winc,
            binc,
            movestogo,
            depth,
            nodes,
            mate,
            movetime,
            infinite,
        };
    let ghost b0 = s@;
    match searchmoves {
        Some(ms) => {
            s.append(" searchmoves");
            push_moves(s, ms);
        },
        None => {},
    }
    let ghost a0 = (match g.searchmoves {
        Some(ms) => " searchmoves"@ + moves_text(ms),
        None => Seq::empty(),
    });
    assert(s@ =~= old(s)@ + a0);
    let ghost b1 = s@;
    push_flag(s, " ponder", ponder);
    let ghost a1 = a0 + flag_text(" ponder"@, g.ponder);
    assert(s@ =~= b1 + flag_text(" ponder"@, g.ponder));
    proof { lemma_extend(old(s)@, a0, b1, flag_text(" ponder"@, g.ponder)); }
    let ghost b2 = s@;
    push_u64_field(s, " wtime ", wtime);
    let ghost a2 = a1 + num_text(" wtime "@, opt64(g.wtime));
    assert(s@ =~= b2 + num_text(" wtime "@, opt64(g.wtime)));
    proof { lemma_extend(old(s)@, a1, b2, num_text(" wtime "@, opt64(g.wtime))); }
    let ghost b3 = s@;
    push_u64_field(s, " btime ", btime);
    let ghost a3 = a2 + num_text(" btime "@, opt64(g.btime));
    assert(s@ =~= b3 + num_text(" btime "@, opt64(g.btime)));
    proof { lemma_extend(old(s)@, a2, b3, num_text(" btime "@, opt64(g.btime))); }
    let ghost b4 = s@;
    push_u64_field(s, " winc ", winc);
    let ghost a4 = a3 + num_text(" winc "@, opt64(g.winc));
    assert(s@ =~= b4 + num_text(" winc "@, opt64(g.winc)));
    proof { lemma_extend(old(s)@, a3, b4, num_text(" winc "@, opt64(g.winc))); }
    let ghost b5 = s@;
    push_u64_field(s, " binc ", binc);
    let ghost a5 = a4 + num_text(" binc "@, opt64(g.binc));
    assert(s@ =~= b5 + num_text(" binc "@, opt64(g.binc)));
    proof { lemma_extend(old(s)@, a4, b5, num_text(" binc "@, opt64(g.binc))); }
    assert(a5 == go_head_text(g));
}

fn push_go_tail(
    s: &mut String,
    searchmoves: &Option<Vec<String>>,
    ponder: bool,
    wtime: Option<u64>,
    btime: Option<u64>,
    winc: Option<u64>,
    binc: Option<u64>,
    movestogo: Option<u32>,
    depth: Option<u32>,
    nodes: Option<u64>,
    mate: Option<u32>,
    movetime: Option<u64>,
    infinite: bool,
)
    ensures
        final(s)@ == old(s)@ + go_tail_text(GoModel {
            searchmoves: match searchmoves {
                Some(v) => Some(strings_view(v@)),
                None => None,
            },
            ponder,
            wtime,
            btime,
            winc,
            binc,
            movestogo,
            depth,
            nodes,
            mate,
            movetime,
            infinite,
        }),
{
    let ghost g = GoModel {
            searchmoves: match searchmoves {
                Some(v) => Some(strings_view(v@)),
                None => None,
            },
            ponder,
            wtime,
            btime,
            winc,
            binc,
            movestogo,
            depth,
            nodes,
            mate,
            movetime,
            infinite,
        };
    let ghost b0 = s@;
    push_u32_field(s, " movestogo ", movestogo);
    let ghost a0 = num_text(" movestogo "@, opt32(g.movestogo));
    assert(s@ =~= old(s)@ + a0);
    let ghost b1 = s@;
    push_u32_field(s, " depth ", depth);
    let ghost a1 = a0 + num_text(" depth "@, opt32(g.depth));
    assert(s@ =~= b1 + num_text(" depth "@, opt32(g.depth)));
    proof { lemma_extend(old(s)@, a0, b1, num_text(" depth "@, opt32(g.depth))); }
    let ghost b2 = s@;
    push_u64_field(s, " nodes ", nodes);
    let ghost a2 = a1 + num_text(" nodes "@, opt64(g.nodes));
    assert(s@ =~= b2 + num_text(" nodes "@, opt64(g.nodes)));
    proof { lemma_extend(old(s)@, a1, b2, num_text(" nodes "@, opt64(g.nodes))); }
    let ghost b3 = s@;
    push_u32_field(s, " mate ", mate);
    let ghost a3 = a2 + num_text(" mate "@, opt32(g.mate));
    assert(s@ =~= b3 + num_text(" mate "@, opt32(g.mate)));
    proof { lemma_extend(old(s)@, a2, b3, num_text(" mate "@, opt32(g.mate))); }
    let ghost b4 = s@;
    push_u64_field(s, " movetime ", movetime);
    let ghost a4 = a3 + num_text(" movetime "@, opt64(g.movetime));
    assert(s@ =~= b4 + num_text(" movetime "@, opt64(g.movetime)));
    proof { lemma_extend(old(s)@, a3, b4, num_text(" movetime "@, opt64(g.movetime))); }
    let ghost b5 = s@;
    push_flag(s, " infinite", infinite);
    let ghost a5 = a4 + flag_text(" infinite"@, g.infinite);
    assert(s@ =~= b5 + flag_text(" infinite"@, g.infinite));
    proof { lemma_extend(old(s)@, a4, b5, flag_text(" infinite"@, g.infinite)); }
    assert(a5 == go_tail_text(g));
}

fn push_go_fields(
    s: &mut String,
    searchmoves: &Option<Vec<String>>,
    ponder: bool,
    wtime: Option<u64>,
    btime: Option<u64>,
    winc: Option<u64>,
    binc: Option<u64>,
    movestogo: Option<u32>,
    depth: Option<u32>,
    nodes: Option<u64>,
    mate: Option<u32>,
    movetime: Option<u64>,
    infinite: bool,
)
    ensures
        final(s)@ == old(s)@ + go_fields_text(GoModel {
            searchmoves: match searchmoves {
                Some(v) => Some(strings_view(v@)),
                None => None,
            },
            ponder,
            wtime,
            btime,
            winc,
            binc,
            movestogo,
            depth,
            nodes,
            mate,
            movetime,
            infinite,
        }),
{
    push_go_head(s, searchmoves, ponder, wtime, btime, winc, binc, movestogo, depth, nodes, mate, movetime, infinite);
    let ghost b = s@;
    push_go_tail(s, searchmoves, ponder, wtime, btime, winc, binc, movestogo, depth, nodes, mate, movetime, infinite);
    assert(s@ =~= old(s)@ + go_fields_text(GoModel {
            searchmoves: match searchmoves {
                Some(v) => Some(strings_view(v@)),
                None => None,
            },
            ponder,
            wtime,
            btime,
            winc,
            binc,
            movestogo,
            depth,
            nodes,
            mate,
            movetime,
            infinite,
        }));
}
impl UciIn {
    /// The line that sends this command, without a line ending.
    pub fn to_string(&self) -> (r: String)
        ensures
            r@ == encode_in(self@),
    {
        let mut s = String::new();
        match self {
            UciIn::Uci => s.append("uci"),
            UciIn::Isready => s.append("isready"),
            UciIn::Setoption { name, value } => {
                s.append("setoption name ");
                s.append(name.0.as_str());
                match value {
                    Some(v) => {
                        s.append(" value ");
                        s.append(v.as_str());
                    },
                    None => {},
                }
            },
            UciIn::Ucinewgame => s.append("ucinewgame"),
            UciIn::Position { fen, moves } => {
                match fen {
                    Some(f) => {
                        s.append("position fen ");
                        s.append(f.as_str());
                    },
                    None => s.append("position startpos"),
                }
                if moves.len() > 0 {
                    s.append(" moves");
                    push_moves(&mut s, moves);
                }
            },
            UciIn::Go {
                searchmoves,
                ponder,
                wtime,
                btime,
                winc,
                binc,
                movestogo,
                depth,
                nodes,
                mate,
                movetime,
                infinite,
            } => {
                s.append("go");
                push_go_fields(&mut s, searchmoves, *ponder, *wtime, *btime, *winc, *binc, *movestogo, *depth, *nodes, *mate, *movetime, *infinite);
            },
            UciIn::Stop => s.append("stop"),
            UciIn::Ponderhit => s.append("ponderhit"),
        }
        assert(s@ =~= encode_in(self@));
        s
    }
}

} // verus!

verus! {

fn push_score(s: &mut String, sc: Option<Score>)
    ensures
        final(s)@ == old(s)@ + score_text(sc),
{
    match sc {
        Some(x) => {
            s.append(" score ");
            match x.eval {
                Eval::Cp(n) => {
                    s.append("cp ");
                    push_signed(s, n);
                },
                Eval::Mate(n) => {
                    s.append("mate ");
                    push_signed(s, n as i64);
                },
            }
            let ghost a = s@;
            push_flag(s, " lowerbound", x.lowerbound);
            push_flag(s, " upperbound", x.upperbound);
            assert(a =~= old(s)@ + (" score "@ + eval_text(x.eval)));
            assert(s@ =~= old(s)@ + score_text(sc));
        },
        None => {
            assert(s@ =~= old(s)@ + score_text(sc));
        },
    }
}

fn push_refutations(s: &mut String, m: &Vec<(String, Vec<String>)>)
    ensures
        final(s)@ == old(s)@ + refutations_text(pairs_view(m@)),
{
    let ghost pv = pairs_view(m@);
    assert(pv.skip(0) =~= pv);
    let mut i: usize = 0;
    while i < m.len()
        invariant
            i <= m@.len(),
            pv == pairs_view(m@),
            s@ + refutations_text(pv.skip(i as int)) == old(s)@ + refutations_text(pv),
        decreases m@.len() - i,
    {
        let ghost before = s@;
        s.append(" refutation ");
        s.append(m[i].0.as_str());
        push_moves(s, &m[i].1);
        proof {
            let t = pv.skip(i as int);
            assert(t.drop_first() =~= pv.skip(i + 1));
            assert(t[0] == (m@[i as int].0@, strings_view(m@[i as int].1@)));
            assert(s@ + refutations_text(pv.skip(i + 1)) =~= before + refutations_text(t));
        }
        i = i + 1;
    }
    assert(pv.skip(m@.len() as int) =~= Seq::<(Seq<char>, Seq<Seq<char>>)>::empty());
    assert(s@ + Seq::<char>::empty() =~= s@);
}

fn push_currlines(s: &mut String, m: &Vec<(u32, Vec<String>)>)
    ensures
        final(s)@ == old(s)@ + currlines_text(lines_view(m@)),
{
    let ghost lv = lines_view(m@);
    assert(lv.skip(0) =~= lv);
    let mut i: usize = 0;
    while i < m.len()
        invariant
            i <= m@.len(),
            lv == lines_view(m@),
            s@ + currlines_text(lv.skip(i as int)) == old(s)@ + currlines_text(lv),
        decreases m@.len() - i,
    {
        let ghost before = s@;
        s.append(" currline ");
        push_decimal(s, m[i].0 as u64);
        push_moves(s, &m[i].1);
        proof {
            let t = lv.skip(i as int);
            assert(t.drop_first() =~= lv.skip(i + 1));
            assert(t[0] == (m@[i as int].0, strings_view(m@[i as int].1@)));
            assert(s@ + currlines_text(lv.skip(i + 1)) =~= before + currlines_text(t));
        }
        i = i + 1;
    }
    assert(lv.skip(m@.len() as int) =~= Seq::<(u32, Seq<Seq<char>>)>::empty());
    assert(s@ + Seq::<char>::empty() =~= s@);
}

fn push_info_head(s: &mut String, v: &UciOut)
    requires
        v@ is Info,
    ensures
        final(s)@ == old(s)@ + info_head_text(v@->Info_0),
{
    match v {
        UciOut::Info {
            multipv,
            depth,
            seldepth,
            time,
            nodes,
            score,
            currmove,
            currmovenumber,
            hashfull,
            nps,
            tbhits,
            sbhits,
            cpuload,
            refutation,
            currline,
            pv,
            string,
        } => {
            let ghost i = v@->Info_0;
    let ghost b0 = s@;
    push_u32_field(s, " multipv ", *multipv);
    let ghost a0 = num_text(" multipv "@, opt32(i.multipv));
    assert(s@ =~= old(s)@ + a0);
    let ghost b1 = s@;
    push_u32_field(s, " depth ", *depth);
    let ghost a1 = a0 + num_text(" depth "@, opt32(i.depth));
    assert(s@ =~= b1 + num_text(" depth "@, opt32(i.depth)));
    proof { lemma_extend(old(s)@, a0, b1, num_text(" depth "@, opt32(i.depth))); }
    let ghost b2 = s@;
    push_u32_field(s, " seldepth ", *seldepth);
    let ghost a2 = a1 + num_text(" seldepth "@, opt32(i.seldepth));
    assert(s@ =~= b2 + num_text(" seldepth "@, opt32(i.seldepth)));
    proof { lemma_extend(old(s)@, a1, b2, num_text(" seldepth "@, opt32(i.seldepth))); }
    let ghost b3 = s@;
    push_u64_field(s, " time ", *time);
    let ghost a3 = a2 + num_text(" time "@, opt64(i.time));
    assert(s@ =~= b3 + num_text(" time "@, opt64(i.time)));
    proof { lemma_extend(old(s)@, a2, b3, num_text(" time "@, opt64(i.time))); }
    let ghost b4 = s@;
    push_u64_field(s, " nodes ", *nodes);
    let ghost a4 = a3 + num_text(" nodes "@, opt64(i.nodes));
    assert(s@ =~= b4 + num_text(" nodes "@, opt64(i.nodes)));
    proof { lemma_extend(old(s)@, a3, b4, num_text(" nodes "@, opt64(i.nodes))); }
    let ghost b5 = s@;
    push_score(s, *score);
    let ghost a5 = a4 + score_text(i.score);
    assert(s@ =~= b5 + score_text(i.score));
    proof { lemma_extend(old(s)@, a4, b5, score_text(i.score)); }
    assert(a5 == info_head_text(i));
        },
        _ => {},
    }
}

fn push_info_middle(s: &mut String, v: &UciOut)
    requires
        v@ is Info,
    ensures
        final(s)@ == old(s)@ + info_middle_text(v@->Info_0),
{
    match v {
        UciOut::Info {
            multipv,
            depth,
            seldepth,
            time,
            nodes,
            score,
            currmove,
            currmovenumber,
            hashfull,
            nps,
            tbhits,
            sbhits,
            cpuload,
            refutation,
            currline,
            pv,
            string,
        } => {
            let ghost i = v@->Info_0;
    let ghost b0 = s@;
    match currmove {
        Some(m) => {
            s.append(" currmove ");
            s.append(m.as_str());
        },
        None => {},
    }
    let ghost a0 = (match i.currmove {
        Some(m) => " currmove "@ + m,
        None => Seq::empty(),
    });
    assert(s@ =~= old(s)@ + a0);
    let ghost b1 = s@;
    push_u32_field(s, " currmovenumber ", *currmovenumber);
    let ghost a1 = a0 + num_text(" currmovenumber "@, opt32(i.currmovenumber));
    assert(s@ =~= b1 + num_text(" currmovenumber "@, opt32(i.currmovenumber)));
    proof { lemma_extend(old(s)@, a0, b1, num_text(" currmovenumber "@, opt32(i.currmovenumber))); }
    let ghost b2 = s@;
    push_u32_field(s, " hashfull ", *hashfull);
    let ghost a2 = a1 + num_text(" hashfull "@, opt32(i.hashfull));
    assert(s@ =~= b2 + num_text(" hashfull "@, opt32(i.hashfull)));
    proof { lemma_extend(old(s)@, a1, b2, num_text(" hashfull "@, opt32(i.hashfull))); }
    let ghost b3 = s@;
    push_u64_field(s, " nps ", *nps);
    let ghost a3 = a2 + num_text(" nps "@, opt64(i.nps));
    assert(s@ =~= b3 + num_text(" nps "@, opt64(i.nps)));
    proof { lemma_extend(old(s)@, a2, b3, num_text(" nps "@, opt64(i.nps))); }
    let ghost b4 = s@;
    push_u64_field(s, " tbhits ", *tbhits);
    let ghost a4 = a3 + num_text(" tbhits "@, opt64(i.tbhits));
    assert(s@ =~= b4 + num_text(" tbhits "@, opt64(i.tbhits)));
    proof { lemma_extend(old(s)@, a3, b4, num_text(" tbhits "@, opt64(i.tbhits))); }
    let ghost b5 = s@;
    push_u64_field(s, " sbhits ", *sbhits);
    let ghost a5 = a4 + num_text(" sbhits "@, opt64(i.sbhits));
    assert(s@ =~= b5 + num_text(" sbhits "@, opt64(i.sbhits)));
    proof { lemma_extend(old(s)@, a4, b5, num_text(" sbhits "@, opt64(i.sbhits))); }
    assert(a5 == info_middle_text(i));
        },
        _ => {},
    }
}

fn push_info_tail(s: &mut String, v: &UciOut)
    requires
        v@ is Info,
    ensures
        final(s)@ == old(s)@ + info_tail_text(v@->Info_0),
{
    match v {
        UciOut::Info {
            multipv,
            depth,
            seldepth,
            time,
            nodes,
            score,
            currmove,
            currmovenumber,
            hashfull,
            nps,
            tbhits,
            sbhits,
            cpuload,
            refutation,
            currline,
            pv,
            string,
        } => {
            let ghost i = v@->Info_0;
    let ghost b0 = s@;
    push_u32_field(s, " cpuload ", *cpuload);
    let ghost a0 = num_text(" cpuload "@, opt32(i.cpuload));
    assert(s@ =~= old(s)@ + a0);
    let ghost b1 = s@;
    push_refutations(s, refutation);
    let ghost a1 = a0 + refutations_text(i.refutation);
    assert(s@ =~= b1 + refutations_text(i.refutation));
    proof { lemma_extend(old(s)@, a0, b1, refutations_text(i.refutation)); }
    let ghost b2 = s@;
    push_currlines(s, currline);
    let ghost a2 = a1 + currlines_text(i.currline);
    assert(s@ =~= b2 + currlines_text(i.currline));
    proof { lemma_extend(old(s)@, a1, b2, currlines_text(i.currline)); }
    let ghost b3 = s@;
    match pv {
        Some(ms) => {
            s.append(" pv");
            push_moves(s, ms);
        },
        None => {},
    }
    let ghost a3 = a2 + (match i.pv {
        Some(ms) => " pv"@ + moves_text(ms),
        None => Seq::empty(),
    });
    assert(s@ =~= b3 + (match i.pv {
        Some(ms) => " pv"@ + moves_text(ms),
        None => Seq::empty(),
    }));
    proof { lemma_extend(old(s)@, a2, b3, (match i.pv {
        Some(ms) => " pv"@ + moves_text(ms),
        None => Seq::empty(),
    })); }
    let ghost b4 = s@;
    match string {
        Some(x) => {
            s.append(" string ");
            s.append(x.as_str());
        },
        None => {},
    }
    let ghost a4 = a3 + (match i.string {
        Some(x) => " string "@ + x,
        None => Seq::empty(),
    });
    assert(s@ =~= b4 + (match i.string {
        Some(x) => " string "@ + x,
        None => Seq::empty(),
    }));
    proof { lemma_extend(old(s)@, a3, b4, (match i.string {
        Some(x) => " string "@ + x,
        None => Seq::empty(),
    })); }
    assert(a4 == info_tail_text(i));
        },
        _ => {},
    }
}

fn push_info(s: &mut String, v: &UciOut)
    requires
        v@ is Info,
    ensures
        final(s)@ == old(s)@ + info_text(v@->Info_0),
{
    s.append("info");
    push_info_head(s, v);
    push_info_middle(s, v);
    push_info_tail(s, v);
    assert(s@ =~= old(s)@ + info_text(v@->Info_0));
}

fn push_vars(s: &mut String, var: &Vec<String>)
    ensures
        final(s)@ == old(s)@ + vars_text(strings_view(var@)),
{
    let ghost sv = strings_view(var@);
    assert(sv.skip(0) =~= sv);
    let mut i: usize = 0;
    while i < var.len()
        invariant
            i <= var@.len(),
            sv == strings_view(var@),
            s@ + vars_text(sv.skip(i as int)) == old(s)@ + vars_text(sv),
        decreases var@.len() - i,
    {
        let ghost before = s@;
        s.append(" var ");
        s.append(var[i].as_str());
        proof {
            let t = sv.skip(i as int);
            assert(t.drop_first() =~= sv.skip(i + 1));
            assert(t[0] == var@[i as int]@);
            assert(s@ + vars_text(sv.skip(i + 1)) =~= before + vars_text(t));
        }
        i = i + 1;
    }
    assert(sv.skip(var@.len() as int) =~= Seq::<Seq<char>>::empty());
    assert(s@ + Seq::<char>::empty() =~= s@);
}

impl UciOption {
    /// The declaration of this option's type, as in an `option` line.
    pub fn to_string(&self) -> (r: String)
        ensures
            r@ == schema_text(self@),
    {
        let mut s = String::new();
        match self {
            UciOption::Check { default } => {
                s.append("type check default ");
                if *default {
                    s.append("true");
                } else {
                    s.append("false");
                }
            },
            UciOption::Spin { default, min, max } => {
                s.append("type spin default ");
                push_signed(&mut s, *default);
                s.append(" min ");
                push_signed(&mut s, *min);
                s.append(" max ");
                push_signed(&mut s, *max);
            },
            UciOption::Combo { default, var } => {
                s.append("type combo default ");
                s.append(default.as_str());
                push_vars(&mut s, var);
            },
            UciOption::Button => s.append("type button"),
            UciOption::String { default } => {
                s.append("type string default ");
                s.append(default.as_str());
            },
        }
        assert(s@ =~= schema_text(self@));
        s
    }
}

impl UciOut {
    /// The line that sends this message, without a line ending.
    pub fn to_string(&self) -> (r: String)
        ensures
            r@ == encode_out(self@),
    {
        let mut s = String::new();
        match self {
            UciOut::IdName(n) => {
                s.append("id name ");
                s.append(n.as_str());
            },
            UciOut::IdAuthor(a) => {
                s.append("id author ");
                s.append(a.as_str());
            },
            UciOut::Uciok => s.append("uciok"),
            UciOut::Readyok => s.append("readyok"),
            UciOut::Bestmove { m, ponder } => {
                match m {
                    Some(x) => {
                        s.append("bestmove ");
                        s.append(x.as_str());
                    },
                    None => s.append("bestmove (none)"),
                }
                match ponder {
                    Some(p) => {
                        s.append(" ponder ");
                        s.append(p.as_str());
                    },
                    None => {},
                }
            },
            UciOut::Info { .. } => {
                push_info(&mut s, self);
            },
            UciOut::Option { name, option } => {
                s.append("option name ");
                s.append(name.0.as_str());
                s.append(" ");
                let t = option.to_string();
                s.append(t.as_str());
            },
        }
        assert(s@ =~= encode_out(self@));
        s
    }
}

} // verus!
