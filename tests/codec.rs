use remote_uci::uci::{Eval, ProtocolError, Score, UciIn, UciOption, UciOptionName, UciOptionValue, UciOut};

fn round_trip_in(line: &str) {
    let v = UciIn::from_line(line).unwrap().unwrap();
    let again = UciIn::from_line(&v.to_string()).unwrap().unwrap();
    assert_eq!(v, again);
}

fn round_trip_out(line: &str) {
    let v = UciOut::from_line(line).unwrap().unwrap();
    let again = UciOut::from_line(&v.to_string()).unwrap().unwrap();
    assert_eq!(v, again);
}

#[test]
fn setoption_skill_level_round_trip() {
    let v = UciIn::from_line("setoption name Skill Level value 10").unwrap().unwrap();
    assert_eq!(v.to_string(), "setoption name Skill Level value 10");
    match &v {
        UciIn::Setoption { name, value } => {
            assert_eq!(name.0, "Skill Level");
            assert_eq!(*name, UciOptionName("skill level".to_owned()));
            assert_eq!(value.as_deref(), Some("10"));
        }
        _ => panic!("not a setoption"),
    }
    round_trip_in("setoption name Skill Level value 10");
}

#[test]
fn setoption_empty_value_is_some_empty() {
    assert_eq!(
        UciIn::from_line("setoption name Hash value").unwrap(),
        Some(UciIn::Setoption { name: UciOptionName("Hash".to_owned()), value: Some(String::new()) })
    );
}

#[test]
fn setoption_errors() {
    assert_eq!(UciIn::from_line("setoption"), Err(ProtocolError::UnexpectedEndOfLine));
    assert_eq!(UciIn::from_line("setoption value 3"), Err(ProtocolError::UnexpectedToken));
    assert_eq!(UciIn::from_line("setoption name"), Err(ProtocolError::UnexpectedEndOfLine));
}

#[test]
fn position_scenarios() {
    let fen = "rn1q1rk1/pbp1bppp/1p2pn2/8/2pP4/2N1PN2/PPB1QPPP/R1B2RK1 b - - 5 9";
    let line = format!("position fen {}", fen);
    assert_eq!(
        UciIn::from_line(&line).unwrap(),
        Some(UciIn::Position { fen: Some(fen.to_owned()), moves: vec![] })
    );
    assert_eq!(
        UciIn::from_line("position startpos moves e2e4 e7e5 g1f3").unwrap(),
        Some(UciIn::Position {
            fen: None,
            moves: vec!["e2e4".to_owned(), "e7e5".to_owned(), "g1f3".to_owned()]
        })
    );
    assert_eq!(UciIn::from_line("position startpos moves e2e4 e9e5"), Err(ProtocolError::InvalidMove));
    assert_eq!(UciIn::from_line("position fen not a fen"), Err(ProtocolError::InvalidFen));
    assert_eq!(UciIn::from_line("position"), Err(ProtocolError::UnexpectedEndOfLine));
    assert_eq!(UciIn::from_line("position sideways"), Err(ProtocolError::UnexpectedToken));
    round_trip_in(&format!("{} moves e2e4 P@e4 0000 e7e8q", line));
}

#[test]
fn simple_commands() {
    assert_eq!(UciIn::from_line("uci").unwrap(), Some(UciIn::Uci));
    assert_eq!(UciIn::from_line("isready").unwrap(), Some(UciIn::Isready));
    assert_eq!(UciIn::from_line("ucinewgame").unwrap(), Some(UciIn::Ucinewgame));
    assert_eq!(UciIn::from_line("stop").unwrap(), Some(UciIn::Stop));
    assert_eq!(UciIn::from_line("ponderhit").unwrap(), Some(UciIn::Ponderhit));
    assert_eq!(UciIn::from_line("uci now"), Err(ProtocolError::ExpectedEndOfLine));
    assert_eq!(UciIn::from_line("hello"), Err(ProtocolError::UnexpectedToken));
    assert_eq!(UciIn::from_line(""), Ok(None));
    assert_eq!(UciIn::from_line(" \t "), Ok(None));
}

#[test]
fn go_parameters() {
    let v = UciIn::from_line("go searchmoves e2e4 d2d4 ponder wtime 1000 btime 2000 winc 10 binc 20 movestogo 30 depth 5 nodes 99 mate 3 movetime 500 infinite")
        .unwrap()
        .unwrap();
    assert_eq!(
        v,
        UciIn::Go {
            searchmoves: Some(vec!["e2e4".to_owned(), "d2d4".to_owned()]),
            ponder: true,
            wtime: Some(1000),
            btime: Some(2000),
            winc: Some(10),
            binc: Some(20),
            movestogo: Some(30),
            depth: Some(5),
            nodes: Some(99),
            mate: Some(3),
            movetime: Some(500),
            infinite: true,
        }
    );
    assert_eq!(
        v.to_string(),
        "go searchmoves e2e4 d2d4 ponder wtime 1000 btime 2000 winc 10 binc 20 movestogo 30 depth 5 nodes 99 mate 3 movetime 500 infinite"
    );
    round_trip_in("go infinite depth 7 searchmoves a1a2");
    assert_eq!(UciIn::from_line("go depth"), Err(ProtocolError::UnexpectedEndOfLine));
    assert_eq!(UciIn::from_line("go depth x"), Err(ProtocolError::InvalidInteger));
    assert_eq!(UciIn::from_line("go depth 4294967296"), Err(ProtocolError::InvalidInteger));
    assert_eq!(UciIn::from_line("go fast"), Err(ProtocolError::UnexpectedToken));
}

#[test]
fn whitespace_is_ignored_at_the_ends() {
    for line in ["go depth 5", "setoption name Skill Level value 10", "stop", "position startpos moves e2e4"] {
        let padded = format!(" \t{}\t ", line);
        assert_eq!(UciIn::from_line(line), UciIn::from_line(&padded));
    }
    for line in ["info depth 3 pv e2e4", "id name Engine X", "bestmove e2e4 ponder e7e5"] {
        let padded = format!(" \t{}\t ", line);
        assert_eq!(UciOut::from_line(line), UciOut::from_line(&padded));
    }
}

#[test]
fn line_breaks_are_rejected() {
    assert_eq!(UciIn::from_line("uci\n"), Err(ProtocolError::UnexpectedLineBreak));
    assert_eq!(UciIn::from_line("go\rdepth 3"), Err(ProtocolError::UnexpectedLineBreak));
    assert_eq!(UciOut::from_line("readyok\r\n"), Err(ProtocolError::UnexpectedLineBreak));
}

#[test]
fn option_names_fold_case() {
    let a = UciOptionName("Hash".to_owned());
    let b = UciOptionName("HASH".to_owned());
    let c = UciOptionName("hash".to_owned());
    assert_eq!(a, b);
    assert_eq!(b, c);
    assert_eq!(a.folded(), b.folded());
    assert_eq!(b.folded(), c.folded());
    assert_ne!(UciOptionName("Hash".to_owned()).folded(), UciOptionName("Hashes".to_owned()).folded());
    assert!(a.is_safe());
    assert!(UciOptionName("analysis contempt".to_owned()).is_safe());
    assert!(!UciOptionName("EvalFile".to_owned()).is_safe());
}

#[test]
fn option_combo_scenario() {
    let v = UciOut::from_line("option name U type combo var uroe co default ce").unwrap().unwrap();
    assert_eq!(
        v,
        UciOut::Option {
            name: UciOptionName("U".to_owned()),
            option: UciOption::Combo { default: "ce".to_owned(), var: vec!["uroe co".to_owned()] }
        }
    );
    assert_eq!(v.to_string(), "option name U type combo default ce var uroe co");
    round_trip_out("option name U type combo var uroe co default ce");
}

#[test]
fn option_kinds() {
    assert_eq!(
        UciOut::from_line("option name Hash type spin default 16 min 1 max 33554432").unwrap(),
        Some(UciOut::Option {
            name: UciOptionName("Hash".to_owned()),
            option: UciOption::Spin { default: 16, min: 1, max: 33554432 }
        })
    );
    assert_eq!(
        UciOut::from_line("option name Ponder type check default false").unwrap(),
        Some(UciOut::Option { name: UciOptionName("Ponder".to_owned()), option: UciOption::Check { default: false } })
    );
    assert_eq!(
        UciOut::from_line("option name Clear Hash type button").unwrap(),
        Some(UciOut::Option { name: UciOptionName("Clear Hash".to_owned()), option: UciOption::Button })
    );
    assert_eq!(
        UciOut::from_line("option name NalimovPath type string default").unwrap(),
        Some(UciOut::Option {
            name: UciOptionName("NalimovPath".to_owned()),
            option: UciOption::String { default: String::new() }
        })
    );
    assert_eq!(UciOut::from_line("option name X type spin default 1 min 0"), Err(ProtocolError::UnexpectedEndOfLine));
    assert_eq!(UciOut::from_line("option name X type spin default 5 min 10 max 1"), Err(ProtocolError::InvalidOptionValue));
    assert_eq!(UciOut::from_line("option name X type combo default x"), Err(ProtocolError::InvalidOptionValue));
    assert_eq!(UciOut::from_line("option name X type button now"), Err(ProtocolError::ExpectedEndOfLine));
    round_trip_out("option name Hash type spin default 16 min 1 max 33554432");
    round_trip_out("option name Style type combo default Normal var Solid var Normal var Risky");
}

#[test]
fn output_lines() {
    assert_eq!(UciOut::from_line("id name Stockfish 16").unwrap(), Some(UciOut::IdName("Stockfish 16".to_owned())));
    assert_eq!(UciOut::from_line("uciok").unwrap(), Some(UciOut::Uciok));
    assert_eq!(UciOut::from_line("readyok").unwrap(), Some(UciOut::Readyok));
    assert_eq!(UciOut::from_line("Stockfish by the developers").unwrap(), None);
    assert_eq!(
        UciOut::from_line("bestmove (none)").unwrap(),
        Some(UciOut::Bestmove { m: None, ponder: None })
    );
    assert_eq!(
        UciOut::from_line("bestmove e2e4 ponder e7e5").unwrap(),
        Some(UciOut::Bestmove { m: Some("e2e4".to_owned()), ponder: Some("e7e5".to_owned()) })
    );
    assert_eq!(UciOut::from_line("bestmove e2e9"), Err(ProtocolError::InvalidMove));
    round_trip_out("bestmove (none) ponder e7e5");
}

#[test]
fn info_line() {
    let line = "info depth 20 seldepth 30 multipv 1 score cp -35 upperbound nodes 1000 nps 500 hashfull 12 tbhits 0 time 2000 pv e2e4 e7e5 g1f3";
    let v = UciOut::from_line(line).unwrap().unwrap();
    match &v {
        UciOut::Info { depth, seldepth, multipv, score, nodes, time, pv, .. } => {
            assert_eq!(*depth, Some(20));
            assert_eq!(*seldepth, Some(30));
            assert_eq!(*multipv, Some(1));
            assert_eq!(*score, Some(Score { eval: Eval::Cp(-35), lowerbound: false, upperbound: true }));
            assert_eq!(*nodes, Some(1000));
            assert_eq!(*time, Some(2000));
            assert_eq!(pv.as_ref().map(|p| p.len()), Some(3));
        }
        _ => panic!("not info"),
    }
    assert_eq!(
        v.to_string(),
        "info multipv 1 depth 20 seldepth 30 time 2000 nodes 1000 score cp -35 upperbound hashfull 12 nps 500 tbhits 0 pv e2e4 e7e5 g1f3"
    );
    round_trip_out(line);
    round_trip_out("info refutation d1h5 g6h5 refutation e2e4 currline 1 e2e4 e7e5 string hello  world");
    assert_eq!(UciOut::from_line("info multipv 0"), Err(ProtocolError::InvalidInteger));
    assert_eq!(UciOut::from_line("info flavour 3"), Err(ProtocolError::UnexpectedToken));
    assert_eq!(UciOut::from_line("info score mate -3").unwrap().unwrap().to_string(), "info score mate -3");
}

#[test]
fn validation() {
    let spin = UciOption::Spin { default: 1, min: 1, max: 512 };
    assert_eq!(spin.validate(Some("64".to_owned())), Ok(UciOptionValue::Spin(64)));
    assert_eq!(spin.validate(Some("1024".to_owned())), Err(ProtocolError::InvalidOptionValue));
    assert_eq!(spin.validate(Some("many".to_owned())), Err(ProtocolError::InvalidInteger));
    assert_eq!(spin.validate(None), Err(ProtocolError::InvalidOptionValue));
    let check = UciOption::Check { default: false };
    assert_eq!(check.validate(Some("true".to_owned())), Ok(UciOptionValue::Check(true)));
    assert_eq!(check.validate(Some("yes".to_owned())), Err(ProtocolError::InvalidOptionValue));
    let combo = UciOption::Combo { default: "a".to_owned(), var: vec!["a".to_owned(), "b".to_owned()] };
    assert_eq!(combo.validate(Some("b".to_owned())), Ok(UciOptionValue::Combo("b".to_owned())));
    assert_eq!(combo.validate(Some("c".to_owned())), Err(ProtocolError::InvalidOptionValue));
    assert_eq!(UciOption::Button.validate(None), Ok(UciOptionValue::Button));
    assert_eq!(UciOption::Button.validate(Some("x".to_owned())), Err(ProtocolError::InvalidOptionValue));
    let string = UciOption::String { default: String::new() };
    assert_eq!(string.validate(Some("path".to_owned())), Ok(UciOptionValue::String("path".to_owned())));
}

#[test]
fn limit_max_clamps() {
    let mut o = UciOption::Spin { default: 256, min: 1, max: 1024 };
    o.limit_max(128);
    assert_eq!(o, UciOption::Spin { default: 128, min: 1, max: 128 });
    assert_eq!(o.max(), Some(128));
    let mut c = UciOption::Check { default: true };
    c.limit_max(3);
    assert_eq!(c, UciOption::Check { default: true });
    assert_eq!(c.max(), None);
}
