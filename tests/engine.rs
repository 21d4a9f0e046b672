use remote_uci::engine::{Engine, EngineError, EngineInfo, IdleStep};
use remote_uci::session::{Action, Connection, Event, Failure, Yield};
use remote_uci::uci::{UciIn, UciOptionName, UciOut};

fn cmd(line: &str) -> UciIn {
    UciIn::from_line(line).unwrap().unwrap()
}

fn handshake(engine: &mut Engine) {
    assert_eq!(engine.send_dangerous(&UciIn::Uci), Ok(Some("uci\r\n".to_owned())));
    assert!(!engine.is_idle());
    engine.recv("id name Fish 1\r\n");
    engine.recv("option name Hash type spin default 16 min 1 max 1024\r\n");
    engine.recv("option name EvalFile type string default nn.bin\n");
    engine.recv("uciok");
    assert!(engine.is_idle());
}

#[test]
fn handshake_collects_engine_info() {
    let mut info = EngineInfo::new();
    for line in [
        "id name Fish 1",
        "option name Hash type spin default 16 min 1 max 1024",
        "option name Threads type spin default 1 min 1 max 512",
        "option name UCI_Variant type combo default chess var chess var atomic",
    ] {
        info.observe(&UciOut::from_line(line).unwrap().unwrap());
    }
    assert_eq!(info.name.as_deref(), Some("Fish 1"));
    assert_eq!(info.max_hash, Some(1024));
    assert_eq!(info.max_threads, Some(512));
    assert_eq!(info.variants, vec!["chess".to_owned(), "atomic".to_owned()]);
}

#[test]
fn second_go_is_refused_until_bestmove() {
    let mut engine = Engine::new();
    assert_eq!(engine.send(&cmd("go infinite")), Ok(Some("go infinite\r\n".to_owned())));
    assert!(engine.is_searching());
    assert!(engine.recv("info depth 3 score cp 20 pv e2e4").is_some());
    assert_eq!(engine.send(&cmd("go depth 3")), Err(EngineError::AlreadySearching));
    engine.recv("bestmove e2e4");
    assert!(!engine.is_searching());
    assert!(engine.send(&cmd("go depth 3")).is_ok());
}

#[test]
fn unsafe_option_is_not_written() {
    let mut engine = Engine::new();
    handshake(&mut engine);
    assert_eq!(engine.send(&cmd("setoption name EvalFile value /tmp/evil.nnue")), Ok(None));
    assert_eq!(engine.send(&cmd("setoption name Hash value 64")), Ok(Some("setoption name Hash value 64\r\n".to_owned())));
    assert_eq!(engine.send(&cmd("setoption name Threads value 4")), Ok(None));
}

#[test]
fn invalid_option_value_is_refused() {
    let mut engine = Engine::new();
    handshake(&mut engine);
    assert_eq!(engine.send(&cmd("setoption name hash value 4096")), Err(EngineError::InvalidOptionValue));
    assert_eq!(engine.send(&cmd("setoption name Hash value lots")), Err(EngineError::InvalidOptionValue));
}

#[test]
fn noise_and_unknown_lines_are_skipped() {
    let mut engine = Engine::new();
    assert_eq!(engine.recv("info depth 5 nodes 100"), None);
    assert_eq!(engine.recv("Stockfish 16 by the Stockfish developers"), None);
    assert!(engine.recv("info string hi").is_some());
}

#[test]
fn malformed_lines_are_skipped_without_effect() {
    let mut engine = Engine::new();
    engine.send(&cmd("go infinite")).unwrap();
    assert_eq!(engine.recv("bestmove e2e9"), None);
    assert_eq!(engine.recv("info depth x"), None);
    assert!(engine.is_searching());
    assert_eq!(engine.recv("bestmove e2e4"), Some(UciOut::Bestmove { m: Some("e2e4".to_owned()), ponder: None }));
    assert!(!engine.is_searching());
}

#[test]
fn ensure_idle_stops_a_search() {
    let mut engine = Engine::new();
    engine.send(&cmd("go infinite"));
    match engine.idle_step() {
        IdleStep::WriteThenRead(lines) => assert_eq!(lines, vec!["stop\r\n".to_owned(), "isready\r\n".to_owned()]),
        _ => panic!("expected stop and isready"),
    }
    assert!(matches!(engine.idle_step(), IdleStep::Read));
    engine.recv("bestmove e2e4");
    assert!(matches!(engine.idle_step(), IdleStep::Read));
    engine.recv("readyok");
    assert!(matches!(engine.idle_step(), IdleStep::Done));
    assert!(engine.is_idle());
}

#[test]
fn preemption_scenario() {
    // Task A holds the engine and searches.
    let mut engine = Engine::new();
    let mut a = Connection::new();
    match a.on_event(Event::Text("go infinite".to_owned())) {
        Action::Acquire(c) => assert_eq!(c, cmd("go infinite")),
        _ => panic!("expected acquire"),
    }
    let lines = engine.newgame_lines();
    assert_eq!(lines, vec!["ucinewgame\r\n".to_owned(), "isready\r\n".to_owned()]);
    engine.recv("readyok");
    a.acquired(1);
    engine.send(&cmd("go infinite"));
    engine.recv("info depth 1 score cp 3 pv e2e4");

    // Task B sends isready: it asks for the engine, as session 2.
    let mut b = Connection::new();
    match b.on_event(Event::Text("isready".to_owned())) {
        Action::Acquire(c) => assert_eq!(c, UciIn::Isready),
        _ => panic!("expected acquire"),
    }
    // A sees the newer session: it stops the search.
    assert_eq!(a.check_session(2, engine.is_searching(), engine.is_idle()), Yield::StopSearch);
    match engine.idle_step() {
        IdleStep::WriteThenRead(lines) => assert_eq!(lines, vec!["stop\r\n".to_owned(), "isready\r\n".to_owned()]),
        _ => panic!("expected stop and isready"),
    }
    engine.recv("info depth 2 score cp 5 pv e2e4");
    assert_eq!(a.check_session(2, engine.is_searching(), engine.is_idle()), Yield::StopSearch);
    assert!(matches!(engine.idle_step(), IdleStep::Read));
    engine.recv("bestmove e2e4");
    assert_eq!(a.check_session(2, engine.is_searching(), engine.is_idle()), Yield::Keep);
    engine.recv("readyok");
    assert_eq!(a.check_session(2, engine.is_searching(), engine.is_idle()), Yield::Release);
    assert!(!a.is_held());

    // B starts a new game, then its isready is forwarded.
    assert_eq!(engine.newgame_lines(), vec!["ucinewgame\r\n".to_owned(), "isready\r\n".to_owned()]);
    engine.recv("readyok");
    b.acquired(2);
    assert_eq!(engine.send(&UciIn::Isready), Ok(Some("isready\r\n".to_owned())));
    assert_eq!(engine.recv("readyok"), Some(UciOut::Readyok));
    assert!(engine.is_idle());
}

#[test]
fn stop_from_a_bystander_is_ignored() {
    let mut c = Connection::new();
    assert!(matches!(c.on_event(Event::Text("stop".to_owned())), Action::Nothing));
    assert!(!c.is_held());
    c.acquired(3);
    assert!(matches!(c.on_event(Event::Text("stop".to_owned())), Action::Forward(UciIn::Stop)));
}

#[test]
fn binary_frame_ends_the_connection() {
    let mut c = Connection::new();
    assert!(matches!(c.on_event(Event::Binary), Action::Fail(Failure::BinaryNotSupported)));
}

#[test]
fn heartbeat_ends_a_silent_connection() {
    let mut c = Connection::new();
    assert!(matches!(c.on_event(Event::Tick), Action::SendPing));
    assert!(matches!(c.on_event(Event::Pong), Action::Nothing));
    assert!(matches!(c.on_event(Event::Tick), Action::SendPing));
    assert!(matches!(c.on_event(Event::Tick), Action::End));
}

#[test]
fn other_events() {
    let mut c = Connection::new();
    match c.on_event(Event::Ping(vec![1, 2])) {
        Action::SendPong(d) => assert_eq!(d, vec![1, 2]),
        _ => panic!("expected pong"),
    }
    assert!(matches!(c.on_event(Event::Closed), Action::End));
    assert!(matches!(c.on_event(Event::SocketError), Action::Fail(Failure::Socket)));
    assert!(matches!(c.on_event(Event::Text("go depth x".to_owned())), Action::Fail(Failure::Protocol(_))));
    assert!(matches!(c.on_event(Event::Text("   ".to_owned())), Action::Nothing));
    let name = UciOptionName("x".to_owned());
    assert!(!name.is_safe());
}
