use remote_uci::classify::{ClientCommand, EngineCommand};
use remote_uci::config::{
    derive_max_hash, derive_max_threads, get_external_protocol, hash_for_memory, pext_is_fast,
    secret_from_file, socket_url, CpuFeatures, EngineOpts, ExternalWorkerOpts,
};
use remote_uci::secret::{constant_time_eq, Secret};
use std::path::PathBuf;

fn no_features() -> CpuFeatures {
    CpuFeatures {
        avx512dq: false,
        avx512vl: false,
        avx512vnni: false,
        avx512f: false,
        avx512bw: false,
        bmi2: false,
        fast_pext: false,
        avx2: false,
        sse41: false,
        ssse3: false,
        sse3: false,
        popcnt: false,
    }
}

fn opts() -> EngineOpts {
    EngineOpts {
        engine_x86_64_vnni512: Some(PathBuf::from("vnni")),
        engine_x86_64_avx512: None,
        engine_x86_64_bmi2: Some(PathBuf::from("bmi2")),
        engine_x86_64_avx2: Some(PathBuf::from("avx2")),
        engine_x86_64_sse41_popcnt: None,
        engine_x86_64_ssse3: None,
        engine_x86_64_sse3_popcnt: None,
        engine: PathBuf::from("plain"),
    }
}

#[test]
fn best_engine_follows_the_features() {
    assert_eq!(opts().best(&no_features()), PathBuf::from("plain"));
    let mut f = no_features();
    f.avx2 = true;
    f.sse41 = true;
    f.ssse3 = true;
    f.sse3 = true;
    f.popcnt = true;
    assert_eq!(opts().best(&f), PathBuf::from("avx2"));
    f.bmi2 = true;
    assert_eq!(opts().best(&f), PathBuf::from("avx2"));
    f.fast_pext = true;
    assert_eq!(opts().best(&f), PathBuf::from("bmi2"));
    f.avx512dq = true;
    f.avx512vl = true;
    f.avx512vnni = true;
    f.avx512f = true;
    f.avx512bw = true;
    assert_eq!(opts().best(&f), PathBuf::from("vnni"));
}

#[test]
fn pext_speed() {
    assert!(pext_is_fast(Some("GenuineIntel"), Some(6)));
    assert!(!pext_is_fast(Some("AuthenticAMD"), Some(0x17)));
    assert!(pext_is_fast(Some("AuthenticAMD"), Some(0x19)));
    assert!(pext_is_fast(None, None));
}

#[test]
fn urls_and_limits() {
    assert_eq!(get_external_protocol(true), "wss");
    assert_eq!(get_external_protocol(false), "ws");
    assert_eq!(socket_url(false, "localhost:9670"), "ws://localhost:9670/socket");
    assert_eq!(hash_for_memory(3 * 1024 * 1024), 1024);
    assert_eq!(hash_for_memory(4 * 1024 * 1024), 2048);
    assert_eq!(hash_for_memory(0), 0);
    assert_eq!(derive_max_threads(Some(512), None, 8), 8);
    assert_eq!(derive_max_threads(Some(512), Some(4), 8), 4);
    assert_eq!(derive_max_threads(Some(2), None, 8), 2);
    assert_eq!(derive_max_hash(Some(33554432), Some(256), 16 * 1024 * 1024), 256);
    assert_eq!(derive_max_hash(Some(33554432), None, 16 * 1024 * 1024), 8192);
}

#[test]
fn registration_url_encodes_fields() {
    let spec = ExternalWorkerOpts {
        url: "ws://localhost:9670/socket".to_owned(),
        secret: Secret("s3cr et".to_owned()),
        name: "Fish 1".to_owned(),
        max_threads: 8,
        max_hash: 512,
        variants: vec!["chess".to_owned(), "atomic".to_owned()],
        official_stockfish: true,
    };
    assert_eq!(
        spec.registration_url(),
        "https://lichess.org/analysis/external?url=ws%3A%2F%2Flocalhost%3A9670%2Fsocket&secret=s3cr+et&name=Fish+1&maxThreads=8&maxHash=512&variants=chess%2Catomic&officialStockfish=true"
    );
    let plain = ExternalWorkerOpts { variants: vec![], official_stockfish: false, ..spec };
    assert_eq!(
        plain.registration_url(),
        "https://lichess.org/analysis/external?url=ws%3A%2F%2Flocalhost%3A9670%2Fsocket&secret=s3cr+et&name=Fish+1&maxThreads=8&maxHash=512"
    );
}

#[test]
fn secrets() {
    assert!(constant_time_eq("abcdef", "abcdef"));
    assert!(!constant_time_eq("abcdef", "abcdeg"));
    assert!(!constant_time_eq("abc", "abcd"));
    assert!(Secret("x".to_owned()) == Secret("x".to_owned()));
    assert_eq!(Secret::from_bits(0xff).0, "000000000000000000000000000000ff");
    assert_eq!(Secret::from_bits(u128::MAX).0.len(), 32);
    assert!(secret_from_file("1234567".to_owned()).is_none());
    assert_eq!(secret_from_file("12345678".to_owned()).unwrap().0, "12345678");
}

#[test]
fn classify_raw_lines() {
    assert_eq!(ClientCommand::classify(b"go infinite"), Some(ClientCommand::Go));
    assert_eq!(ClientCommand::classify(b"uci"), Some(ClientCommand::Uci));
    assert_eq!(ClientCommand::classify(b"isready"), Some(ClientCommand::Isready));
    assert_eq!(ClientCommand::classify(b"stop"), Some(ClientCommand::Stop));
    assert_eq!(ClientCommand::classify(b"gox"), None);
    assert_eq!(EngineCommand::classify(b"bestmove e2e4"), Some(EngineCommand::Bestmove));
    assert_eq!(EngineCommand::classify(b"uciok"), Some(EngineCommand::Uciok));
    assert_eq!(EngineCommand::classify(b"readyok"), Some(EngineCommand::Readyok));
    assert_eq!(EngineCommand::classify(b"info depth 1"), Some(EngineCommand::Info));
    assert_eq!(EngineCommand::classify(b""), None);
}
