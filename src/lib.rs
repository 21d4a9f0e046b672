pub mod text;
pub mod number;
pub mod uci;
pub mod parser;
pub mod encode;
pub mod engine;
pub mod session;
pub mod secret;
pub mod config;
pub mod classify;
pub mod roundtrip;
