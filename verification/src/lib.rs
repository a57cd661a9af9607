//! Small programs from a Rust learning journey, with their logic verified:
//! rectangle areas, the decisions of a number-guessing game, the argument
//! handling of a tiny HTTP client, and the framing layer of a key-value
//! server protocol.

pub mod shapes;
pub mod kv;
pub mod httpie;
pub mod guessing;
