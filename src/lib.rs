//! A password-less authentication service built on the Chaum–Pedersen
//! zero-knowledge proof of knowledge of a discrete logarithm, over a prime-order
//! subgroup of the integers modulo a safe prime (DL) or over SECP256K1 (EC).
pub mod client;
pub mod codec;
pub mod dispatch;
pub mod dl;
pub mod ec;
pub mod frame;
pub mod group;
pub mod num;
pub mod params;
pub mod prover;
pub mod server;
pub mod verification;
pub mod wire;
