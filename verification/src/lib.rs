//! Split-horizon DNS forwarding: the decision engine and the tables it consults.
//!
//! The crate is verified with Verus. It does no I/O: the engine says whom to
//! ask, and is handed the answers. Messages are decoded and encoded by
//! `hickory_proto`; the few calls into it stand at the end of `dns`, each in
//! a function of its own whose body the verifier does not read.

pub mod conf;
pub mod diverge;
pub mod dns;
pub mod domain_map;
pub mod ip4set;
pub mod ip_map;
pub mod ipset;
pub mod net;
pub mod ptr;
pub mod resolver;
pub mod text;
pub mod utils;
