//! A web-of-trust library: signed identity documents, a friends table with
//! key pinning, and a depth-weighted trust score.
pub mod codec;
pub mod crypto;
pub mod friend;
pub mod lines;
pub mod me;
pub mod publish;
pub mod schema;
pub mod score;
pub mod table;
