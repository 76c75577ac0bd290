//! What the request handlers decide, apart from the storage and the tokens
//! that they decide it about.

pub mod handler;
