//! Circulation core of a lending library: the rules that decide whether a
//! checkout or a checkin is legal, the ledger of accepted transitions, an
//! in-memory library on which a transition is one atomic step, the retry
//! protocol that carries a transition through a transactional store, and
//! the proofs of what holds of every state that requests can reach, one
//! after the other or racing.

pub mod catalogue;
pub mod clock;
pub mod concurrency;
pub mod engine;
pub mod isbn;
pub mod laws;
pub mod ledger;
pub mod library;
pub mod model;
pub mod rules;
