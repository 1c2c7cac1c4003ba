//! Phrase-aware tag search over a post store: query splitting, phrase
//! scoring, winner-take-all ranking, paging, indexing and a proof-of-work gate.
pub mod keys;
pub mod order;
pub mod pager;
pub mod phrases;
pub mod pow;
pub mod rank;
pub mod schemas;
pub mod search;
pub mod text;
