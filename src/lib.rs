//! Ciphertext-only cryptanalysis of an affine cipher over the 29 runes of the
//! Gematria Primus, scored against a quadgram language model.
//!
//! - `alphabet`: the runes and their Latin transliteration, coded `0..=28`.
//! - `affine`: the keyed transform `y = a * (x + b) mod 29` and its laws.
//! - `ngram`: frequency-table lines parsed and encoded into counts.
//! - `search`: the 812 keys, the scoring windows, and the ranking of keys
//!   by score, best first.
//!
//! Turning counts into log-probabilities and summing them over the windows
//! is floating-point work that the caller does; it hands `rank` one integer
//! per key that orders the keys as their scores do.

pub mod affine;
pub mod alphabet;
pub mod ngram;
pub mod search;

pub use affine::{affine, do_math};
pub use alphabet::{encode_clusters_in, only_uppercase, r2v, symbol_of, v2e, Script};
pub use ngram::{CountTable, Row, TableError};
pub use search::{candidates, quadgrams, rank, Candidate, ScoredKey, KEY_COUNT};
