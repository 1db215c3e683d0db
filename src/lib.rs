//! Segwit v0 output descriptors: `wsh(...)` over a script policy and `wpkh(...)`
//! over one key. Each can be built, checked, printed with its checksum, parsed
//! back, turned into its output script and address, and satisfied from a source
//! of signatures, with a bound on the satisfaction's weight.
//!
//! - `checksum`: the 8-character descriptor checksum.
//! - `key`: public keys as their SEC serialization, and the bitcoin calls on them.
//! - `script`: pushes, small integers, and the witness-script-hash program.
//! - `policy`: `pk`, `multi` and `sortedmulti` policies, and signature sources.
//! - `segwitv0`: the `Wsh` and `Wpkh` descriptors.
//! - `text`: the descriptor grammar, printing and parsing.
//! - `laws`: properties that relate several operations.
pub mod checksum;
pub mod error;
pub mod key;
pub mod laws;
pub mod policy;
pub mod script;
pub mod segwitv0;
pub mod text;

pub use crate::segwitv0::{Wpkh, Wsh, WshInner};
