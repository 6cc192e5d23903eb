use vstd::prelude::*;

pub mod ass;
pub mod byte_helpers;
pub mod byte_lines;
pub mod options;
pub mod srt;
pub mod error;
pub mod find;
pub mod lines;
pub mod lits;
pub mod time;
pub mod traits;
mod vecs;
pub mod vtt;

pub use error::{Error, Result};
pub use byte_lines::ByteLines;
pub use options::WriteOptions;
pub use time::Time;
pub use traits::StreamingIterator;

verus! {

} // verus!
