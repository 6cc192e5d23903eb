//! A SubStation Alpha subtitles module.
pub mod from_srt;
pub mod canonical;
pub mod it;
pub mod line;
pub mod lines;
pub mod time;
pub mod write;

pub use line::AssLine;
pub use lines::AssLines;
