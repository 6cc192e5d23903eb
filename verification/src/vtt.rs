//! A WebVTT subtitles module.
pub mod it;
pub mod canonical;
pub mod line;
pub mod write;

pub use line::{VttLine, VttLineType};
