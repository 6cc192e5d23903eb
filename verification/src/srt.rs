//! A SubRip subtitles module.
pub mod block;
pub mod canonical;
pub mod it;
pub mod line;
pub mod standard;
pub mod subtitles;
pub mod text_split;
pub mod write;

pub use block::SrtBlock;
pub use line::{SrtLine, SrtLineType};
pub use subtitles::SrtSubtitles;
