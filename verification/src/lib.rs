//! Change-file merge for WEB-style literate sources.
//!
//! A base text is loaded as a sequence of lines; each change file is parsed
//! into `@x`/`@y`/`@z` sections and merged into the text by locating every
//! section's old block, in order, and splicing in its new block.

pub mod config;
pub mod line;
pub mod changefile;
pub mod merge;
pub mod render;

pub use config::Config;
pub use line::FileLine;
pub use line::split_filelines;
pub use line::u8_slice_trim_start;
pub use changefile::ChangeFileSection;
pub use changefile::ParseError;
pub use changefile::parse_changefile;
pub use merge::NoMatchError;
pub use merge::apply_changefile;
pub use render::render_listing;
pub use render::usize_str_len;
pub use render::write_filelines;
