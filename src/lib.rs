//! Re-renders bunyan-style JSON log records in human- or machine-oriented
//! formats, with severity filtering.
pub mod text;
pub mod json;
pub mod level;
pub mod extras;
pub mod time;
pub mod style;
pub mod record;
pub mod decode;
pub mod parse;
pub mod process;
