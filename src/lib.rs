//! Analysis of kernel firewall denial logs: a line parser that turns log
//! lines into denial records, an aggregator that counts them, and a text
//! renderer for the resulting report.

pub mod analysis;
pub mod counting;
pub mod parser;
pub mod render;
pub mod text;
pub mod timestamp;

pub use analysis::{analyze, AnalysisReport};
pub use parser::{parse_line, parse_line_at, DenialRecord};
pub use render::{render_text, report_lines, Format};
pub use timestamp::Timestamp;
