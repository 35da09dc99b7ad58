//! Totals the byte sizes of files matched by glob patterns: the check of the
//! patterns, the joining of their matches, the selection of regular files,
//! the fold of per-file outcomes into a summary, and the human-scaled
//! rendering of byte counts.

pub mod pattern;
pub mod pipeline;
pub mod report;
pub mod size;

pub use pattern::{check_patterns, PatternSyntaxError};
pub use pipeline::{collect_outcomes, combine_matches, select_files};
pub use report::{
    file_line, found_line, no_files_notice, summarize, summary_lines, Outcome, Summary,
    TotalOverflow,
};
pub use size::{decimal_string, format_size};
