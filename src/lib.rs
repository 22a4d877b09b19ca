//! Merges dotenv definition files into one set of `KEY=VALUE` lines.
//!
//! Regular files are folded in order, a later file replacing the values of an
//! earlier one; a priority file, where one is designated, holds the final value of
//! every key it defines. Files are handed over by their content; a file that does
//! not exist is `None` and contributes nothing.
pub mod laws;
pub mod merge;
pub mod model;
pub mod parser;

pub use merge::{merge_entries, merge_env_files, MergeError};
pub use parser::read_env_file;
