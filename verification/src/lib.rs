//! Core of a contributor-changelog generator: commit records fetched from a
//! hosting platform are parsed into entries (summary, pull-request number,
//! author identity), filtered against an exclude list and an organization
//! member list, grouped by author, and rendered as a markdown document.
//!
//! Everything here is pure: fetching the commit range, reading configuration
//! and writing the resulting document are left to the surrounding program.

pub mod data;
pub mod entries;
pub mod grouping;
pub mod parser;
pub mod render;
pub mod text;

pub use data::{
    Commit, CommitAuthor, CommitMeta, CommitMetaAuthor, CompareCommitsResponse, Entry, Member,
    MsgAndPr,
};
pub use entries::{build_entry, create_entries, default_excludes, keep};
pub use grouping::{group_by_author, Group};
pub use parser::parse_msg_and_pr;
pub use render::{create_output, get_pr_link};
