//! Terminal-native ticket notes kept in an Obsidian vault: the verified core.
pub mod text;
pub mod vault;
pub mod frontmatter;
pub mod ftypes;
pub mod markdown;
pub mod section;
pub mod status;
pub mod template;
pub mod pattern;
pub mod config;
pub mod git;
pub mod note;
pub mod list;
pub mod commands;
pub mod new_note;
pub mod cli;
pub mod context;
