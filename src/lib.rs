//! Finds the Markdown links that point at a file, and works out how to
//! rewrite them when that file moves.
//!
//! The library holds the rules: how link tokens are found in a document,
//! which of them refer to a file, and how a link's text changes when its
//! target or its document moves. Reading directories and files and
//! canonicalizing paths is left to the caller, who hands the results in.

pub mod commands;
pub mod error;
pub mod find;
pub mod paths;
pub mod reference;
pub mod rewrite;
pub mod scan;
pub mod text;

pub use commands::{handle_command, Action, Commands};
pub use error::MdrefError;
pub use find::{document_links, link_names_target, reference_candidates, select_references};
pub use paths::{is_markdown, relative_path, resolve_link};
pub use reference::Reference;
pub use rewrite::{
    outgoing_link_path, parent_dir, replace_link_in_text, rewritten_outgoing_link, update_link,
    update_reference,
};
pub use scan::scan_links;
