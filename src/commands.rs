//! The operations offered on the command line, and what each one asks for.
use vstd::prelude::*;

use crate::paths::{path_with_file_name, with_file_name};

verus! {

/// A command as given on the command line.
pub enum Commands {
    /// Find the references to a file and the links in it.
    Find { filepath: String, root: Option<String> },
    /// Give a file a new name in its directory and update the references.
    Rename { old: String, new: String, root: Option<String> },
    /// Move a file and update the references.
    Mv { source: String, dest: String, root: Option<String> },
}

/// What a command comes to, with its defaults filled in.
pub enum Action {
    /// List the references to `filepath` under `root`, then its own links.
    Find { filepath: String, root: String },
    /// Move `old` to `new` under `root`, reported as a rename.
    Rename { old: String, new: String, root: String },
    /// Move `source` to `dest` under `root`.
    Move { source: String, dest: String, root: String },
}

/// The root directory of a command: the one given, else the current one.
pub open spec fn root_text(root: Option<String>) -> Seq<char> {
    match root {
        Some(r) => r@,
        None => "."@,
    }
}

fn root_or_current(root: Option<String>) -> (r: String)
    ensures
        r@ == root_text(root),
{
    match root {
        Some(r) => r,
        None => ".".to_owned(),
    }
}

/// What the command asks for: the root defaults to the current directory,
/// and a rename keeps the file in its directory under the new name.
pub fn handle_command(command: Commands) -> (r: Action)
    ensures
        match command {
            Commands::Find { filepath, root } => r matches Action::Find { filepath: f, root: d }
                && f@ == filepath@ && d@ == root_text(root),
            Commands::Rename { old, new, root } => r matches Action::Rename {
                old: o,
                new: n,
                root: d,
            } && o@ == old@ && n@ == path_with_file_name(old@, new@) && d@ == root_text(root),
            Commands::Mv { source, dest, root } => r matches Action::Move {
                source: s,
                dest: t,
                root: d,
            } && s@ == source@ && t@ == dest@ && d@ == root_text(root),
        },
{
    match command {
        Commands::Find { filepath, root } => Action::Find { filepath, root: root_or_current(root) },
        Commands::Rename { old, new, root } => {
            let new_path = with_file_name(old.as_str(), new.as_str());
            Action::Rename { old, new: new_path, root: root_or_current(root) }
        },
        Commands::Mv { source, dest, root } => Action::Move {
            source,
            dest,
            root: root_or_current(root),
        },
    }
}

} // verus!
