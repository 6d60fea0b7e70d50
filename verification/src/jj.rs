//! Jujutsu workspaces: finding them, and listing their files.

mod backing;
mod files;
mod workspace;

pub use backing::{
    backing_git_dir, git_dir_of_repo, git_target_path, law_backing_git_dir, law_named_path,
    law_named_repository, law_no_git_dir, law_primary_workspace, law_secondary_workspace,
    named_path, repo_dir, repo_entry, repo_path, resolve_backing_git_dir, resolve_repo_dir,
    run_git_dir_search, store_dir, GitDirSearch, RepoEntry,
};
pub use files::{
    changed_args, changed_between_args, conflicted_lines, conflicted_lines_of, conflicted_path,
    fits_line, fits_status_line, get_changed_files, get_changed_files_between,
    get_conflicted_files, is_here, is_query, jj_cmd, jj_command, law_conflicted_line,
    law_conflicted_lines, law_conflicted_lines_add_up, law_conflicted_path, law_conflicted_word,
    law_diff_args, law_is_here, law_lines_round_trip, law_ls_files_args, law_one_conflicted_line,
    law_one_path_line, law_outputs_add_up, law_path_lines_add_up, law_path_lines_round_trip,
    law_relative_path, law_relative_to_cwd, ls_files, ls_files_args, one_per_line,
    parse_path_lines, path_lines,
    path_lines_of, relative_path, relative_to_cwd, status_lines, types_args, with_conflict,
    JjQuery, Listing,
};
pub use workspace::{
    ancestor, find_workspace_root, goes_up, has_jj, is_nearest, is_workspace_of, jj_dir,
    law_jj_dir, law_nearest_workspace, law_search_ends, law_workspace_found,
    law_workspace_not_found, lemma_nearest_is_found, nearest_workspace, none_above, run_search,
    WorkspaceSearch,
};

use vstd::prelude::*;

verus! {

/// Why something about Jujutsu could not be found out. Each holds the message of its cause.
#[derive(Debug)]
pub enum Error {
    /// A command failed.
    Command(String),
    /// There is no `jj` to run.
    JjNotFound(String),
    /// A file could not be read or resolved.
    Io(String),
}

impl Error {
    pub open spec fn text(self) -> Seq<char> {
        match self {
            Error::Command(cause) => cause@,
            Error::JjNotFound(cause) => "Failed to find Jujutsu (jj): "@ + cause@,
            Error::Io(cause) => cause@,
        }
    }

    /// The message for the user.
    pub fn message(&self) -> (text: String)
        ensures
            text@ == self.text(),
            match *self {
                Error::Command(cause) => text@ == cause@,
                Error::JjNotFound(cause) => text@ == "Failed to find Jujutsu (jj): "@ + cause@,
                Error::Io(cause) => text@ == cause@,
            },
    {
        match self {
            Error::Command(cause) => cause.clone(),
            Error::JjNotFound(cause) => {
                let mut text = "Failed to find Jujutsu (jj): ".to_owned();
                text.append(cause.as_str());
                text
            },
            Error::Io(cause) => cause.clone(),
        }
    }
}

} // verus!
