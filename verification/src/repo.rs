//! The repository that the hooks run in, whichever version control system keeps it.

mod context;
mod executable;
mod files;

pub use context::{
    apply_git_env, current, git_context, has_staging_area, hooks_dir, jj_context, law_detection,
    law_detects_git, law_detects_nothing, law_detects_workspace, law_git_env, law_repository_kind,
    law_staging_area, law_workspace_is_root, repository, repository_of, requires_staged_configs, root,
    run_detection, should_stash_by_default_run, steps_to_detect, with_git_env, DetectError,
    Detection, RepoContext, RepoKind, RepoView,
};
pub use executable::{
    all_utf8, are_among, below, entries, executable_entries, executable_entry, executable_files,
    executable_files_cmd, file_mode_cmd, first_utf8_error, is_executable, law_below, law_entries,
    law_executable_entries, law_executable_entry, law_executable_files,
    law_executable_files_by_set, law_executable_is_among, law_git_commands, law_is_executable,
    law_more_executable_files, law_not_tracked, law_odd_entry, law_recorded_entry,
    law_tracked_otherwise, lemma_first_utf8_error, ls_stage_cmd, recorded_mode, recorded_path,
    says_tracked, tracks_executable_bit, tracks_executable_bit_cmd,
};
pub use files::{
    added_files, asks_jj, changed_files_between, conflicted_files, default_files, is_context_error,
    is_some_unless_empty, ls_files, ConflictReply, ConflictSearch, FileQuery, GitQuery,
};

use crate::jj;
use crate::text::InvalidUtf8;
use vstd::prelude::*;

verus! {

/// Why something about the repository could not be found out.
#[derive(Debug)]
pub enum Error {
    /// No repository was detected; the message says why.
    Context(String),
    Jj(jj::Error),
    /// Git failed; the message says how.
    Git(String),
    /// The output of Git is not text.
    Utf8(InvalidUtf8),
}

} // verus!
