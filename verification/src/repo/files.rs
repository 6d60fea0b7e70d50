//! Which files a run is about, asked of the version control system that keeps the repository.

use super::{current, DetectError, Error, RepoContext, RepoKind};
use crate::jj;
use crate::jj::{
    changed_args, changed_between_args, conflicted_lines, is_query, ls_files_args, path_lines,
    relative_path, types_args, JjQuery, Listing,
};
use crate::path::{components, FilePath};
use crate::process::env_map;
use crate::split::views;
use crate::text::lossy_utf8;
use vstd::prelude::*;
use vstd::utf8::{decode_utf8, encode_utf8, valid_utf8};

verus! {

/// A list of files that Git is to give.
#[derive(Debug)]
pub enum GitQuery {
    /// The files that are added in the index.
    Added { root: FilePath },
    /// The files that are staged.
    Staged { root: FilePath },
    /// The files that differ between two revisions.
    ChangedBetween { old_rev: String, new_rev: String, root: FilePath },
    /// The tracked files below `path`.
    LsFiles { cwd: FilePath, path: FilePath },
}

/// A list of files, by who is to give it.
#[derive(Debug)]
pub enum FileQuery {
    Git(GitQuery),
    Jujutsu(JjQuery),
}

/// The error if no repository was detected.
pub open spec fn is_context_error<T>(
    res: Result<T, Error>,
    repo: Result<RepoContext, DetectError>,
) -> bool {
    &&& repo is Err
    &&& res matches Err(Error::Context(message)) && message@ == repo->Err_0.text()
}

/// Whether Jujutsu is asked with this command, or was not found.
pub open spec fn asks_jj(
    res: Result<FileQuery, Error>,
    jj: Result<FilePath, String>,
    summary: Seq<char>,
    dir: Seq<u8>,
    args: Seq<Seq<u8>>,
    listing: Listing,
) -> bool {
    match res {
        Ok(FileQuery::Jujutsu(query)) => is_query(Ok(query), jj, summary, dir, args, listing),
        Err(Error::Jj(err)) => is_query(Err(err), jj, summary, dir, args, listing),
        _ => false,
    }
}

fn ask_jj(query: Result<JjQuery, jj::Error>) -> (res: Result<FileQuery, Error>)
    ensures
        match query {
            Ok(q) => res == Ok::<FileQuery, Error>(FileQuery::Jujutsu(q)),
            Err(err) => res == Err::<FileQuery, Error>(Error::Jj(err)),
        },
{
    match query {
        Ok(query) => Ok(FileQuery::Jujutsu(query)),
        Err(err) => Err(Error::Jj(err)),
    }
}

fn kind_of(repo: &Result<RepoContext, DetectError>) -> (res: Result<RepoKind, Error>)
    ensures
        match *repo {
            Ok(found) => res == Ok::<RepoKind, Error>(found@.kind),
            Err(_) => is_context_error(res, *repo),
        },
{
    match current(repo) {
        Ok(found) => Ok(found.kind()),
        Err(message) => Err(Error::Context(message)),
    }
}

/// The files that count as new: those added in the index of Git, or those that changed in the
/// working copy of a Jujutsu workspace, which has no index.
pub fn added_files(
    repo: &Result<RepoContext, DetectError>,
    jj: &Result<FilePath, String>,
    workspace_root: &FilePath,
) -> (res: Result<FileQuery, Error>)
    ensures
        match *repo {
            Ok(found) => match found@.kind {
                RepoKind::Git => res matches Ok(FileQuery::Git(GitQuery::Added { root })) && root@
                    == workspace_root@,
                RepoKind::Jujutsu => asks_jj(
                    res,
                    *jj,
                    "jj diff"@,
                    workspace_root@,
                    changed_args(),
                    Listing::Paths,
                ),
            },
            Err(_) => is_context_error(res, *repo),
        },
        (*repo) matches Ok(found) ==> (found@.kind == RepoKind::Jujutsu ==> ((*jj) matches Ok(
            program,
        ) ==> {
            &&& res matches Ok(FileQuery::Jujutsu(query))
            &&& query.cmd.program@ == program@
            &&& query.cmd.summary@ == "jj diff"@
            &&& query.cmd.current_dir matches Some(dir) && dir@ == workspace_root@
            &&& env_map(query.cmd.envs@) == Map::<Seq<char>, Seq<u8>>::empty()
            &&& query.cmd.check == Some(true)
            &&& query.listing == Listing::Paths
            &&& views(query.cmd.args@) == seq![
                encode_utf8("diff"@),
                encode_utf8("-r"@),
                encode_utf8("@"@),
                encode_utf8("--name-only"@),
            ]
        })),
        (*repo) matches Ok(found) ==> (found@.kind == RepoKind::Jujutsu ==> ((*jj) matches Err(
            cause,
        ) ==> res matches Err(Error::Jj(jj::Error::JjNotFound(err))) && err == cause)),
        (*repo) matches Err(err) ==> res matches Err(Error::Context(message)) && message@
            == err.text(),
{
    match kind_of(repo) {
        Ok(RepoKind::Git) => Ok(FileQuery::Git(GitQuery::Added { root: workspace_root.clone() })),
        Ok(RepoKind::Jujutsu) => ask_jj(jj::get_changed_files(jj, workspace_root)),
        Err(err) => Err(err),
    }
}

/// The files of a run for which none were given: what is staged in Git, or what changed in the
/// working copy of a Jujutsu workspace.
pub fn default_files(
    repo: &Result<RepoContext, DetectError>,
    jj: &Result<FilePath, String>,
    workspace_root: &FilePath,
) -> (res: Result<FileQuery, Error>)
    ensures
        match *repo {
            Ok(found) => match found@.kind {
                RepoKind::Git => res matches Ok(FileQuery::Git(GitQuery::Staged { root })) && root@
                    == workspace_root@,
                RepoKind::Jujutsu => asks_jj(
                    res,
                    *jj,
                    "jj diff"@,
                    workspace_root@,
                    changed_args(),
                    Listing::Paths,
                ),
            },
            Err(_) => is_context_error(res, *repo),
        },
        (*repo) matches Ok(found) ==> (found@.kind == RepoKind::Jujutsu ==> ((*jj) matches Ok(
            program,
        ) ==> {
            &&& res matches Ok(FileQuery::Jujutsu(query))
            &&& query.cmd.program@ == program@
            &&& query.cmd.summary@ == "jj diff"@
            &&& query.cmd.current_dir matches Some(dir) && dir@ == workspace_root@
            &&& env_map(query.cmd.envs@) == Map::<Seq<char>, Seq<u8>>::empty()
            &&& query.cmd.check == Some(true)
            &&& query.listing == Listing::Paths
            &&& views(query.cmd.args@) == seq![
                encode_utf8("diff"@),
                encode_utf8("-r"@),
                encode_utf8("@"@),
                encode_utf8("--name-only"@),
            ]
        })),
        (*repo) matches Ok(found) ==> (found@.kind == RepoKind::Jujutsu ==> ((*jj) matches Err(
            cause,
        ) ==> res matches Err(Error::Jj(jj::Error::JjNotFound(err))) && err == cause)),
        (*repo) matches Err(err) ==> res matches Err(Error::Context(message)) && message@
            == err.text(),
{
    match kind_of(repo) {
        Ok(RepoKind::Git) => Ok(FileQuery::Git(GitQuery::Staged { root: workspace_root.clone() })),
        Ok(RepoKind::Jujutsu) => ask_jj(jj::get_changed_files(jj, workspace_root)),
        Err(err) => Err(err),
    }
}

/// The files that changed between two revisions, which each system reads in its own way.
pub fn changed_files_between(
    repo: &Result<RepoContext, DetectError>,
    jj: &Result<FilePath, String>,
    old_rev: &str,
    new_rev: &str,
    workspace_root: &FilePath,
) -> (res: Result<FileQuery, Error>)
    ensures
        match *repo {
            Ok(found) => match found@.kind {
                RepoKind::Git => {
                    &&& res matches Ok(
                        FileQuery::Git(GitQuery::ChangedBetween { old_rev: a, new_rev: b, root }),
                    )
                    &&& a@ == old_rev@
                    &&& b@ == new_rev@
                    &&& root@ == workspace_root@
                },
                RepoKind::Jujutsu => asks_jj(
                    res,
                    *jj,
                    "jj diff"@,
                    workspace_root@,
                    changed_between_args(old_rev@, new_rev@),
                    Listing::Paths,
                ),
            },
            Err(_) => is_context_error(res, *repo),
        },
        (*repo) matches Ok(found) ==> (found@.kind == RepoKind::Jujutsu ==> ((*jj) matches Ok(
            program,
        ) ==> {
            &&& res matches Ok(FileQuery::Jujutsu(query))
            &&& query.cmd.program@ == program@
            &&& query.cmd.summary@ == "jj diff"@
            &&& query.cmd.current_dir matches Some(dir) && dir@ == workspace_root@
            &&& env_map(query.cmd.envs@) == Map::<Seq<char>, Seq<u8>>::empty()
            &&& query.cmd.check == Some(true)
            &&& query.listing == Listing::Paths
            &&& views(query.cmd.args@) == seq![
                encode_utf8("diff"@),
                encode_utf8("--from"@),
                encode_utf8(old_rev@),
                encode_utf8("--to"@),
                encode_utf8(new_rev@),
                encode_utf8("--name-only"@),
            ]
        })),
        (*repo) matches Ok(found) ==> (found@.kind == RepoKind::Jujutsu ==> ((*jj) matches Err(
            cause,
        ) ==> res matches Err(Error::Jj(jj::Error::JjNotFound(err))) && err == cause)),
        (*repo) matches Err(err) ==> res matches Err(Error::Context(message)) && message@
            == err.text(),
{
    match kind_of(repo) {
        Ok(RepoKind::Git) => Ok(
            FileQuery::Git(
                GitQuery::ChangedBetween {
                    old_rev: old_rev.to_owned(),
                    new_rev: new_rev.to_owned(),
                    root: workspace_root.clone(),
                },
            ),
        ),
        Ok(RepoKind::Jujutsu) => ask_jj(
            jj::get_changed_files_between(jj, old_rev, new_rev, workspace_root),
        ),
        Err(err) => Err(err),
    }
}

/// The tracked files below `path`.
pub fn ls_files(
    repo: &Result<RepoContext, DetectError>,
    jj: &Result<FilePath, String>,
    cwd: &FilePath,
    path: &FilePath,
) -> (res: Result<FileQuery, Error>)
    ensures
        match *repo {
            Ok(found) => match found@.kind {
                RepoKind::Git => {
                    &&& res matches Ok(FileQuery::Git(GitQuery::LsFiles { cwd: dir, path: below }))
                    &&& dir@ == cwd@
                    &&& below@ == path@
                },
                RepoKind::Jujutsu => asks_jj(
                    res,
                    *jj,
                    "jj file list"@,
                    cwd@,
                    ls_files_args(cwd@, path@),
                    Listing::Paths,
                ),
            },
            Err(_) => is_context_error(res, *repo),
        },
        (*repo) matches Ok(found) ==> (found@.kind == RepoKind::Jujutsu ==> ((*jj) matches Ok(
            program,
        ) ==> {
            &&& res matches Ok(FileQuery::Jujutsu(query))
            &&& query.cmd.program@ == program@
            &&& query.cmd.summary@ == "jj file list"@
            &&& query.cmd.current_dir matches Some(dir) && dir@ == cwd@
            &&& env_map(query.cmd.envs@) == Map::<Seq<char>, Seq<u8>>::empty()
            &&& query.cmd.check == Some(true)
            &&& query.listing == Listing::Paths
            &&& ({
                let relative = relative_path(cwd@, path@);
                let args = query.cmd.args@;
                let here = relative.len() == 0 || components(relative) == seq![seq![0x2eu8]];
                &&& args.len() == (if here {
                    2int
                } else {
                    3int
                })
                &&& args[0]@ == encode_utf8("file"@)
                &&& args[1]@ == encode_utf8("list"@)
                &&& !here ==> args[2]@ == relative
            })
        })),
        (*repo) matches Ok(found) ==> (found@.kind == RepoKind::Jujutsu ==> ((*jj) matches Err(
            cause,
        ) ==> res matches Err(Error::Jj(jj::Error::JjNotFound(err))) && err == cause)),
        (*repo) matches Err(err) ==> res matches Err(Error::Context(message)) && message@
            == err.text(),
{
    match kind_of(repo) {
        Ok(RepoKind::Git) => Ok(
            FileQuery::Git(GitQuery::LsFiles { cwd: cwd.clone(), path: path.clone() }),
        ),
        Ok(RepoKind::Jujutsu) => ask_jj(jj::ls_files(jj, cwd, path)),
        Err(err) => Err(err),
    }
}

// ---------------------------------------------------------------------------------------------
// Conflicts.

/// The search for conflicted files.
#[derive(Debug)]
pub enum ConflictSearch {
    /// Whether Git is in a merge conflict is to be told.
    InMergeConflict { root: FilePath },
    /// It is; the conflicted files are to be told.
    GitConflicted { root: FilePath },
    /// The output of the command is to be told.
    JjConflicted { query: JjQuery },
    /// The conflicted files, if there is a conflict.
    Done { result: Result<Option<Vec<FilePath>>, Error> },
}

/// What the search for conflicted files is told. A failure comes with its message.
#[derive(Debug)]
pub enum ConflictReply {
    Flag(Result<bool, String>),
    Files(Result<Vec<FilePath>, String>),
    Output(Result<Vec<u8>, jj::Error>),
}

/// Looks for conflicted files. Git has a state of merge conflict as a whole; Jujutsu has conflicted
/// paths in the working copy.
pub fn conflicted_files(
    repo: &Result<RepoContext, DetectError>,
    jj: &Result<FilePath, String>,
    workspace_root: &FilePath,
) -> (search: ConflictSearch)
    ensures
        match *repo {
            Ok(found) => match found@.kind {
                RepoKind::Git => search matches ConflictSearch::InMergeConflict { root } && root@
                    == workspace_root@,
                RepoKind::Jujutsu => match search {
                    ConflictSearch::JjConflicted { query } => is_query(
                        Ok(query),
                        *jj,
                        "jj diff"@,
                        workspace_root@,
                        types_args(),
                        Listing::Conflicts,
                    ),
                    ConflictSearch::Done { result: Err(Error::Jj(err)) } => is_query(
                        Err(err),
                        *jj,
                        "jj diff"@,
                        workspace_root@,
                        types_args(),
                        Listing::Conflicts,
                    ),
                    _ => false,
                },
            },
            Err(_) => search matches ConflictSearch::Done { result } && is_context_error(
                result,
                *repo,
            ),
        },
        (*repo) matches Ok(found) ==> (found@.kind == RepoKind::Jujutsu ==> ((*jj) matches Ok(
            program,
        ) ==> {
            &&& search matches ConflictSearch::JjConflicted { query }
            &&& query.cmd.program@ == program@
            &&& query.cmd.summary@ == "jj diff"@
            &&& query.cmd.current_dir matches Some(dir) && dir@ == workspace_root@
            &&& env_map(query.cmd.envs@) == Map::<Seq<char>, Seq<u8>>::empty()
            &&& query.cmd.check == Some(true)
            &&& query.listing == Listing::Conflicts
            &&& views(query.cmd.args@) == seq![
                encode_utf8("diff"@),
                encode_utf8("-r"@),
                encode_utf8("@"@),
                encode_utf8("--types"@),
            ]
        })),
        (*repo) matches Err(err) ==> {
            &&& search matches ConflictSearch::Done { result: Err(Error::Context(message)) }
            &&& message@ == err.text()
        },
{
    match kind_of(repo) {
        Ok(RepoKind::Git) => ConflictSearch::InMergeConflict { root: workspace_root.clone() },
        Ok(RepoKind::Jujutsu) => match jj::get_conflicted_files(jj, workspace_root) {
            Ok(query) => ConflictSearch::JjConflicted { query },
            Err(err) => ConflictSearch::Done { result: Err(Error::Jj(err)) },
        },
        Err(err) => ConflictSearch::Done { result: Err(err) },
    }
}

/// Whether `result` is `files`, or that there is no conflict if there are none.
pub open spec fn is_some_unless_empty(
    result: Result<Option<Vec<FilePath>>, Error>,
    files: Seq<Seq<u8>>,
) -> bool {
    match result {
        Ok(Some(found)) => files.len() > 0 && views(found@) == files,
        Ok(None) => files.len() == 0,
        Err(_) => false,
    }
}

impl ConflictSearch {
    /// Goes on with an answer. An answer to another question changes nothing.
    pub fn step(self, reply: ConflictReply) -> (next: ConflictSearch)
        ensures
            match (self, reply) {
                (
                    ConflictSearch::InMergeConflict { root },
                    ConflictReply::Flag(Ok(true)),
                ) => next == (ConflictSearch::GitConflicted { root }),
                (
                    ConflictSearch::InMergeConflict { .. },
                    ConflictReply::Flag(Ok(false)),
                ) => next == (ConflictSearch::Done { result: Ok(None) }),
                (
                    ConflictSearch::InMergeConflict { .. },
                    ConflictReply::Flag(Err(err)),
                ) => next == (ConflictSearch::Done { result: Err(Error::Git(err)) }),
                (
                    ConflictSearch::GitConflicted { .. },
                    ConflictReply::Files(Ok(files)),
                ) => next == (ConflictSearch::Done { result: Ok(Some(files)) }),
                (
                    ConflictSearch::GitConflicted { .. },
                    ConflictReply::Files(Err(err)),
                ) => next == (ConflictSearch::Done { result: Err(Error::Git(err)) }),
                (
                    ConflictSearch::JjConflicted { query },
                    ConflictReply::Output(Ok(output)),
                ) => {
                    &&& next matches ConflictSearch::Done { result }
                    &&& is_some_unless_empty(result, query.listing.files(lossy_utf8(output@)))
                    &&& valid_utf8(output@) ==> is_some_unless_empty(
                        result,
                        query.listing.files(decode_utf8(output@)),
                    )
                },
                (
                    ConflictSearch::JjConflicted { .. },
                    ConflictReply::Output(Err(err)),
                ) => next == (ConflictSearch::Done { result: Err(Error::Jj(err)) }),
                _ => next == self,
            },
            self matches ConflictSearch::JjConflicted { query } ==> (reply matches
                ConflictReply::Output(Ok(output)) ==> {
                let files = match query.listing {
                    Listing::Paths => path_lines(lossy_utf8(output@)),
                    Listing::Conflicts => conflicted_lines(lossy_utf8(output@)),
                };
                &&& next matches ConflictSearch::Done { result: Ok(found) }
                &&& found is None <==> files.len() == 0
                &&& found matches Some(paths) ==> views(paths@) == files
            }),
    {
        match (self, reply) {
            (ConflictSearch::InMergeConflict { root }, ConflictReply::Flag(flag)) => match flag {
                Ok(true) => ConflictSearch::GitConflicted { root },
                Ok(false) => ConflictSearch::Done { result: Ok(None) },
                Err(err) => ConflictSearch::Done { result: Err(Error::Git(err)) },
            },
            (ConflictSearch::GitConflicted { .. }, ConflictReply::Files(files)) => match files {
                Ok(files) => ConflictSearch::Done { result: Ok(Some(files)) },
                Err(err) => ConflictSearch::Done { result: Err(Error::Git(err)) },
            },
            (
                ConflictSearch::JjConflicted { query },
                ConflictReply::Output(output),
            ) => match query.finish(output) {
                Ok(files) => if files.len() == 0 {
                    ConflictSearch::Done { result: Ok(None) }
                } else {
                    ConflictSearch::Done { result: Ok(Some(files)) }
                },
                Err(err) => ConflictSearch::Done { result: Err(Error::Jj(err)) },
            },
            (search, _) => search,
        }
    }
}

} // verus!
