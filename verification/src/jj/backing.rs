//! The Git directory behind a Jujutsu workspace.

use super::{jj_dir, Error};
use crate::host::{Host, Reply, Request};
use crate::path::{components, is_absolute, join, lead, lemma_join, FilePath};
use crate::text::{chars_of, is_bare, is_blank, law_trim, trim, trim_of};
use vstd::prelude::*;
use vstd::utf8::encode_utf8;

verus! {

/// What stands at `.jj/repo` in a workspace.
#[derive(Debug)]
pub enum RepoEntry<T> {
    /// A file with this text.
    File(T),
    Directory,
    Missing,
}

impl View for RepoEntry<String> {
    type V = RepoEntry<Seq<char>>;

    open spec fn view(&self) -> RepoEntry<Seq<char>> {
        match *self {
            RepoEntry::File(text) => RepoEntry::File(text@),
            RepoEntry::Directory => RepoEntry::Directory,
            RepoEntry::Missing => RepoEntry::Missing,
        }
    }
}

/// The place of the repository in a workspace, or of the file that says where it is.
pub open spec fn repo_path(workspace_root: Seq<u8>) -> Seq<u8> {
    join(jj_dir(workspace_root), encode_utf8("repo"@))
}

/// The path that a file names, with white space around it. If it is relative, it starts from
/// `base`.
pub open spec fn named_path(base: Seq<u8>, text: Seq<char>) -> Seq<u8> {
    let path = encode_utf8(trim(text));
    if is_absolute(path) {
        path
    } else {
        join(base, path)
    }
}

/// The repository of a workspace.
pub open spec fn repo_dir(workspace_root: Seq<u8>, entry: RepoEntry<Seq<char>>) -> Option<Seq<u8>> {
    match entry {
        RepoEntry::File(text) => Some(named_path(jj_dir(workspace_root), text)),
        RepoEntry::Directory => Some(repo_path(workspace_root)),
        RepoEntry::Missing => None,
    }
}

/// The directory of the store of a repository.
pub open spec fn store_dir(repo_dir: Seq<u8>) -> Seq<u8> {
    join(repo_dir, encode_utf8("store"@))
}

/// The file that says where the Git directory of a repository is.
pub open spec fn git_target_path(repo_dir: Seq<u8>) -> Seq<u8> {
    join(store_dir(repo_dir), encode_utf8("git_target"@))
}

fn path_named(base: &FilePath, text: &str) -> (path: FilePath)
    ensures
        path@ == named_path(base@, text@),
{
    let chars = chars_of(text);
    let path = FilePath::from_chars(trim_of(chars.as_slice()));
    if path.is_absolute() {
        path
    } else {
        base.join(&path)
    }
}

/// The repository of a workspace: the directory `.jj/repo`, or the one that a file of that name
/// points to.
pub fn resolve_repo_dir(workspace_root: &FilePath, entry: &RepoEntry<String>) -> (res: Option<
    FilePath,
>)
    ensures
        match res {
            Some(dir) => repo_dir(workspace_root@, entry@) == Some(dir@),
            None => repo_dir(workspace_root@, entry@) is None,
        },
        match *entry {
            RepoEntry::File(text) => res matches Some(dir) && dir@ == named_path(
                join(workspace_root@, encode_utf8(".jj"@)),
                text@,
            ),
            RepoEntry::Directory => res matches Some(dir) && dir@ == join(
                join(workspace_root@, encode_utf8(".jj"@)),
                encode_utf8("repo"@),
            ),
            RepoEntry::Missing => res is None,
        },
{
    let jj_dir = workspace_root.join_text(".jj");
    match entry {
        RepoEntry::File(text) => Some(path_named(&jj_dir, text.as_str())),
        RepoEntry::Directory => Some(jj_dir.join_text("repo")),
        RepoEntry::Missing => None,
    }
}

/// The search for the Git directory behind a workspace.
#[derive(Debug)]
pub enum GitDirSearch<P> {
    /// Whether `.jj/repo` is a file is to be told.
    RepoIsFile { workspace_root: P },
    /// It is; the text in it is to be told.
    ReadRepo { workspace_root: P },
    /// It is not; whether it is a directory is to be told.
    RepoIsDir { workspace_root: P },
    /// The text of `store/git_target` in the repository is to be told.
    ReadGitTarget { repo_dir: P },
    /// The canonical form of the Git directory is to be told.
    Canonicalize { git_dir: P },
    /// Whether the Git directory exists is to be told.
    Exists { git_dir: P },
    Done { result: Result<Option<P>, Error> },
}

impl View for GitDirSearch<FilePath> {
    type V = GitDirSearch<Seq<u8>>;

    open spec fn view(&self) -> GitDirSearch<Seq<u8>> {
        match *self {
            GitDirSearch::RepoIsFile { workspace_root } => GitDirSearch::RepoIsFile {
                workspace_root: workspace_root@,
            },
            GitDirSearch::ReadRepo { workspace_root } => GitDirSearch::ReadRepo {
                workspace_root: workspace_root@,
            },
            GitDirSearch::RepoIsDir { workspace_root } => GitDirSearch::RepoIsDir {
                workspace_root: workspace_root@,
            },
            GitDirSearch::ReadGitTarget { repo_dir } => GitDirSearch::ReadGitTarget {
                repo_dir: repo_dir@,
            },
            GitDirSearch::Canonicalize { git_dir } => GitDirSearch::Canonicalize {
                git_dir: git_dir@,
            },
            GitDirSearch::Exists { git_dir } => GitDirSearch::Exists { git_dir: git_dir@ },
            GitDirSearch::Done { result: Ok(Some(git_dir)) } => GitDirSearch::Done {
                result: Ok(Some(git_dir@)),
            },
            GitDirSearch::Done { result: Ok(None) } => GitDirSearch::Done { result: Ok(None) },
            GitDirSearch::Done { result: Err(err) } => GitDirSearch::Done { result: Err(err) },
        }
    }
}

impl GitDirSearch<Seq<u8>> {
    /// What is to be told next.
    pub open spec fn asks(self) -> Option<Request<Seq<u8>>> {
        match self {
            GitDirSearch::RepoIsFile { workspace_root } => Some(
                Request::IsFile { path: repo_path(workspace_root) },
            ),
            GitDirSearch::ReadRepo { workspace_root } => Some(
                Request::ReadToString { path: repo_path(workspace_root) },
            ),
            GitDirSearch::RepoIsDir { workspace_root } => Some(
                Request::IsDir { path: repo_path(workspace_root) },
            ),
            GitDirSearch::ReadGitTarget { repo_dir } => Some(
                Request::ReadToString { path: git_target_path(repo_dir) },
            ),
            GitDirSearch::Canonicalize { git_dir } => Some(Request::Canonicalize { path: git_dir }),
            GitDirSearch::Exists { git_dir } => Some(Request::Exists { path: git_dir }),
            GitDirSearch::Done { .. } => None,
        }
    }

    /// What follows when `.jj/repo` in `workspace_root` is known to be `entry`.
    pub open spec fn with_repo(
        workspace_root: Seq<u8>,
        entry: RepoEntry<Seq<char>>,
    ) -> GitDirSearch<Seq<u8>> {
        match repo_dir(workspace_root, entry) {
            Some(repo_dir) => GitDirSearch::ReadGitTarget { repo_dir },
            None => GitDirSearch::Done { result: Ok(None) },
        }
    }

    /// How an answer takes the search on. An answer to another question changes nothing.
    pub open spec fn told(self, reply: Reply<Seq<u8>, Seq<char>>) -> GitDirSearch<Seq<u8>> {
        match (self, reply) {
            (GitDirSearch::RepoIsFile { workspace_root }, Reply::Flag(is_file)) => if is_file {
                GitDirSearch::ReadRepo { workspace_root }
            } else {
                GitDirSearch::RepoIsDir { workspace_root }
            },
            (GitDirSearch::ReadRepo { workspace_root }, Reply::Text(text)) => match text {
                Ok(text) => Self::with_repo(workspace_root, RepoEntry::File(text)),
                Err(err) => GitDirSearch::Done { result: Err(Error::Io(err)) },
            },
            (GitDirSearch::RepoIsDir { workspace_root }, Reply::Flag(is_dir)) => if is_dir {
                Self::with_repo(workspace_root, RepoEntry::Directory)
            } else {
                Self::with_repo(workspace_root, RepoEntry::Missing)
            },
            (GitDirSearch::ReadGitTarget { repo_dir }, Reply::Text(text)) => match text {
                Ok(text) => GitDirSearch::Canonicalize {
                    git_dir: named_path(store_dir(repo_dir), text),
                },
                Err(err) => GitDirSearch::Done { result: Err(Error::Io(err)) },
            },
            (GitDirSearch::Canonicalize { .. }, Reply::Path(path)) => match path {
                Ok(git_dir) => GitDirSearch::Exists { git_dir },
                Err(err) => GitDirSearch::Done { result: Err(Error::Io(err)) },
            },
            (GitDirSearch::Exists { git_dir }, Reply::Flag(exists)) => GitDirSearch::Done {
                result: Ok(
                    if exists {
                        Some(git_dir)
                    } else {
                        None
                    },
                ),
            },
            _ => self,
        }
    }
}

/// Resolves the Git directory behind a workspace.
///
/// In a primary workspace `.jj/repo` is a directory. In a secondary one it is a file that names
/// the `.jj/repo` directory of the main repository.
pub fn resolve_backing_git_dir(workspace_root: &FilePath) -> (search: GitDirSearch<FilePath>)
    ensures
        search@ == (GitDirSearch::RepoIsFile { workspace_root: workspace_root@ }),
        search matches GitDirSearch::RepoIsFile { workspace_root: root } && root@
            == workspace_root@,
{
    GitDirSearch::RepoIsFile { workspace_root: workspace_root.clone() }
}

impl GitDirSearch<FilePath> {
    /// What is to be told next; `None` if the search is over.
    pub fn request(&self) -> (request: Option<Request<FilePath>>)
        ensures
            match request {
                Some(r) => self@.asks() == Some(r@),
                None => self@.asks() is None,
            },
            match *self {
                GitDirSearch::RepoIsFile { workspace_root } => request matches Some(
                    Request::IsFile { path },
                ) && path@ == join(
                    join(workspace_root@, encode_utf8(".jj"@)),
                    encode_utf8("repo"@),
                ),
                GitDirSearch::ReadRepo { workspace_root } => request matches Some(
                    Request::ReadToString { path },
                ) && path@ == join(
                    join(workspace_root@, encode_utf8(".jj"@)),
                    encode_utf8("repo"@),
                ),
                GitDirSearch::RepoIsDir { workspace_root } => request matches Some(
                    Request::IsDir { path },
                ) && path@ == join(
                    join(workspace_root@, encode_utf8(".jj"@)),
                    encode_utf8("repo"@),
                ),
                GitDirSearch::ReadGitTarget { repo_dir } => request matches Some(
                    Request::ReadToString { path },
                ) && path@ == join(
                    join(repo_dir@, encode_utf8("store"@)),
                    encode_utf8("git_target"@),
                ),
                GitDirSearch::Canonicalize { git_dir } => request matches Some(
                    Request::Canonicalize { path },
                ) && path@ == git_dir@,
                GitDirSearch::Exists { git_dir } => request matches Some(Request::Exists { path })
                    && path@ == git_dir@,
                GitDirSearch::Done { .. } => request is None,
            },
    {
        match self {
            GitDirSearch::RepoIsFile { workspace_root } => Some(
                Request::IsFile { path: workspace_root.join_text(".jj").join_text("repo") },
            ),
            GitDirSearch::ReadRepo { workspace_root } => Some(
                Request::ReadToString { path: workspace_root.join_text(".jj").join_text("repo") },
            ),
            GitDirSearch::RepoIsDir { workspace_root } => Some(
                Request::IsDir { path: workspace_root.join_text(".jj").join_text("repo") },
            ),
            GitDirSearch::ReadGitTarget { repo_dir } => Some(
                Request::ReadToString { path: repo_dir.join_text("store").join_text("git_target") },
            ),
            GitDirSearch::Canonicalize { git_dir } => Some(
                Request::Canonicalize { path: git_dir.clone() },
            ),
            GitDirSearch::Exists { git_dir } => Some(Request::Exists { path: git_dir.clone() }),
            GitDirSearch::Done { .. } => None,
        }
    }

    fn from_entry(workspace_root: &FilePath, entry: &RepoEntry<String>) -> (next: GitDirSearch<
        FilePath,
    >)
        ensures
            next@ == GitDirSearch::with_repo(workspace_root@, entry@),
    {
        match resolve_repo_dir(workspace_root, entry) {
            Some(repo_dir) => GitDirSearch::ReadGitTarget { repo_dir },
            None => GitDirSearch::Done { result: Ok(None) },
        }
    }

    /// Goes on with an answer.
    pub fn step(self, reply: Reply<FilePath, String>) -> (next: GitDirSearch<FilePath>)
        ensures
            next@ == self@.told(reply@),
            match (self, reply) {
                (GitDirSearch::RepoIsFile { workspace_root }, Reply::Flag(true)) => {
                    next matches GitDirSearch::ReadRepo { workspace_root: root } && root@
                        == workspace_root@
                },
                (GitDirSearch::RepoIsFile { workspace_root }, Reply::Flag(false)) => {
                    next matches GitDirSearch::RepoIsDir { workspace_root: root } && root@
                        == workspace_root@
                },
                (GitDirSearch::ReadRepo { workspace_root }, Reply::Text(Ok(text))) => {
                    next matches GitDirSearch::ReadGitTarget { repo_dir } && repo_dir@
                        == named_path(join(workspace_root@, encode_utf8(".jj"@)), text@)
                },
                (GitDirSearch::RepoIsDir { workspace_root }, Reply::Flag(true)) => {
                    next matches GitDirSearch::ReadGitTarget { repo_dir } && repo_dir@ == join(
                        join(workspace_root@, encode_utf8(".jj"@)),
                        encode_utf8("repo"@),
                    )
                },
                (GitDirSearch::RepoIsDir { .. }, Reply::Flag(false)) => {
                    next matches GitDirSearch::Done { result: Ok(None) }
                },
                (GitDirSearch::ReadGitTarget { repo_dir }, Reply::Text(Ok(text))) => {
                    next matches GitDirSearch::Canonicalize { git_dir } && git_dir@ == named_path(
                        join(repo_dir@, encode_utf8("store"@)),
                        text@,
                    )
                },
                (GitDirSearch::Canonicalize { .. }, Reply::Path(Ok(path))) => {
                    next matches GitDirSearch::Exists { git_dir } && git_dir@ == path@
                },
                (GitDirSearch::Exists { git_dir }, Reply::Flag(true)) => {
                    next matches GitDirSearch::Done { result: Ok(Some(found)) } && found@
                        == git_dir@
                },
                (GitDirSearch::Exists { .. }, Reply::Flag(false)) => {
                    next matches GitDirSearch::Done { result: Ok(None) }
                },
                (GitDirSearch::ReadRepo { .. }, Reply::Text(Err(err))) => {
                    &&& next matches GitDirSearch::Done { result: Err(Error::Io(cause)) }
                    &&& cause == err
                },
                (GitDirSearch::ReadGitTarget { .. }, Reply::Text(Err(err))) => {
                    &&& next matches GitDirSearch::Done { result: Err(Error::Io(cause)) }
                    &&& cause == err
                },
                (GitDirSearch::Canonicalize { .. }, Reply::Path(Err(err))) => {
                    &&& next matches GitDirSearch::Done { result: Err(Error::Io(cause)) }
                    &&& cause == err
                },
                _ => next == self,
            },
    {
        match (self, reply) {
            (GitDirSearch::RepoIsFile { workspace_root }, Reply::Flag(is_file)) => if is_file {
                GitDirSearch::ReadRepo { workspace_root }
            } else {
                GitDirSearch::RepoIsDir { workspace_root }
            },
            (GitDirSearch::ReadRepo { workspace_root }, Reply::Text(text)) => match text {
                Ok(text) => Self::from_entry(&workspace_root, &RepoEntry::File(text)),
                Err(err) => GitDirSearch::Done { result: Err(Error::Io(err)) },
            },
            (GitDirSearch::RepoIsDir { workspace_root }, Reply::Flag(is_dir)) => {
                let entry = if is_dir {
                    RepoEntry::Directory
                } else {
                    RepoEntry::Missing
                };
                Self::from_entry(&workspace_root, &entry)
            },
            (GitDirSearch::ReadGitTarget { repo_dir }, Reply::Text(text)) => match text {
                Ok(text) => GitDirSearch::Canonicalize {
                    git_dir: path_named(&repo_dir.join_text("store"), text.as_str()),
                },
                Err(err) => GitDirSearch::Done { result: Err(Error::Io(err)) },
            },
            (GitDirSearch::Canonicalize { .. }, Reply::Path(path)) => match path {
                Ok(git_dir) => GitDirSearch::Exists { git_dir },
                Err(err) => GitDirSearch::Done { result: Err(Error::Io(err)) },
            },
            (GitDirSearch::Exists { git_dir }, Reply::Flag(exists)) => GitDirSearch::Done {
                result: Ok(
                    if exists {
                        Some(git_dir)
                    } else {
                        None
                    },
                ),
            },
            (search, _) => search,
        }
    }
}

// ---------------------------------------------------------------------------------------------
// Laws.

/// Where the search stands after at most `steps` answers of `host`.
pub open spec fn run_git_dir_search(
    host: Host,
    search: GitDirSearch<Seq<u8>>,
    steps: nat,
) -> GitDirSearch<Seq<u8>>
    decreases steps,
{
    match search.asks() {
        Some(request) if steps > 0 => run_git_dir_search(
            host,
            search.told(host.answer(request)),
            (steps - 1) as nat,
        ),
        _ => search,
    }
}

/// What `host` has at `.jj/repo` in a workspace.
pub open spec fn repo_entry(host: Host, workspace_root: Seq<u8>) -> Result<
    RepoEntry<Seq<char>>,
    Error,
> {
    let path = repo_path(workspace_root);
    if (host.is_file)(path) {
        match (host.read_to_string)(path) {
            Ok(text) => Ok(RepoEntry::File(text)),
            Err(err) => Err(Error::Io(err)),
        }
    } else if (host.is_dir)(path) {
        Ok(RepoEntry::Directory)
    } else {
        Ok(RepoEntry::Missing)
    }
}

/// The Git directory of a repository on `host`.
pub open spec fn git_dir_of_repo(host: Host, repo_dir: Seq<u8>) -> Result<Option<Seq<u8>>, Error> {
    match (host.read_to_string)(git_target_path(repo_dir)) {
        Ok(text) => match (host.canonicalize)(named_path(store_dir(repo_dir), text)) {
            Ok(git_dir) => Ok(
                if (host.exists)(git_dir) {
                    Some(git_dir)
                } else {
                    None
                },
            ),
            Err(err) => Err(Error::Io(err)),
        },
        Err(err) => Err(Error::Io(err)),
    }
}

/// The Git directory behind a workspace on `host`.
pub open spec fn backing_git_dir(host: Host, workspace_root: Seq<u8>) -> Result<
    Option<Seq<u8>>,
    Error,
> {
    match repo_entry(host, workspace_root) {
        Ok(entry) => match repo_dir(workspace_root, entry) {
            Some(repo_dir) => git_dir_of_repo(host, repo_dir),
            None => Ok(None),
        },
        Err(err) => Err(err),
    }
}

/// The search ends after at most five answers, with the Git directory that the store of the
/// repository names: it exists and is in canonical form. There is none if the workspace has no
/// repository, and a failure to read or resolve is passed on.
pub proof fn law_backing_git_dir(host: Host, workspace_root: Seq<u8>, steps: nat)
    requires
        steps >= 5,
    ensures
        run_git_dir_search(host, GitDirSearch::RepoIsFile { workspace_root }, steps) == (
        GitDirSearch::Done { result: backing_git_dir(host, workspace_root) }),
{
    reveal_with_fuel(run_git_dir_search, 7);
}

/// Two workspaces whose repositories are the same directory have the same Git directory: the
/// secondary workspace, where `.jj/repo` is a file that holds the absolute path of the
/// `.jj/repo` directory of the main one, has that of the main one.
pub proof fn law_secondary_workspace(host: Host, main: Seq<u8>, secondary: Seq<u8>, text: Seq<char>)
    requires
        repo_entry(host, main) == Ok::<_, Error>(RepoEntry::<Seq<char>>::Directory),
        repo_entry(host, secondary) == Ok::<_, Error>(RepoEntry::File(text)),
        encode_utf8(trim(text)) == repo_path(main),
        is_absolute(main),
    ensures
        backing_git_dir(host, secondary) == backing_git_dir(host, main),
{
    reveal_strlit(".jj");
    reveal_strlit("repo");
    vstd::utf8::is_ascii_chars_encode_utf8(".jj"@);
    vstd::utf8::is_ascii_chars_encode_utf8("repo"@);
    assert(is_absolute(jj_dir(main)));
    assert(is_absolute(repo_path(main)));
}

/// A file names what it holds without the white space around it. What starts with a slash is meant
/// as it is; anything else starts from `base`, and so its components follow those of `base`
/// unless it begins with a component `.`.
pub proof fn law_named_path(base: Seq<u8>, before: Seq<char>, name: Seq<char>, after: Seq<char>)
    requires
        is_blank(before),
        is_bare(name),
        is_blank(after),
    ensures
        ({
            let path = encode_utf8(name);
            let dotted = path.len() > 0 && path[0] == 0x2e && (path.len() == 1 || path[1] == 0x2f);
            let named = named_path(base, before + name + after);
            &&& path.len() > 0 && path[0] == 0x2f ==> named == path
            &&& !(path.len() > 0 && path[0] == 0x2f) ==> named == join(base, path)
            &&& !(path.len() > 0 && path[0] == 0x2f) && !dotted ==> components(named)
                == components(base) + components(path)
        }),
{
    law_trim(before, name, after);
    let path = encode_utf8(name);
    if lead(path).len() == 0 {
        lemma_join(base, path);
    }
}

/// In a primary workspace, where `.jj/repo` is a directory, the Git directory is what
/// `.jj/repo/store/git_target` names, as seen from `.jj/repo/store`, in canonical form, if that
/// exists.
pub proof fn law_primary_workspace(
    host: Host,
    root: Seq<u8>,
    before: Seq<char>,
    name: Seq<char>,
    after: Seq<char>,
)
    requires
        is_blank(before),
        is_bare(name),
        is_blank(after),
        ({
            let repo = join(join(root, encode_utf8(".jj"@)), encode_utf8("repo"@));
            let store = join(repo, encode_utf8("store"@));
            &&& !(host.is_file)(repo)
            &&& (host.is_dir)(repo)
            &&& (host.read_to_string)(join(store, encode_utf8("git_target"@))) == Ok::<_, String>(
                before + name + after,
            )
        }),
    ensures
        ({
            let store = join(
                join(join(root, encode_utf8(".jj"@)), encode_utf8("repo"@)),
                encode_utf8("store"@),
            );
            run_git_dir_search(host, GitDirSearch::RepoIsFile { workspace_root: root }, 5)
                == GitDirSearch::Done {
                result: match (host.canonicalize)(join(store, encode_utf8(name))) {
                    Ok(dir) => Ok(
                        if (host.exists)(dir) {
                            Some(dir)
                        } else {
                            None
                        },
                    ),
                    Err(err) => Err(Error::Io(err)),
                },
            }
        }),
{
    reveal_with_fuel(run_git_dir_search, 7);
    let store = join(
        join(join(root, encode_utf8(".jj"@)), encode_utf8("repo"@)),
        encode_utf8("store"@),
    );
    law_named_path(store, before, name, after);
}

/// In a secondary workspace, where `.jj/repo` is a file, it names the repository, as seen from
/// `.jj`. The Git directory is what `store/git_target` there names, as seen from `store`.
pub proof fn law_named_repository(
    host: Host,
    root: Seq<u8>,
    name: (Seq<char>, Seq<char>, Seq<char>),
    target: (Seq<char>, Seq<char>, Seq<char>),
)
    requires
        is_blank(name.0) && is_bare(name.1) && is_blank(name.2),
        is_blank(target.0) && is_bare(target.1) && is_blank(target.2),
        ({
            let jj = join(root, encode_utf8(".jj"@));
            let repo = join(jj, encode_utf8("repo"@));
            let store = join(join(jj, encode_utf8(name.1)), encode_utf8("store"@));
            &&& (host.is_file)(repo)
            &&& (host.read_to_string)(repo) == Ok::<_, String>(name.0 + name.1 + name.2)
            &&& (host.read_to_string)(join(store, encode_utf8("git_target"@))) == Ok::<_, String>(
                target.0 + target.1 + target.2,
            )
        }),
    ensures
        ({
            let jj = join(root, encode_utf8(".jj"@));
            let store = join(join(jj, encode_utf8(name.1)), encode_utf8("store"@));
            run_git_dir_search(host, GitDirSearch::RepoIsFile { workspace_root: root }, 5)
                == GitDirSearch::Done {
                result: match (host.canonicalize)(join(store, encode_utf8(target.1))) {
                    Ok(dir) => Ok(
                        if (host.exists)(dir) {
                            Some(dir)
                        } else {
                            None
                        },
                    ),
                    Err(err) => Err(Error::Io(err)),
                },
            }
        }),
{
    reveal_with_fuel(run_git_dir_search, 7);
    let jj = join(root, encode_utf8(".jj"@));
    law_named_path(jj, name.0, name.1, name.2);
    let store = join(join(jj, encode_utf8(name.1)), encode_utf8("store"@));
    law_named_path(store, target.0, target.1, target.2);
}

/// Without `.jj/repo` there is no Git directory. A file that cannot be read is a failure.
pub proof fn law_no_git_dir(host: Host, root: Seq<u8>)
    ensures
        ({
            let repo = join(join(root, encode_utf8(".jj"@)), encode_utf8("repo"@));
            let target = join(join(repo, encode_utf8("store"@)), encode_utf8("git_target"@));
            let end = run_git_dir_search(
                host,
                GitDirSearch::RepoIsFile { workspace_root: root },
                5,
            );
            &&& !(host.is_file)(repo) && !(host.is_dir)(repo) ==> end == (GitDirSearch::Done {
                result: Ok(None::<Seq<u8>>),
            })
            &&& (host.is_file)(repo) ==> ((host.read_to_string)(repo) matches Err(err) ==> end == (
            GitDirSearch::<Seq<u8>>::Done { result: Err(Error::Io(err)) }))
            &&& !(host.is_file)(repo) && (host.is_dir)(repo) ==> ((host.read_to_string)(
                target,
            ) matches Err(err) ==> end == (GitDirSearch::<Seq<u8>>::Done {
                result: Err(Error::Io(err)),
            }))
        }),
{
    reveal_with_fuel(run_git_dir_search, 7);
}

} // verus!
