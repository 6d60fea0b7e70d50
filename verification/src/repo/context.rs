//! What kind of repository the current directory is in.

use crate::host::{Host, Reply, Request};
use crate::jj;
use crate::jj::{
    backing_git_dir, find_workspace_root, goes_up, is_nearest, is_workspace_of,
    law_backing_git_dir, law_search_ends, law_workspace_found, law_workspace_not_found,
    lemma_nearest_is_found, nearest_workspace, resolve_backing_git_dir, run_git_dir_search,
    GitDirSearch, WorkspaceSearch,
};
use crate::path::{join, lemma_parent, parent, FilePath};
use crate::process::{Cmd, CmdView};
use vstd::prelude::*;
use vstd::utf8::encode_utf8;

verus! {

/// Which version control system keeps a repository.
#[derive(Debug, Clone, Copy, PartialEq, Eq, Structural)]
pub enum RepoKind {
    Git,
    Jujutsu,
}

/// The repository around the current directory.
#[derive(Debug)]
pub struct RepoContext {
    kind: RepoKind,
    root: FilePath,
    backing_git_dir: Option<FilePath>,
}

/// What a repository comes to.
pub struct RepoView {
    pub kind: RepoKind,
    pub root: Seq<u8>,
    pub backing_git_dir: Option<Seq<u8>>,
}

impl View for RepoContext {
    type V = RepoView;

    closed spec fn view(&self) -> RepoView {
        RepoView {
            kind: self.kind,
            root: self.root@,
            backing_git_dir: match self.backing_git_dir {
                Some(dir) => Some(dir@),
                None => None,
            },
        }
    }
}

/// Why the repository could not be detected. Those that hold something hold the cause.
#[derive(Debug)]
pub enum DetectError {
    CurrentDir(String),
    ResolveBackingGitDir(jj::Error),
    NoBackingGitDir,
    NotInRepository(String),
}

impl DetectError {
    pub open spec fn text(self) -> Seq<char> {
        match self {
            DetectError::CurrentDir(_) => "Failed to get current directory"@,
            DetectError::ResolveBackingGitDir(
                _,
            ) => "Failed to resolve backing Git directory for Jujutsu workspace"@,
            DetectError::NoBackingGitDir =>
            "Detected a Jujutsu workspace, but could not resolve its backing Git directory"@,
            DetectError::NotInRepository(
                cause,
            ) => "Not inside a Git or Jujutsu repository: "@ + cause@,
        }
    }

    /// The message for the user.
    pub fn message(&self) -> (text: String)
        ensures
            text@ == self.text(),
            match *self {
                DetectError::CurrentDir(_) => text@ == "Failed to get current directory"@,
                DetectError::ResolveBackingGitDir(_) => text@
                    == "Failed to resolve backing Git directory for Jujutsu workspace"@,
                DetectError::NoBackingGitDir => text@
                    == "Detected a Jujutsu workspace, but could not resolve its backing Git directory"@,
                DetectError::NotInRepository(cause) => text@
                    == "Not inside a Git or Jujutsu repository: "@ + cause@,
            },
    {
        match self {
            DetectError::CurrentDir(_) => "Failed to get current directory".to_owned(),
            DetectError::ResolveBackingGitDir(
                _,
            ) => "Failed to resolve backing Git directory for Jujutsu workspace".to_owned(),
            DetectError::NoBackingGitDir =>
            "Detected a Jujutsu workspace, but could not resolve its backing Git directory".to_owned(),
            DetectError::NotInRepository(cause) => {
                let mut text = "Not inside a Git or Jujutsu repository: ".to_owned();
                text.append(cause.as_str());
                text
            },
        }
    }
}

// ---------------------------------------------------------------------------------------------
// Detection.

/// The detection of the repository. Jujutsu comes first, because a Jujutsu workspace need not be
/// visible to Git from the current directory.
#[derive(Debug)]
pub enum Detection<P, R> {
    /// The current directory is to be told.
    CurrentDir,
    /// A workspace is looked for.
    FindWorkspace { search: WorkspaceSearch<P> },
    /// The Git directory behind the workspace is looked for.
    FindGitDir { root: P, git_dir: GitDirSearch<P> },
    /// There is no workspace; the root of the Git repository is to be told.
    GitRoot,
    Done { result: Result<R, DetectError> },
}

impl View for Detection<FilePath, RepoContext> {
    type V = Detection<Seq<u8>, RepoView>;

    open spec fn view(&self) -> Detection<Seq<u8>, RepoView> {
        match *self {
            Detection::CurrentDir => Detection::CurrentDir,
            Detection::FindWorkspace { search } => Detection::FindWorkspace { search: search@ },
            Detection::FindGitDir { root, git_dir } => Detection::FindGitDir {
                root: root@,
                git_dir: git_dir@,
            },
            Detection::GitRoot => Detection::GitRoot,
            Detection::Done { result: Ok(repo) } => Detection::Done { result: Ok(repo@) },
            Detection::Done { result: Err(err) } => Detection::Done { result: Err(err) },
        }
    }
}

impl Detection<Seq<u8>, RepoView> {
    /// What is to be told next.
    pub open spec fn asks(self) -> Option<Request<Seq<u8>>> {
        match self {
            Detection::CurrentDir => Some(Request::CurrentDir),
            Detection::FindWorkspace { search } => search.asks(),
            Detection::FindGitDir { git_dir, .. } => git_dir.asks(),
            Detection::GitRoot => Some(Request::GitRoot),
            Detection::Done { .. } => None,
        }
    }

    /// What follows from where the search for a workspace stands.
    pub open spec fn after_search(search: WorkspaceSearch<Seq<u8>>) -> Detection<
        Seq<u8>,
        RepoView,
    > {
        match search {
            WorkspaceSearch::Probe { .. } => Detection::FindWorkspace { search },
            WorkspaceSearch::Found { root } => Detection::FindGitDir {
                root,
                git_dir: GitDirSearch::RepoIsFile { workspace_root: root },
            },
            WorkspaceSearch::NotFound => Detection::GitRoot,
        }
    }

    /// What follows for the workspace at `root` from where the search for its Git directory
    /// stands.
    pub open spec fn after_git_dir(root: Seq<u8>, git_dir: GitDirSearch<Seq<u8>>) -> Detection<
        Seq<u8>,
        RepoView,
    > {
        match git_dir {
            GitDirSearch::Done { result } => Detection::Done { result: jj_context(root, result) },
            _ => Detection::FindGitDir { root, git_dir },
        }
    }

    /// How an answer takes the detection on. An answer to another question changes nothing.
    pub open spec fn told(self, reply: Reply<Seq<u8>, Seq<char>>) -> Detection<Seq<u8>, RepoView> {
        match (self, reply) {
            (Detection::CurrentDir, Reply::Path(Ok(cwd))) => Self::after_search(
                WorkspaceSearch::Probe { dir: cwd },
            ),
            (Detection::CurrentDir, Reply::Path(Err(err))) => Detection::Done {
                result: Err(DetectError::CurrentDir(err)),
            },
            (Detection::FindWorkspace { search }, _) => Self::after_search(search.told(reply)),
            (Detection::FindGitDir { root, git_dir }, _) => Self::after_git_dir(
                root,
                git_dir.told(reply),
            ),
            (Detection::GitRoot, Reply::Path(root)) => Detection::Done {
                result: git_context(root),
            },
            _ => self,
        }
    }
}

/// The repository of the workspace at `root`, by what was found of its Git directory.
pub open spec fn jj_context(
    root: Seq<u8>,
    git_dir: Result<Option<Seq<u8>>, jj::Error>,
) -> Result<RepoView, DetectError> {
    match git_dir {
        Ok(Some(git_dir)) => Ok(
            RepoView { kind: RepoKind::Jujutsu, root, backing_git_dir: Some(git_dir) },
        ),
        Ok(None) => Err(DetectError::NoBackingGitDir),
        Err(err) => Err(DetectError::ResolveBackingGitDir(err)),
    }
}

/// The repository where there is no workspace, by what Git says of its root.
pub open spec fn git_context(root: Result<Seq<u8>, String>) -> Result<RepoView, DetectError> {
    match root {
        Ok(root) => Ok(RepoView { kind: RepoKind::Git, root, backing_git_dir: None }),
        Err(err) => Err(DetectError::NotInRepository(err)),
    }
}

impl RepoContext {
    /// A Jujutsu workspace has a Git directory behind it, a plain Git repository has none.
    #[verifier::type_invariant]
    spec fn inv(self) -> bool {
        self.kind == RepoKind::Jujutsu <==> self.backing_git_dir is Some
    }

    /// Detects the repository that the current directory is in.
    pub fn detect_current() -> (detection: Detection<FilePath, RepoContext>)
        ensures
            detection@ == Detection::<Seq<u8>, RepoView>::CurrentDir,
            detection is CurrentDir,
    {
        Detection::CurrentDir
    }

    /// Which system keeps this repository.
    pub fn kind(&self) -> (kind: RepoKind)
        ensures
            kind == self@.kind,
            kind == RepoKind::Jujutsu <==> self@.backing_git_dir is Some,
    {
        proof {
            use_type_invariant(self);
        }
        self.kind
    }

    /// The root of this repository.
    pub fn root(&self) -> (root: &FilePath)
        ensures
            root@ == self@.root,
    {
        &self.root
    }

    /// Points a Git command at the Git directory behind a workspace, and at the workspace. In a
    /// plain Git repository nothing changes. The variables are set for this command alone.
    pub fn apply_git_env(&self, cmd: &mut Cmd)
        ensures
            final(cmd)@ == with_git_env(self@, old(cmd)@),
            self@.kind == RepoKind::Git ==> final(cmd)@ == old(cmd)@,
            self@.kind == RepoKind::Jujutsu ==> final(cmd)@ == (CmdView {
                envs: old(cmd)@.envs.insert("GIT_DIR"@, self@.backing_git_dir->0).insert(
                    "GIT_WORK_TREE"@,
                    self@.root,
                ),
                ..old(cmd)@
            }),
    {
        proof {
            use_type_invariant(self);
        }
        if let Some(git_dir) = &self.backing_git_dir {
            cmd.env("GIT_DIR", git_dir);
            cmd.env("GIT_WORK_TREE", &self.root);
        }
    }
}

/// The command with the variables that point Git at a repository.
pub open spec fn with_git_env(repo: RepoView, cmd: CmdView) -> CmdView {
    match repo.backing_git_dir {
        Some(git_dir) => CmdView {
            envs: cmd.envs.insert("GIT_DIR"@, git_dir).insert("GIT_WORK_TREE"@, repo.root),
            ..cmd
        },
        None => cmd,
    }
}

impl Detection<FilePath, RepoContext> {
    /// What is to be told next; `None` if the detection is over.
    pub fn request(&self) -> (request: Option<Request<FilePath>>)
        ensures
            match request {
                Some(r) => self@.asks() == Some(r@),
                None => self@.asks() is None,
            },
            match *self {
                Detection::CurrentDir => request matches Some(Request::CurrentDir),
                Detection::GitRoot => request matches Some(Request::GitRoot),
                Detection::Done { .. } => request is None,
                _ => true,
            },
    {
        match self {
            Detection::CurrentDir => Some(Request::CurrentDir),
            Detection::FindWorkspace { search } => search.request(),
            Detection::FindGitDir { git_dir, .. } => git_dir.request(),
            Detection::GitRoot => Some(Request::GitRoot),
            Detection::Done { .. } => None,
        }
    }

    fn from_search(search: WorkspaceSearch<FilePath>) -> (next: Detection<FilePath, RepoContext>)
        ensures
            next@ == Detection::after_search(search@),
    {
        match search {
            WorkspaceSearch::Probe { dir } => Detection::FindWorkspace {
                search: WorkspaceSearch::Probe { dir },
            },
            WorkspaceSearch::Found { root } => {
                let git_dir = resolve_backing_git_dir(&root);
                Detection::FindGitDir { root, git_dir }
            },
            WorkspaceSearch::NotFound => Detection::GitRoot,
        }
    }

    fn from_git_dir(root: FilePath, git_dir: GitDirSearch<FilePath>) -> (next: Detection<
        FilePath,
        RepoContext,
    >)
        ensures
            next@ == Detection::after_git_dir(root@, git_dir@),
    {
        match git_dir {
            GitDirSearch::Done { result: Ok(Some(git_dir)) } => Detection::Done {
                result: Ok(
                    RepoContext { kind: RepoKind::Jujutsu, root, backing_git_dir: Some(git_dir) },
                ),
            },
            GitDirSearch::Done { result: Ok(None) } => Detection::Done {
                result: Err(DetectError::NoBackingGitDir),
            },
            GitDirSearch::Done { result: Err(err) } => Detection::Done {
                result: Err(DetectError::ResolveBackingGitDir(err)),
            },
            git_dir => Detection::FindGitDir { root, git_dir },
        }
    }

    /// Goes on with an answer.
    pub fn step(self, reply: Reply<FilePath, String>) -> (next: Detection<FilePath, RepoContext>)
        ensures
            next@ == self@.told(reply@),
            match (self, reply) {
                (Detection::CurrentDir, Reply::Path(Ok(cwd))) => {
                    &&& next matches Detection::FindWorkspace { search }
                    &&& search matches WorkspaceSearch::Probe { dir }
                    &&& dir@ == cwd@
                },
                (Detection::CurrentDir, Reply::Path(Err(err))) => {
                    &&& next matches Detection::Done { result: Err(cause) }
                    &&& cause == DetectError::CurrentDir(err)
                },
                (Detection::GitRoot, Reply::Path(Ok(root))) => {
                    &&& next matches Detection::Done { result: Ok(repo) }
                    &&& repo@.kind == RepoKind::Git
                    &&& repo@.root == root@
                    &&& repo@.backing_git_dir is None
                },
                (Detection::GitRoot, Reply::Path(Err(err))) => {
                    &&& next matches Detection::Done { result: Err(cause) }
                    &&& cause == DetectError::NotInRepository(err)
                },
                (Detection::CurrentDir, _) => next is CurrentDir,
                (Detection::GitRoot, _) => next is GitRoot,
                (Detection::FindWorkspace { .. }, _) => next !is Done,
                (Detection::FindGitDir { root, .. }, _) => {
                    next matches Detection::Done { result: Ok(repo) } ==> repo@.kind
                        == RepoKind::Jujutsu && repo@.root == root@
                },
                (Detection::Done { .. }, _) => next == self,
            },
    {
        match self {
            Detection::CurrentDir => match reply {
                Reply::Path(Ok(cwd)) => Self::from_search(find_workspace_root(&cwd)),
                Reply::Path(Err(err)) => Detection::Done {
                    result: Err(DetectError::CurrentDir(err)),
                },
                _ => Detection::CurrentDir,
            },
            Detection::FindWorkspace { search } => Self::from_search(search.step(reply)),
            Detection::FindGitDir { root, git_dir } => Self::from_git_dir(
                root,
                git_dir.step(reply),
            ),
            Detection::GitRoot => match reply {
                Reply::Path(Ok(root)) => Detection::Done {
                    result: Ok(RepoContext { kind: RepoKind::Git, root, backing_git_dir: None }),
                },
                Reply::Path(Err(err)) => Detection::Done {
                    result: Err(DetectError::NotInRepository(err)),
                },
                _ => Detection::GitRoot,
            },
            Detection::Done { result } => Detection::Done { result },
        }
    }
}

// ---------------------------------------------------------------------------------------------
// The detected repository.

/// The repository that was detected, or the message why there is none.
pub fn current(repo: &Result<RepoContext, DetectError>) -> (res: Result<&RepoContext, String>)
    ensures
        match *repo {
            Ok(found) => res == Ok::<&RepoContext, String>(&found),
            Err(err) => res is Err && res->Err_0@ == err.text(),
        },
{
    match repo {
        Ok(found) => Ok(found),
        Err(err) => Err(err.message()),
    }
}

/// Points a Git command at the detected repository. Nothing changes if none was detected.
pub fn apply_git_env(repo: &Result<RepoContext, DetectError>, cmd: &mut Cmd)
    ensures
        match *repo {
            Ok(found) => {
                &&& final(cmd)@ == with_git_env(found@, old(cmd)@)
                &&& found@.kind == RepoKind::Git ==> final(cmd)@ == old(cmd)@
            },
            Err(_) => final(cmd)@ == old(cmd)@,
        },
{
    if let Ok(found) = repo {
        found.apply_git_env(cmd);
    }
}

/// The root that bounds the workspace: that of the Jujutsu workspace or of the Git repository.
pub fn root(repo: &Result<RepoContext, DetectError>) -> (res: Result<&FilePath, String>)
    ensures
        match *repo {
            Ok(found) => res is Ok && res->Ok_0@ == found@.root,
            Err(err) => res is Err && res->Err_0@ == err.text(),
        },
{
    match current(repo) {
        Ok(found) => Ok(found.root()),
        Err(message) => Err(message),
    }
}

/// Whether the rules of Git's staging area hold: they do not in a Jujutsu workspace, which has
/// none.
pub open spec fn has_staging_area(repo: Result<RepoContext, DetectError>) -> bool {
    match repo {
        Ok(found) => found@.kind == RepoKind::Git,
        Err(_) => true,
    }
}

/// Whether a run should stash what is not staged by default.
///
/// Git runs hooks on what is staged, and changes that are not must not bleed into them. Jujutsu
/// runs them on the working copy.
pub fn should_stash_by_default_run(repo: &Result<RepoContext, DetectError>) -> (res: bool)
    ensures
        res == has_staging_area(*repo),
        match *repo {
            Ok(found) => res == (found@.kind == RepoKind::Git),
            Err(_) => res,
        },
{
    match current(repo) {
        Ok(found) => found.kind() == RepoKind::Git,
        Err(_) => true,
    }
}

/// Whether configuration files must be staged before they count.
pub fn requires_staged_configs(repo: &Result<RepoContext, DetectError>) -> (res: bool)
    ensures
        res == has_staging_area(*repo),
        match *repo {
            Ok(found) => res == (found@.kind == RepoKind::Git),
            Err(_) => res,
        },
{
    match current(repo) {
        Ok(found) => found.kind() == RepoKind::Git,
        Err(_) => true,
    }
}

/// The directory of the hooks, in the common directory of Git. That of a Jujutsu workspace is in
/// the Git directory behind it.
pub fn hooks_dir(git_common_dir: &FilePath) -> (dir: FilePath)
    ensures
        dir@ == join(git_common_dir@, encode_utf8("hooks"@)),
{
    git_common_dir.join_text("hooks")
}

// ---------------------------------------------------------------------------------------------
// Laws.

/// Where the detection stands after at most `steps` answers of `host`.
pub open spec fn run_detection(
    host: Host,
    detection: Detection<Seq<u8>, RepoView>,
    steps: nat,
) -> Detection<Seq<u8>, RepoView>
    decreases steps,
{
    match detection.asks() {
        Some(request) if steps > 0 => run_detection(
            host,
            detection.told(host.answer(request)),
            (steps - 1) as nat,
        ),
        _ => detection,
    }
}

/// The repository that the directory `cwd` is in. A workspace above it counts, and Git is asked
/// only if there is none.
pub open spec fn repository_of(host: Host, cwd: Seq<u8>) -> Result<RepoView, DetectError> {
    match nearest_workspace(host, cwd) {
        Some(root) => jj_context(root, backing_git_dir(host, root)),
        None => git_context(host.git_root),
    }
}

/// The repository that the current directory of `host` is in.
pub open spec fn repository(host: Host) -> Result<RepoView, DetectError> {
    match host.current_dir {
        Ok(cwd) => repository_of(host, cwd),
        Err(err) => Err(DetectError::CurrentDir(err)),
    }
}

/// The number of answers within which the detection ends.
pub open spec fn steps_to_detect(host: Host) -> nat {
    match host.current_dir {
        Ok(cwd) => cwd.len() + 7,
        Err(_) => 1,
    }
}

/// The detection ends, with the repository that the current directory is in.
pub proof fn law_detection(host: Host, steps: nat)
    requires
        steps >= steps_to_detect(host),
    ensures
        run_detection(host, Detection::CurrentDir, steps) == (Detection::<Seq<u8>, RepoView>::Done {
            result: repository(host),
        }),
{
    let first = Detection::<Seq<u8>, RepoView>::CurrentDir;
    let next = first.told(host.answer(first.asks()->0));
    assert(run_detection(host, first, steps) == run_detection(host, next, (steps - 1) as nat));
    match host.current_dir {
        Ok(cwd) => {
            lemma_detect_from(host, cwd, (steps - 1) as nat);
        },
        Err(_) => {},
    }
}

proof fn lemma_detect_from(host: Host, dir: Seq<u8>, steps: nat)
    requires
        steps >= dir.len() + 6,
    ensures
        run_detection(
            host,
            Detection::FindWorkspace { search: WorkspaceSearch::Probe { dir } },
            steps,
        ) == (Detection::<Seq<u8>, RepoView>::Done { result: repository_of(host, dir) }),
    decreases dir.len(),
{
    let probe = WorkspaceSearch::Probe { dir };
    let here = Detection::<Seq<u8>, RepoView>::FindWorkspace { search: probe };
    let next = here.told(host.answer(here.asks()->0));
    let left = (steps - 1) as nat;
    assert(run_detection(host, here, steps) == run_detection(host, next, left));
    lemma_parent(dir);
    if crate::jj::has_jj(host, dir) {
        lemma_detect_git_dir(host, dir, left);
    } else if let Some(up) = parent(dir) {
        lemma_detect_from(host, up, left);
    } else {
        reveal_with_fuel(run_detection, 3);
    }
}

proof fn lemma_detect_git_dir(host: Host, root: Seq<u8>, steps: nat)
    requires
        steps >= 5,
    ensures
        run_detection(
            host,
            Detection::FindGitDir {
                root,
                git_dir: GitDirSearch::RepoIsFile { workspace_root: root },
            },
            steps,
        ) == (Detection::<Seq<u8>, RepoView>::Done {
            result: jj_context(root, backing_git_dir(host, root)),
        }),
{
    reveal_with_fuel(run_detection, 7);
}

/// A detected repository is a Jujutsu workspace exactly if there is a Git directory behind it.
pub proof fn law_repository_kind(host: Host)
    ensures
        repository(host) matches Ok(repo) ==> (repo.kind == RepoKind::Jujutsu
            <==> repo.backing_git_dir is Some),
{
}

/// A Git command for a Jujutsu workspace has the Git directory behind it and the workspace as its
/// two variables; every other variable, and all else about the command, stays as it was. Doing it
/// twice is doing it once.
pub proof fn law_git_env(repo: RepoView, cmd: CmdView)
    ensures
        with_git_env(repo, with_git_env(repo, cmd)) == with_git_env(repo, cmd),
        repo.backing_git_dir is None ==> with_git_env(repo, cmd) == cmd,
        repo.backing_git_dir matches Some(git_dir) ==> {
            let set = with_git_env(repo, cmd);
            &&& set.envs.contains_pair("GIT_DIR"@, git_dir)
            &&& set.envs.contains_pair("GIT_WORK_TREE"@, repo.root)
            &&& set.envs.remove("GIT_DIR"@).remove("GIT_WORK_TREE"@) == cmd.envs.remove(
                "GIT_DIR"@,
            ).remove("GIT_WORK_TREE"@)
            &&& set == (CmdView { envs: set.envs, ..cmd })
        },
{
    reveal_strlit("GIT_DIR");
    reveal_strlit("GIT_WORK_TREE");
    assert("GIT_DIR"@.len() != "GIT_WORK_TREE"@.len());
    if let Some(git_dir) = repo.backing_git_dir {
        let set = with_git_env(repo, cmd);
        assert(with_git_env(repo, set).envs == set.envs);
        assert(set.envs.remove("GIT_DIR"@).remove("GIT_WORK_TREE"@) == cmd.envs.remove(
            "GIT_DIR"@,
        ).remove("GIT_WORK_TREE"@));
    }
}

/// Below a workspace, the repository is that workspace: its root is the directory that holds
/// `.jj`, whatever the Git directory behind it is. Without a Git directory nothing is detected.
pub proof fn law_detects_workspace(host: Host, dirs: Seq<Seq<u8>>, steps: nat)
    requires
        dirs.len() > 0,
        host.current_dir == Ok::<_, String>(dirs[0]),
        goes_up(dirs),
        forall|i: int|
            0 <= i < dirs.len() - 1 ==> !#[trigger] (host.is_dir)(
                join(dirs[i], encode_utf8(".jj"@)),
            ),
        (host.is_dir)(join(dirs.last(), encode_utf8(".jj"@))),
        steps >= dirs[0].len() + 7,
    ensures
        ({
            let end = run_detection(host, Detection::CurrentDir, steps);
            let search = run_git_dir_search(
                host,
                GitDirSearch::RepoIsFile { workspace_root: dirs.last() },
                5,
            );
            match search {
                GitDirSearch::Done { result: Ok(Some(git_dir)) } => {
                    &&& end matches Detection::Done { result: Ok(repo) }
                    &&& repo.kind == RepoKind::Jujutsu
                    &&& repo.root == dirs.last()
                    &&& repo.backing_git_dir == Some(git_dir)
                },
                GitDirSearch::Done { result: Ok(None) } => {
                    end matches Detection::Done { result: Err(DetectError::NoBackingGitDir) }
                },
                GitDirSearch::Done { result: Err(err) } => {
                    &&& end matches Detection::Done { result: Err(cause) }
                    &&& cause == DetectError::ResolveBackingGitDir(err)
                },
                _ => false,
            }
        }),
{
    let enough = dirs.len() + dirs[0].len() + 1;
    law_workspace_found(host, dirs, enough);
    law_search_ends(host, dirs[0], enough);
    law_backing_git_dir(host, dirs.last(), 5);
    law_detection(host, steps);
}

/// Where no directory on the way up holds `.jj`, the repository is that of Git, at the root that
/// Git tells.
pub proof fn law_detects_git(host: Host, dirs: Seq<Seq<u8>>, steps: nat)
    requires
        dirs.len() > 0,
        host.current_dir == Ok::<_, String>(dirs[0]),
        goes_up(dirs),
        parent(dirs.last()) is None,
        forall|i: int|
            0 <= i < dirs.len() ==> !#[trigger] (host.is_dir)(join(dirs[i], encode_utf8(".jj"@))),
        steps >= dirs[0].len() + 7,
    ensures
        ({
            let end = run_detection(host, Detection::CurrentDir, steps);
            match host.git_root {
                Ok(root) => {
                    &&& end matches Detection::Done { result: Ok(repo) }
                    &&& repo.kind == RepoKind::Git
                    &&& repo.root == root
                    &&& repo.backing_git_dir is None
                },
                Err(err) => {
                    &&& end matches Detection::Done { result: Err(cause) }
                    &&& cause == DetectError::NotInRepository(err)
                },
            }
        }),
{
    let enough = dirs.len() + dirs[0].len() + 1;
    law_workspace_not_found(host, dirs, enough);
    law_search_ends(host, dirs[0], enough);
    law_detection(host, steps);
}

/// Without a current directory nothing is detected.
pub proof fn law_detects_nothing(host: Host, steps: nat)
    requires
        host.current_dir is Err,
        steps > 0,
    ensures
        run_detection(host, Detection::CurrentDir, steps) == (Detection::<Seq<u8>, RepoView>::Done {
            result: Err(DetectError::CurrentDir(host.current_dir->Err_0)),
        }),
{
    law_detection(host, steps);
}

/// The root of a detected Jujutsu repository is the nearest workspace, whatever its Git directory
/// is.
pub proof fn law_workspace_is_root(host: Host, cwd: Seq<u8>, dir: Seq<u8>)
    requires
        host.current_dir == Ok::<_, String>(cwd),
        is_workspace_of(host, cwd, dir),
    ensures
        repository(host) matches Ok(repo) ==> {
            &&& repo.kind == RepoKind::Jujutsu
            &&& repo.root == dir
            &&& backing_git_dir(host, dir) == Ok::<_, jj::Error>(repo.backing_git_dir)
        },
        repository(host) is Err ==> !(backing_git_dir(host, dir) matches Ok(Some(_))),
{
    let i = choose|i: nat| is_nearest(host, cwd, i, dir);
    lemma_nearest_is_found(host, cwd, i, dir);
}

/// The rules of the staging area hold exactly where no Jujutsu workspace was detected.
pub proof fn law_staging_area(repo: Result<RepoContext, DetectError>)
    ensures
        !has_staging_area(repo) <==> repo is Ok && repo->Ok_0@.kind == RepoKind::Jujutsu,
{
}

} // verus!
