use prek::host::{Reply, Request};
use prek::jj;
use prek::jj::Listing;
use prek::path::FilePath;
use prek::process::Cmd;
use prek::repo::{
    added_files, apply_git_env, changed_files_between, conflicted_files, current, default_files,
    executable_files, executable_files_cmd, hooks_dir, ls_files, requires_staged_configs, root,
    should_stash_by_default_run, tracks_executable_bit, tracks_executable_bit_cmd, ConflictReply,
    ConflictSearch, DetectError, Detection, Error, FileQuery, GitQuery, RepoContext, RepoKind,
};
use prek::text::InvalidUtf8;

type Detected = Result<RepoContext, DetectError>;

fn path(text: &str) -> FilePath {
    FilePath::from_text(text)
}

fn paths(texts: &[&str]) -> Vec<FilePath> {
    texts.iter().map(|text| path(text)).collect()
}

fn texts(paths: &[FilePath]) -> Vec<String> {
    paths.iter().map(|path| path.display()).collect()
}

fn detect(mut replies: Vec<Reply<FilePath, String>>) -> Detected {
    let mut detection = RepoContext::detect_current();
    replies.reverse();
    while detection.request().is_some() {
        detection = detection.step(replies.pop().unwrap());
    }
    assert!(replies.is_empty());
    match detection {
        Detection::Done { result } => result,
        other => panic!("{other:?}"),
    }
}

fn git_repo() -> Detected {
    detect(vec![
        Reply::Path(Ok(path("/r"))),
        Reply::Flag(false),
        Reply::Flag(false),
        Reply::Path(Ok(path("/r"))),
    ])
}

fn jj_repo() -> Detected {
    detect(vec![
        Reply::Path(Ok(path("/w/sub"))),
        Reply::Flag(false),
        Reply::Flag(true),
        Reply::Flag(false),
        Reply::Flag(true),
        Reply::Text(Ok("../../../.git\n".to_owned())),
        Reply::Path(Ok(path("/w/.git"))),
        Reply::Flag(true),
    ])
}

fn no_repo() -> Detected {
    detect(vec![
        Reply::Path(Ok(path("/"))),
        Reply::Flag(false),
        Reply::Path(Err("fatal: not a git repository".to_owned())),
    ])
}

fn jj_found() -> Result<FilePath, String> {
    Ok(path("/bin/jj"))
}

fn jj_missing() -> Result<FilePath, String> {
    Err("no jj".to_owned())
}

#[test]
fn detection_asks_jujutsu_before_git() {
    let detection = RepoContext::detect_current();
    assert!(matches!(detection.request(), Some(Request::CurrentDir)));
    let detection = detection.step(Reply::Flag(true));
    assert!(matches!(detection.request(), Some(Request::CurrentDir)));
    let detection = detection.step(Reply::Path(Ok(path("/w"))));
    match detection.request() {
        Some(Request::IsDir { path }) => assert_eq!(path.display(), "/w/.jj"),
        other => panic!("{other:?}"),
    }
    let detection = detection.step(Reply::Flag(true));
    match detection.request() {
        Some(Request::IsFile { path }) => assert_eq!(path.display(), "/w/.jj/repo"),
        other => panic!("{other:?}"),
    }
}

#[test]
fn detection_asks_git_where_there_is_no_workspace() {
    let detection = RepoContext::detect_current()
        .step(Reply::Path(Ok(path("/"))))
        .step(Reply::Flag(false));
    assert!(matches!(detection.request(), Some(Request::GitRoot)));
    let detection = detection.step(Reply::Flag(true));
    assert!(matches!(detection.request(), Some(Request::GitRoot)));
}

#[test]
fn jujutsu_workspace_is_detected() {
    let repo = jj_repo();
    let found = current(&repo).unwrap();
    assert_eq!(found.kind(), RepoKind::Jujutsu);
    assert_eq!(found.root().display(), "/w");
    assert_eq!(root(&repo).unwrap().display(), "/w");
}

#[test]
fn git_repository_is_detected() {
    let repo = git_repo();
    let found = current(&repo).unwrap();
    assert_eq!(found.kind(), RepoKind::Git);
    assert_eq!(root(&repo).unwrap().display(), "/r");
}

#[test]
fn failures_to_detect_are_told() {
    let no_cwd = detect(vec![Reply::Path(Err("gone".to_owned()))]);
    assert!(matches!(no_cwd, Err(DetectError::CurrentDir(_))));
    assert_eq!(current(&no_cwd).unwrap_err(), "Failed to get current directory");

    let unresolved = detect(vec![
        Reply::Path(Ok(path("/w"))),
        Reply::Flag(true),
        Reply::Flag(true),
        Reply::Text(Err("unreadable".to_owned())),
    ]);
    assert!(matches!(
        unresolved,
        Err(DetectError::ResolveBackingGitDir(jj::Error::Io(_)))
    ));
    assert_eq!(
        root(&unresolved).unwrap_err(),
        "Failed to resolve backing Git directory for Jujutsu workspace"
    );

    let no_git_dir = detect(vec![
        Reply::Path(Ok(path("/w"))),
        Reply::Flag(true),
        Reply::Flag(false),
        Reply::Flag(false),
    ]);
    assert!(matches!(no_git_dir, Err(DetectError::NoBackingGitDir)));
    assert_eq!(
        current(&no_git_dir).unwrap_err(),
        "Detected a Jujutsu workspace, but could not resolve its backing Git directory"
    );

    let nowhere = no_repo();
    assert!(matches!(nowhere, Err(DetectError::NotInRepository(_))));
    assert_eq!(
        current(&nowhere).unwrap_err(),
        "Not inside a Git or Jujutsu repository: fatal: not a git repository"
    );
}

fn envs(cmd: &Cmd) -> Vec<(String, String)> {
    cmd.envs
        .iter()
        .map(|(name, value)| (name.clone(), value.display()))
        .collect()
}

#[test]
fn git_env_is_set_for_workspaces_alone() {
    let mut cmd = Cmd::new(&path("git"), "git status");
    cmd.arg("status");
    apply_git_env(&git_repo(), &mut cmd);
    assert!(cmd.envs.is_empty());
    apply_git_env(&no_repo(), &mut cmd);
    assert!(cmd.envs.is_empty());
    apply_git_env(&jj_repo(), &mut cmd);
    assert_eq!(
        envs(&cmd),
        vec![
            ("GIT_DIR".to_owned(), "/w/.git".to_owned()),
            ("GIT_WORK_TREE".to_owned(), "/w".to_owned()),
        ]
    );
    assert_eq!(cmd.args, vec![b"status".to_vec()]);
    assert_eq!(cmd.check, None);
}

#[test]
fn staging_rules_hold_but_in_workspaces() {
    assert!(should_stash_by_default_run(&git_repo()));
    assert!(requires_staged_configs(&git_repo()));
    assert!(should_stash_by_default_run(&no_repo()));
    assert!(requires_staged_configs(&no_repo()));
    assert!(!should_stash_by_default_run(&jj_repo()));
    assert!(!requires_staged_configs(&jj_repo()));
}

#[test]
fn hooks_live_in_the_common_dir() {
    assert_eq!(hooks_dir(&path("/r/.git")).display(), "/r/.git/hooks");
}

#[test]
fn git_is_asked_in_a_git_repository() {
    let repo = git_repo();
    let dir = path("/r");
    assert!(matches!(
        added_files(&repo, &jj_missing(), &dir),
        Ok(FileQuery::Git(GitQuery::Added { root })) if root.display() == "/r"
    ));
    assert!(matches!(
        default_files(&repo, &jj_missing(), &dir),
        Ok(FileQuery::Git(GitQuery::Staged { root })) if root.display() == "/r"
    ));
    assert!(matches!(
        changed_files_between(&repo, &jj_missing(), "a", "b", &dir),
        Ok(FileQuery::Git(GitQuery::ChangedBetween { old_rev, new_rev, root }))
            if old_rev == "a" && new_rev == "b" && root.display() == "/r"
    ));
    assert!(matches!(
        ls_files(&repo, &jj_missing(), &dir, &path("/r/x")),
        Ok(FileQuery::Git(GitQuery::LsFiles { cwd, path }))
            if cwd.display() == "/r" && path.display() == "/r/x"
    ));
}

fn jj_args(query: Result<FileQuery, Error>) -> Vec<String> {
    match query {
        Ok(FileQuery::Jujutsu(query)) => {
            assert_eq!(query.listing, Listing::Paths);
            assert_eq!(query.cmd.program.display(), "/bin/jj");
            assert_eq!(query.cmd.current_dir.unwrap().display(), "/w");
            let mut all = vec![query.cmd.summary];
            for arg in query.cmd.args {
                all.push(String::from_utf8(arg).unwrap());
            }
            all
        }
        other => panic!("{other:?}"),
    }
}

#[test]
fn jujutsu_is_asked_in_a_workspace() {
    let repo = jj_repo();
    let dir = path("/w");
    let changed = vec!["jj diff", "diff", "-r", "@", "--name-only"];
    assert_eq!(jj_args(added_files(&repo, &jj_found(), &dir)), changed);
    assert_eq!(jj_args(default_files(&repo, &jj_found(), &dir)), changed);
    assert_eq!(
        jj_args(changed_files_between(&repo, &jj_found(), "a", "b", &dir)),
        vec!["jj diff", "diff", "--from", "a", "--to", "b", "--name-only"]
    );
    assert_eq!(
        jj_args(ls_files(&repo, &jj_found(), &dir, &path("/w/x"))),
        vec!["jj file list", "file", "list", "x"]
    );
    assert!(matches!(
        added_files(&repo, &jj_missing(), &dir),
        Err(Error::Jj(jj::Error::JjNotFound(message))) if message == "no jj"
    ));
}

#[test]
fn nothing_is_asked_without_a_repository() {
    let repo = no_repo();
    let dir = path("/");
    let expected = "Not inside a Git or Jujutsu repository: fatal: not a git repository";
    for query in vec![
        added_files(&repo, &jj_found(), &dir),
        default_files(&repo, &jj_found(), &dir),
        changed_files_between(&repo, &jj_found(), "a", "b", &dir),
        ls_files(&repo, &jj_found(), &dir, &dir),
    ] {
        match query {
            Err(Error::Context(message)) => assert_eq!(message, expected),
            other => panic!("{other:?}"),
        }
    }
    assert!(matches!(
        conflicted_files(&repo, &jj_found(), &dir),
        ConflictSearch::Done { result: Err(Error::Context(message)) } if message == expected
    ));
}

#[test]
fn git_conflicts_come_from_a_merge() {
    let start = || conflicted_files(&git_repo(), &jj_missing(), &path("/r"));
    assert!(matches!(
        start(),
        ConflictSearch::InMergeConflict { root } if root.display() == "/r"
    ));
    assert!(matches!(
        start().step(ConflictReply::Flag(Ok(false))),
        ConflictSearch::Done { result: Ok(None) }
    ));
    assert!(matches!(
        start().step(ConflictReply::Flag(Err("git".to_owned()))),
        ConflictSearch::Done { result: Err(Error::Git(_)) }
    ));
    let merging = || start().step(ConflictReply::Flag(Ok(true)));
    assert!(matches!(
        merging(),
        ConflictSearch::GitConflicted { root } if root.display() == "/r"
    ));
    match merging().step(ConflictReply::Files(Ok(Vec::new()))) {
        ConflictSearch::Done {
            result: Ok(Some(files)),
        } => assert!(files.is_empty()),
        other => panic!("{other:?}"),
    }
    assert!(matches!(
        merging().step(ConflictReply::Files(Err("git".to_owned()))),
        ConflictSearch::Done { result: Err(Error::Git(_)) }
    ));
    assert!(matches!(
        merging().step(ConflictReply::Flag(Ok(false))),
        ConflictSearch::GitConflicted { .. }
    ));
}

#[test]
fn jujutsu_conflicts_come_from_the_working_copy() {
    let start = || conflicted_files(&jj_repo(), &jj_found(), &path("/w"));
    match start() {
        ConflictSearch::JjConflicted { query } => {
            assert_eq!(query.listing, Listing::Conflicts);
            assert_eq!(query.cmd.args.last(), Some(&b"--types".to_vec()));
        }
        other => panic!("{other:?}"),
    }
    match start().step(ConflictReply::Output(Ok(b"CC a\nFF b\n".to_vec()))) {
        ConflictSearch::Done {
            result: Ok(Some(files)),
        } => assert_eq!(texts(&files), vec!["a"]),
        other => panic!("{other:?}"),
    }
    assert!(matches!(
        start().step(ConflictReply::Output(Ok(b"FF b\n".to_vec()))),
        ConflictSearch::Done { result: Ok(None) }
    ));
    assert!(matches!(
        start().step(ConflictReply::Output(Err(jj::Error::Command("x".to_owned())))),
        ConflictSearch::Done { result: Err(Error::Jj(jj::Error::Command(_))) }
    ));
    assert!(matches!(
        conflicted_files(&jj_repo(), &jj_missing(), &path("/w")),
        ConflictSearch::Done { result: Err(Error::Jj(jj::Error::JjNotFound(_))) }
    ));
}

fn git_args(cmd: prek::process::GitCmd) -> Vec<String> {
    assert_eq!(cmd.check, Some(true));
    let mut all = vec![cmd.summary];
    for arg in cmd.args {
        all.push(String::from_utf8(arg).unwrap());
    }
    all
}

#[test]
fn git_commands_about_the_executable_bit() {
    assert_eq!(
        git_args(tracks_executable_bit_cmd()),
        vec!["get file file mode", "config", "core.fileMode"]
    );
    assert_eq!(
        git_args(executable_files_cmd(&path(""))),
        vec!["git ls-files", "ls-files", "--stage", "-z", "--", "."]
    );
    assert_eq!(
        git_args(executable_files_cmd(&path("sub/dir"))),
        vec!["git ls-files", "ls-files", "--stage", "-z", "--", "sub/dir"]
    );
}

#[test]
fn executable_bit_is_tracked_unless_denied() {
    assert!(tracks_executable_bit(b"true\n").unwrap());
    assert!(tracks_executable_bit(b"").unwrap());
    assert!(tracks_executable_bit(b"False").unwrap());
    assert!(tracks_executable_bit(b"falsey").unwrap());
    assert!(!tracks_executable_bit(b"false").unwrap());
    assert!(!tracks_executable_bit(b" \tfalse\r\n").unwrap());
    match tracks_executable_bit(b"tr\xffue") {
        Err(Error::Utf8(cause)) => assert_eq!(
            cause,
            InvalidUtf8 {
                valid_up_to: 2,
                error_len: Some(1)
            }
        ),
        other => panic!("{other:?}"),
    }
}

#[test]
fn utf8_errors_agree_with_the_standard_library() {
    for sample in [
        &b"\xff"[..],
        b"a\xc3",
        b"ab\xe2\x82",
        b"\xe2\x28\xa1",
        b"\xf0\x90\x28\xbc",
        b"ok\xed\xa0\x80",
        b"\xc0\x80",
    ] {
        let expected = std::str::from_utf8(sample).unwrap_err();
        match tracks_executable_bit(sample) {
            Err(Error::Utf8(cause)) => {
                assert_eq!(cause.valid_up_to, expected.valid_up_to());
                assert_eq!(cause.error_len, expected.error_len());
            }
            other => panic!("{other:?}"),
        }
    }
}

fn executables(base: &str, names: &[&str], stdout: &[u8]) -> Vec<String> {
    texts(&executable_files(&path(base), &paths(names), stdout).unwrap())
}

#[test]
fn recorded_modes_decide() {
    let stdout = b"100755 aa 0\ta\x00100644 bb 0\tb\x00100711 cc 0\tc\x00120000 dd 0\td\x00";
    assert_eq!(executables("", &["a", "b", "c", "d"], stdout), vec!["a", "c"]);
    assert_eq!(executables("", &["b"], stdout), Vec::<String>::new());
    assert_eq!(executables("", &["./a", "c/"], stdout), vec!["c"]);
}

#[test]
fn files_are_named_from_the_base() {
    let stdout = b"100755 aa 0\tsub/x\x00100755 bb 0\ty\x00";
    assert_eq!(executables("sub", &["x", "z"], stdout), vec!["x"]);
    assert_eq!(executables("sub", &["sub/x"], stdout), Vec::<String>::new());
    assert_eq!(executables("", &["sub/x", "y"], stdout), vec!["sub/x", "y"]);
    assert_eq!(executables("", &["x"], stdout), Vec::<String>::new());
    assert_eq!(executables("sub/", &["x/"], stdout), vec!["x"]);
}

#[test]
fn names_may_hold_tabs() {
    let stdout = b"100755 1a 0\ta\tb.sh\x00";
    assert_eq!(executables("", &["a\tb.sh"], stdout), vec!["a\tb.sh"]);
    assert_eq!(executables("", &["a"], stdout), Vec::<String>::new());
    let below = b"100755 1a 0\ts\td/\tx\t\x00";
    assert_eq!(executables("s\td", &["\tx\t"], below), vec!["\tx\t"]);
}

#[test]
fn odd_entries_contribute_nothing() {
    assert_eq!(executables("", &["a"], b""), Vec::<String>::new());
    assert_eq!(executables("", &["a"], b"\0\0"), Vec::<String>::new());
    assert_eq!(executables("", &["a"], b"100755 aa 0 a\0"), Vec::<String>::new());
    assert_eq!(executables("", &["a"], b"\ta\0"), Vec::<String>::new());
    assert_eq!(executables("", &["a"], b" \ta\0"), Vec::<String>::new());
    assert_eq!(executables("", &["a"], b"9 aa\ta\0"), Vec::<String>::new());
    assert_eq!(executables("", &["a"], b"40000000001 aa\ta\0"), Vec::<String>::new());
    assert_eq!(executables("", &["a"], b"  +1 aa\ta\trest\0"), Vec::<String>::new());
    assert_eq!(executables("", &["a"], b"  +1 aa\ta\0"), vec!["a"]);
    assert_eq!(executables("", &["a"], b"100755 aa 0\ta"), vec!["a"]);
    assert_eq!(executables("", &["a"], b"1 x\ta\x001 y\ta\0"), vec!["a", "a"]);
}

#[test]
fn listing_that_is_no_text_is_refused() {
    match executable_files(&path(""), &paths(&["a"]), b"1 x\ta\0\xffb\0\xfe\xfe\0") {
        Err(Error::Utf8(cause)) => {
            assert_eq!((cause.valid_up_to, cause.error_len), (0, Some(1)));
        }
        other => panic!("{other:?}"),
    }
}

#[test]
fn executable_files_are_files_asked_for() {
    let names = ["a", "b/c"];
    let recorded = ["s/a", "s/b//c", "s/d"];
    let stdout = b"100755 x 0\ts/a\x00100755 x 0\ts/b//c\x00100755 x 0\ts/d\0";
    let found = executable_files(&path("s"), &paths(&names), stdout).unwrap();
    assert_eq!(texts(&found), vec!["a", "b//c"]);
    for file in &found {
        assert!(names.iter().any(|name| path(name).same_as(file)));
        let seen = path("s").join(file);
        assert!(recorded.iter().any(|name| path(name).same_as(&seen)));
    }
}

#[test]
fn executable_files_go_by_the_set_asked_for() {
    let stdout = b"1 x\ta\x001 x\tb\x001 x\tc\x000 x\td\x001 x\ta\0";
    assert_eq!(executables("", &["a", "c"], stdout), vec!["a", "c", "a"]);
    assert_eq!(executables("", &["c/", "a", "c", "a//"], stdout), vec!["a", "c", "a"]);
    assert_eq!(executables("", &["a", "b", "c", "d"], stdout), vec!["a", "b", "c", "a"]);
}
