use std::path::Path;

use prek::host::{Reply, Request};
use prek::jj::{
    conflicted_lines_of, find_workspace_root, get_changed_files, get_changed_files_between,
    get_conflicted_files, jj_cmd, ls_files, parse_path_lines, path_lines_of, relative_to_cwd,
    resolve_backing_git_dir, resolve_repo_dir, Error, GitDirSearch, JjQuery, Listing, RepoEntry,
    WorkspaceSearch,
};
use prek::path::FilePath;

fn to_file_path(path: &Path) -> FilePath {
    FilePath::from_text(path.to_str().unwrap())
}

fn text(path: &FilePath) -> String {
    path.display()
}

fn texts(paths: &[FilePath]) -> Vec<String> {
    paths.iter().map(text).collect()
}

fn answer(request: &Request<FilePath>) -> Reply<FilePath, String> {
    match request {
        Request::IsDir { path } => Reply::Flag(Path::new(&text(path)).is_dir()),
        Request::IsFile { path } => Reply::Flag(Path::new(&text(path)).is_file()),
        Request::Exists { path } => Reply::Flag(Path::new(&text(path)).exists()),
        Request::ReadToString { path } => {
            Reply::Text(fs_err::read_to_string(text(path)).map_err(|err| err.to_string()))
        }
        Request::Canonicalize { path } => Reply::Path(
            Path::new(&text(path))
                .canonicalize()
                .map(|path| to_file_path(&path))
                .map_err(|err| err.to_string()),
        ),
        Request::CurrentDir | Request::GitRoot => panic!("not asked by a search"),
    }
}

fn workspace_root_of(start: &Path) -> Option<String> {
    let mut search = find_workspace_root(&to_file_path(start));
    while let Some(request) = search.request() {
        search = search.step(answer(&request));
    }
    match search {
        WorkspaceSearch::Found { root } => Some(text(&root)),
        WorkspaceSearch::NotFound => None,
        WorkspaceSearch::Probe { .. } => panic!("the search is over"),
    }
}

fn backing_git_dir_of(workspace_root: &Path) -> Result<Option<String>, Error> {
    let mut search = resolve_backing_git_dir(&to_file_path(workspace_root));
    while let Some(request) = search.request() {
        search = search.step(answer(&request));
    }
    match search {
        GitDirSearch::Done { result } => result.map(|dir| dir.map(|dir| text(&dir))),
        _ => panic!("the search is over"),
    }
}

fn shown(path: &Path) -> String {
    path.to_str().unwrap().to_owned()
}

#[test]
fn find_workspace_root_returns_none_for_non_jj_directory() {
    let dir = tempfile::tempdir().unwrap();
    assert!(workspace_root_of(dir.path()).is_none());
}

#[test]
fn find_workspace_root_finds_current_directory() {
    let dir = tempfile::tempdir().unwrap();
    fs_err::create_dir(dir.path().join(".jj")).unwrap();
    let result = workspace_root_of(dir.path());
    assert_eq!(result, Some(shown(dir.path())));
}

#[test]
fn find_workspace_root_finds_parent_directory() {
    let dir = tempfile::tempdir().unwrap();
    fs_err::create_dir(dir.path().join(".jj")).unwrap();
    let child = dir.path().join("subdir");
    fs_err::create_dir(&child).unwrap();
    let result = workspace_root_of(&child);
    assert_eq!(result, Some(shown(dir.path())));
}

#[test]
fn resolve_backing_git_dir_returns_none_without_repo_metadata() {
    let dir = tempfile::tempdir().unwrap();
    fs_err::create_dir(dir.path().join(".jj")).unwrap();
    let result = backing_git_dir_of(dir.path()).unwrap();
    assert!(result.is_none());
}

#[test]
fn resolve_backing_git_dir_resolves_colocated_workspace() {
    let dir = tempfile::tempdir().unwrap();
    let root = dir.path();

    let store_dir = root.join(".jj").join("repo").join("store");
    fs_err::create_dir_all(&store_dir).unwrap();
    fs_err::write(store_dir.join("git_target"), "../../../.git").unwrap();
    let git_dir = root.join(".git");
    fs_err::create_dir(&git_dir).unwrap();

    let resolved = backing_git_dir_of(root).unwrap();
    assert_eq!(resolved, Some(shown(&git_dir.canonicalize().unwrap())));
}

#[test]
fn resolve_backing_git_dir_resolves_secondary_workspace() {
    let dir = tempfile::tempdir().unwrap();
    let main_root = dir.path().join("main");
    let secondary_root = dir.path().join("secondary");

    let main_store = main_root.join(".jj").join("repo").join("store");
    fs_err::create_dir_all(&main_store).unwrap();
    fs_err::write(main_store.join("git_target"), "../../../.git").unwrap();
    let main_git = main_root.join(".git");
    fs_err::create_dir(&main_git).unwrap();

    let secondary_jj = secondary_root.join(".jj");
    fs_err::create_dir_all(&secondary_jj).unwrap();
    let main_repo_abs = main_root.join(".jj").join("repo").canonicalize().unwrap();
    fs_err::write(
        secondary_jj.join("repo"),
        main_repo_abs.to_string_lossy().as_ref(),
    )
    .unwrap();

    let resolved = backing_git_dir_of(&secondary_root).unwrap();
    assert_eq!(resolved, Some(shown(&main_git.canonicalize().unwrap())));
}

#[test]
fn secondary_workspace_may_name_a_relative_path() {
    let dir = tempfile::tempdir().unwrap();
    let main_store = dir.path().join("main/.jj/repo/store");
    fs_err::create_dir_all(&main_store).unwrap();
    let git_dir = dir.path().join("bare");
    fs_err::create_dir(&git_dir).unwrap();
    let git_dir = git_dir.canonicalize().unwrap();
    fs_err::write(
        main_store.join("git_target"),
        format!("\t{}\n", git_dir.to_str().unwrap()),
    )
    .unwrap();
    fs_err::create_dir_all(dir.path().join("other/.jj")).unwrap();
    fs_err::write(
        dir.path().join("other/.jj/repo"),
        " ../../main/.jj/repo \n",
    )
    .unwrap();

    let resolved = backing_git_dir_of(&dir.path().join("other")).unwrap();
    assert_eq!(resolved, Some(shown(&git_dir)));
}

#[test]
fn missing_git_target_is_an_io_error() {
    let dir = tempfile::tempdir().unwrap();
    fs_err::create_dir_all(dir.path().join(".jj/repo/store")).unwrap();
    assert!(matches!(backing_git_dir_of(dir.path()), Err(Error::Io(_))));
}

#[test]
fn missing_git_dir_is_an_io_error() {
    let dir = tempfile::tempdir().unwrap();
    fs_err::create_dir_all(dir.path().join(".jj/repo/store")).unwrap();
    fs_err::write(dir.path().join(".jj/repo/store/git_target"), "nowhere").unwrap();
    assert!(matches!(backing_git_dir_of(dir.path()), Err(Error::Io(_))));
}

#[test]
fn unreadable_repo_file_is_an_io_error() {
    let search = resolve_backing_git_dir(&FilePath::from_text("/w"));
    let search = search.step(Reply::Flag(true));
    let search = search.step(Reply::Text(Err("no".to_owned())));
    match search {
        GitDirSearch::Done {
            result: Err(Error::Io(message)),
        } => assert_eq!(message, "no"),
        other => panic!("{other:?}"),
    }
}

#[test]
fn git_dir_that_vanishes_is_none() {
    let search = resolve_backing_git_dir(&FilePath::from_text("/w"));
    let search = search.step(Reply::Flag(false));
    let search = search.step(Reply::Flag(true));
    match search.request() {
        Some(Request::ReadToString { path }) => {
            assert_eq!(text(&path), "/w/.jj/repo/store/git_target");
        }
        other => panic!("{other:?}"),
    }
    let search = search.step(Reply::Text(Ok(" g \n".to_owned())));
    match search.request() {
        Some(Request::Canonicalize { path }) => assert_eq!(text(&path), "/w/.jj/repo/store/g"),
        other => panic!("{other:?}"),
    }
    let search = search.step(Reply::Path(Ok(FilePath::from_text("/g"))));
    match search.request() {
        Some(Request::Exists { path }) => assert_eq!(text(&path), "/g"),
        other => panic!("{other:?}"),
    }
    let search = search.step(Reply::Flag(false));
    assert!(matches!(
        search,
        GitDirSearch::Done { result: Ok(None) }
    ));
}

#[test]
fn answer_to_another_question_changes_nothing() {
    let search = find_workspace_root(&FilePath::from_text("/a"));
    let search = search.step(Reply::Text(Ok(String::new())));
    match search.request() {
        Some(Request::IsDir { path }) => assert_eq!(text(&path), "/a/.jj"),
        other => panic!("{other:?}"),
    }
}

#[test]
fn workspace_search_goes_up_to_the_root() {
    let mut search = find_workspace_root(&FilePath::from_text("/a//b/./c/"));
    let mut asked: Vec<String> = Vec::new();
    while let Some(request) = search.request() {
        match request {
            Request::IsDir { path } => asked.push(text(&path)),
            other => panic!("{other:?}"),
        }
        search = search.step(Reply::Flag(false));
    }
    assert!(matches!(search, WorkspaceSearch::NotFound));
    assert_eq!(
        asked,
        vec!["/a//b/./c/.jj", "/a//b/.jj", "/a/.jj", "/.jj"]
    );
}

#[test]
fn workspace_search_from_a_relative_path_ends_at_the_empty_one() {
    let mut search = find_workspace_root(&FilePath::from_text("a/b"));
    let mut asked: Vec<String> = Vec::new();
    while let Some(request) = search.request() {
        match request {
            Request::IsDir { path } => asked.push(text(&path)),
            other => panic!("{other:?}"),
        }
        search = search.step(Reply::Flag(false));
    }
    assert_eq!(asked, vec!["a/b/.jj", "a/.jj", ".jj"]);
}

#[test]
fn nearest_workspace_wins() {
    let dir = tempfile::tempdir().unwrap();
    let inner = dir.path().join("inner");
    fs_err::create_dir_all(dir.path().join(".jj")).unwrap();
    fs_err::create_dir_all(inner.join(".jj")).unwrap();
    fs_err::create_dir_all(inner.join("deep")).unwrap();
    assert_eq!(workspace_root_of(&inner.join("deep")), Some(shown(&inner)));
}

#[test]
fn file_named_jj_is_no_workspace() {
    let dir = tempfile::tempdir().unwrap();
    fs_err::write(dir.path().join(".jj"), "").unwrap();
    assert!(workspace_root_of(dir.path()).is_none());
}

#[test]
fn repo_dir_of_each_entry() {
    let root = FilePath::from_text("/w");
    let file = RepoEntry::File(" /main/.jj/repo\n".to_owned());
    assert_eq!(
        resolve_repo_dir(&root, &file).map(|dir| text(&dir)),
        Some("/main/.jj/repo".to_owned())
    );
    let relative = RepoEntry::File("../x".to_owned());
    assert_eq!(
        resolve_repo_dir(&root, &relative).map(|dir| text(&dir)),
        Some("/w/.jj/../x".to_owned())
    );
    let directory: RepoEntry<String> = RepoEntry::Directory;
    assert_eq!(
        resolve_repo_dir(&root, &directory).map(|dir| text(&dir)),
        Some("/w/.jj/repo".to_owned())
    );
    let missing: RepoEntry<String> = RepoEntry::Missing;
    assert!(resolve_repo_dir(&root, &missing).is_none());
}

fn found() -> Result<FilePath, String> {
    Ok(FilePath::from_text("/usr/bin/jj"))
}

fn check_query(query: Result<JjQuery, Error>, summary: &str, dir: &str, args: &[&str]) -> Listing {
    let query = query.unwrap();
    assert_eq!(text(&query.cmd.program), "/usr/bin/jj");
    assert_eq!(query.cmd.summary, summary);
    assert_eq!(query.cmd.current_dir.as_ref().map(text), Some(dir.to_owned()));
    let expected: Vec<Vec<u8>> = args.iter().map(|arg| arg.as_bytes().to_vec()).collect();
    assert_eq!(query.cmd.args, expected);
    assert!(query.cmd.envs.is_empty());
    assert_eq!(query.cmd.check, Some(true));
    query.listing
}

#[test]
fn jj_cmd_starts_bare() {
    let cmd = jj_cmd(&found(), "jj diff").unwrap();
    assert_eq!(text(&cmd.program), "/usr/bin/jj");
    assert_eq!(cmd.summary, "jj diff");
    assert!(cmd.current_dir.is_none());
    assert!(cmd.args.is_empty());
    assert!(cmd.envs.is_empty());
    assert_eq!(cmd.check, None);
}

#[test]
fn jj_that_is_not_found_is_an_error() {
    let missing: Result<FilePath, String> = Err("cannot find binary path".to_owned());
    match jj_cmd(&missing, "jj diff") {
        Err(err) => {
            assert!(matches!(err, Error::JjNotFound(_)));
            assert_eq!(
                err.message(),
                "Failed to find Jujutsu (jj): cannot find binary path"
            );
        }
        Ok(cmd) => panic!("{cmd:?}"),
    }
    let root = FilePath::from_text("/w");
    assert!(matches!(ls_files(&missing, &root, &root), Err(Error::JjNotFound(_))));
    assert!(matches!(get_changed_files(&missing, &root), Err(Error::JjNotFound(_))));
    assert!(matches!(
        get_changed_files_between(&missing, "a", "b", &root),
        Err(Error::JjNotFound(_))
    ));
    assert!(matches!(get_conflicted_files(&missing, &root), Err(Error::JjNotFound(_))));
}

#[test]
fn other_errors_are_told_as_they_are() {
    assert_eq!(Error::Command("exit status 1".to_owned()).message(), "exit status 1");
    assert_eq!(Error::Io("not found".to_owned()).message(), "not found");
}

#[test]
fn ls_files_names_the_path_below_cwd() {
    let cwd = FilePath::from_text("/w");
    let below = |path: &str| ls_files(&found(), &cwd, &FilePath::from_text(path));
    let listing = check_query(below("/w/src"), "jj file list", "/w", &["file", "list", "src"]);
    assert_eq!(listing, Listing::Paths);
    check_query(below("/w"), "jj file list", "/w", &["file", "list", "/w"]);
    check_query(below("/x"), "jj file list", "/w", &["file", "list", "/x"]);
    check_query(below(""), "jj file list", "/w", &["file", "list"]);
    check_query(below("."), "jj file list", "/w", &["file", "list"]);
    check_query(below(".//"), "jj file list", "/w", &["file", "list"]);
    check_query(below("./a"), "jj file list", "/w", &["file", "list", "./a"]);
}

#[test]
fn changed_files_commands() {
    let root = FilePath::from_text("/w");
    let listing = check_query(
        get_changed_files(&found(), &root),
        "jj diff",
        "/w",
        &["diff", "-r", "@", "--name-only"],
    );
    assert_eq!(listing, Listing::Paths);
    let listing = check_query(
        get_changed_files_between(&found(), "main", "@-", &root),
        "jj diff",
        "/w",
        &["diff", "--from", "main", "--to", "@-", "--name-only"],
    );
    assert_eq!(listing, Listing::Paths);
    let listing = check_query(
        get_conflicted_files(&found(), &root),
        "jj diff",
        "/w",
        &["diff", "-r", "@", "--types"],
    );
    assert_eq!(listing, Listing::Conflicts);
}

#[test]
fn relative_to_cwd_strips_what_lies_below() {
    let relative = |cwd: &str, path: &str| {
        text(&relative_to_cwd(
            &FilePath::from_text(cwd),
            &FilePath::from_text(path),
        ))
    };
    assert_eq!(relative("/w", "/w/a/b"), "a/b");
    assert_eq!(relative("/w/", "/w//a/"), "a");
    assert_eq!(relative("/w", "/w"), "/w");
    assert_eq!(relative("/w", "/wa"), "/wa");
    assert_eq!(relative("/w", "a"), "a");
    assert_eq!(relative("", "a"), "a");
}

#[test]
fn path_lines_leave_out_empty_lines() {
    assert_eq!(texts(&parse_path_lines(b"a\n\nb c\r\n\n")), vec!["a", "b c"]);
    assert_eq!(texts(&parse_path_lines(b" a \nb")), vec![" a ", "b"]);
    assert_eq!(texts(&parse_path_lines(b"a\r")), vec!["a\r"]);
    assert!(parse_path_lines(b"").is_empty());
    assert_eq!(texts(&path_lines_of("x\ny\n")), vec!["x", "y"]);
}

#[test]
fn path_lines_are_read_lossily() {
    let paths = parse_path_lines(b"a\xffb\n\xc3\xa9\n");
    assert_eq!(paths[0].as_bytes(), "a\u{fffd}b".as_bytes());
    assert_eq!(paths[1].as_bytes(), "\u{e9}".as_bytes());
}

#[test]
fn paths_printed_one_to_a_line_are_read_back() {
    let printed = vec!["a", "dir/b c", "\u{e9}", " d"];
    let output = format!("{}\n", printed.join("\n"));
    assert_eq!(texts(&parse_path_lines(output.as_bytes())), printed);
}

#[test]
fn conflicted_lines_need_a_conflict_in_the_status() {
    let output = "FC a.txt\nFF b.txt\n  CC   dir/c d.txt  \nC\nC \nxCx\te\n\nFF C\nF- C x\n";
    assert_eq!(
        texts(&conflicted_lines_of(output)),
        vec!["a.txt", "dir/c d.txt", "e"]
    );
}

#[test]
fn queries_read_their_output() {
    let root = FilePath::from_text("/w");
    let changed = get_changed_files(&found(), &root).unwrap();
    let files = changed.finish(Ok(b"C a\nb\xff\n".to_vec())).unwrap();
    assert_eq!(texts(&files), vec!["C a", "b\u{fffd}"]);
    let conflicts = get_conflicted_files(&found(), &root).unwrap();
    let files = conflicts.finish(Ok(b"C a\nb\xff\nFC \xff\n".to_vec())).unwrap();
    assert_eq!(texts(&files), vec!["a", "\u{fffd}"]);
    match conflicts.finish(Err(Error::Command("failed".to_owned()))) {
        Err(Error::Command(message)) => assert_eq!(message, "failed"),
        other => panic!("{other:?}"),
    }
}

#[test]
fn conflicts_printed_one_to_a_line_are_read_back() {
    let printed = vec![("FC", "a b"), ("FF", "C"), ("CL", "dir/\u{e9}"), ("-F", "d")];
    let mut output = String::new();
    for (status, path) in &printed {
        output.push_str(&format!("{status} {path}\n"));
    }
    assert_eq!(texts(&conflicted_lines_of(&output)), vec!["a b", "dir/\u{e9}"]);
}

#[test]
fn files_of_two_outputs_add_up() {
    let root = FilePath::from_text("/w");
    let queries = [
        get_changed_files(&found(), &root).unwrap(),
        get_conflicted_files(&found(), &root).unwrap(),
    ];
    for query in &queries {
        for a in [&b""[..], b"C a\n", b"\n", b"C \xe2\x82\n", b"C a\r\n\nb\n"] {
            for b in [&b"C d"[..], b"\xac C e\n", b"", b"\r\nCC \xff"] {
                let mut parts = texts(&query.finish(Ok(a.to_vec())).unwrap());
                parts.extend(texts(&query.finish(Ok(b.to_vec())).unwrap()));
                let whole = query.finish(Ok([a, b].concat())).unwrap();
                assert_eq!(texts(&whole), parts);
            }
        }
    }
}
