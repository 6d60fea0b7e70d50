use prek::path::FilePath;
use prek::repo;
use prek::shebangs::{
    check_executables_have_shebangs, file_has_shebang, git_check_shebangs, os_check_shebangs,
    print_shebang_warning, shebang_warning_of, Error, HookReply, HookRequest, ShebangCheck,
    ShebangHook,
};
use prek::text::InvalidUtf8;
use std::io::Read;
use std::path::Path;
use tempfile::NamedTempFile;

fn read_shebang(path: &Path) -> Result<bool, String> {
    let mut file = fs_err::File::open(path).map_err(|err| err.to_string())?;
    let mut buf = [0u8; 2];
    let n = file.read(&mut buf).map_err(|err| err.to_string())?;
    Ok(file_has_shebang(&buf[..n]))
}

fn written(content: &[u8]) -> NamedTempFile {
    let file = NamedTempFile::new().unwrap();
    fs_err::write(file.path(), content).unwrap();
    file
}

fn read_all(check: &ShebangCheck) -> Vec<Result<bool, String>> {
    check
        .targets()
        .iter()
        .map(|target| read_shebang(Path::new(&target.display())))
        .collect()
}

fn paths(texts: &[&str]) -> Vec<FilePath> {
    texts.iter().map(|text| FilePath::from_text(text)).collect()
}

fn texts(paths: &[FilePath]) -> Vec<String> {
    paths.iter().map(|path| path.display()).collect()
}

#[test]
fn test_file_with_shebang() {
    let file = written(b"#!/bin/bash\necho Hello World\n");
    assert!(read_shebang(file.path()).unwrap());
}

#[test]
fn test_file_without_shebang() {
    let file = written(b"echo Hello World\n");
    assert!(!read_shebang(file.path()).unwrap());
}

#[test]
fn test_empty_file() {
    let file = written(b"");
    assert!(!read_shebang(file.path()).unwrap());
}

#[test]
fn test_file_with_partial_shebang() {
    let file = written(b"#\n");
    assert!(!read_shebang(file.path()).unwrap());
}

#[test]
fn test_file_with_shebang_and_spaces() {
    let file = written(b"#! /bin/bash\necho Test\n");
    assert!(read_shebang(file.path()).unwrap());
}

#[test]
fn test_file_with_non_shebang_start() {
    let file = written(b"##!/bin/bash\n");
    assert!(!read_shebang(file.path()).unwrap());
}

#[test]
fn test_os_check_shebangs_with_shebang() {
    let file = written(b"#!/bin/bash\necho ok\n");
    let files = paths(&[file.path().to_str().unwrap()]);
    let check = os_check_shebangs(&FilePath::from_text(""), &files);
    let (code, output) = check.finish(read_all(&check)).unwrap();
    assert_eq!(code, 0);
    assert!(output.is_empty());
}

#[test]
fn test_os_check_shebangs_without_shebang() {
    let file = written(b"echo ok\n");
    let files = paths(&[file.path().to_str().unwrap()]);
    let check = os_check_shebangs(&FilePath::from_text(""), &files);
    let (code, output) = check.finish(read_all(&check)).unwrap();
    assert_eq!(code, 1);
    assert!(
        String::from_utf8_lossy(&output)
            .contains("marked executable but has no (or invalid) shebang!")
    );
}

#[test]
fn two_bytes_are_enough() {
    for content in [&b"#!x"[..], b"#!", b"#", b"", b"!#", b"#\0!"] {
        let head = &content[..content.len().min(2)];
        assert_eq!(file_has_shebang(head), content.starts_with(b"#!"));
        assert_eq!(file_has_shebang(content), content.starts_with(b"#!"));
    }
}

const WARNING: &str = "\x1b[1m\x1b[33mbin/run\x1b[39m marked executable but has no (or invalid) \
shebang!\x1b[0m\n\
\x1b[2m  If it isn't supposed to be executable, try: 'chmod -x bin/run'\x1b[0m\n\
\x1b[2m  If on Windows, you may also need to: 'git add --chmod=-x bin/run'\x1b[0m\n\
\x1b[2m  If it is supposed to be executable, double-check its shebang.\x1b[0m\n";

#[test]
fn warning_in_full() {
    assert_eq!(shebang_warning_of("bin/run"), WARNING);
    assert_eq!(print_shebang_warning(&FilePath::from_text("bin/run")), WARNING);
}

#[test]
fn warning_shows_paths_lossily() {
    let path = FilePath::from_bytes(vec![b'x', 0xff]);
    assert_eq!(print_shebang_warning(&path), shebang_warning_of("x\u{fffd}"));
}

#[test]
fn files_are_read_below_the_base() {
    let check = os_check_shebangs(&FilePath::from_text("proj"), &paths(&["a", "/b", "c/d"]));
    assert_eq!(texts(check.files()), vec!["a", "/b", "c/d"]);
    assert_eq!(texts(check.targets()), vec!["proj/a", "/b", "proj/c/d"]);
}

#[test]
fn warnings_come_in_order_and_only_for_failures() {
    let check = os_check_shebangs(&FilePath::from_text("p"), &paths(&["a", "b", "c"]));
    let (code, output) = check.finish(vec![Ok(false), Ok(true), Ok(false)]).unwrap();
    assert_eq!(code, 1);
    let expected = format!("{}{}", shebang_warning_of("a"), shebang_warning_of("c"));
    assert_eq!(output, expected.into_bytes());
    let (code, output) = check.finish(vec![Ok(true), Ok(true), Ok(true)]).unwrap();
    assert_eq!((code, output.len()), (0, 0));
    let nothing = os_check_shebangs(&FilePath::from_text("p"), &[]);
    assert_eq!(nothing.finish(Vec::new()).unwrap(), (0, Vec::new()));
}

#[test]
fn first_failure_to_read_is_told() {
    let check = os_check_shebangs(&FilePath::from_text(""), &paths(&["a", "b", "c"]));
    let checked = vec![Ok(false), Err("one".to_owned()), Err("two".to_owned())];
    assert_eq!(check.finish(checked).unwrap_err(), "one");
}

const LISTING: &[u8] = b"100755 1234 0\tp/run\x00100644 1234 0\tp/doc\x00100755 1234 0\tp/other\x00";

#[test]
fn git_check_takes_recorded_executables() {
    let check = git_check_shebangs(
        &FilePath::from_text("p"),
        &paths(&["run", "doc"]),
        LISTING,
    )
    .unwrap();
    assert_eq!(texts(check.files()), vec!["run"]);
    assert_eq!(texts(check.targets()), vec!["p/run"]);
}

#[test]
fn git_check_refuses_a_listing_that_is_no_text() {
    match git_check_shebangs(&FilePath::from_text(""), &[], b"a\0b\xff\xff\0") {
        Err(repo::Error::Utf8(cause)) => assert_eq!(
            cause,
            InvalidUtf8 {
                valid_up_to: 1,
                error_len: Some(1)
            }
        ),
        other => panic!("{other:?}"),
    }
}

fn git_args(hook: &ShebangHook) -> Vec<String> {
    match hook.request() {
        Some(HookRequest::Output(cmd)) => {
            assert_eq!(cmd.check, Some(true));
            let mut all = vec![cmd.summary];
            for arg in cmd.args {
                all.push(String::from_utf8(arg).unwrap());
            }
            all
        }
        other => panic!("{other:?}"),
    }
}

fn targets(hook: &ShebangHook) -> Vec<String> {
    match hook.request() {
        Some(HookRequest::Shebangs(targets)) => texts(targets),
        other => panic!("{other:?}"),
    }
}

#[test]
fn hook_trusts_the_file_system_where_the_bit_is_stored() {
    let hook = check_executables_have_shebangs(&FilePath::from_text("p"), &paths(&["a", "b"]));
    assert_eq!(
        git_args(&hook),
        vec!["get file file mode", "config", "core.fileMode"]
    );
    let hook = hook.step(HookReply::Output(Ok(b"true\n".to_vec())));
    assert_eq!(targets(&hook), vec!["p/a", "p/b"]);
    let hook = hook.step(HookReply::Shebangs(vec![Ok(true)]));
    assert_eq!(targets(&hook), vec!["p/a", "p/b"]);
    let hook = hook.step(HookReply::Output(Ok(Vec::new())));
    let hook = hook.step(HookReply::Shebangs(vec![Ok(true), Ok(false)]));
    assert!(hook.request().is_none());
    match hook {
        ShebangHook::Done {
            result: Ok((code, output)),
        } => {
            assert_eq!(code, 1);
            assert_eq!(output, shebang_warning_of("b").into_bytes());
        }
        other => panic!("{other:?}"),
    }
}

#[test]
fn hook_asks_git_where_the_bit_is_not_stored() {
    let base = FilePath::from_text("p");
    let hook = check_executables_have_shebangs(&base, &paths(&["run", "doc"]));
    let hook = hook.step(HookReply::Output(Ok(b" false\n".to_vec())));
    assert_eq!(
        git_args(&hook),
        vec!["git ls-files", "ls-files", "--stage", "-z", "--", "p"]
    );
    let hook = hook.step(HookReply::Output(Ok(LISTING.to_vec())));
    assert_eq!(targets(&hook), vec!["p/run"]);
    let hook = hook.step(HookReply::Shebangs(vec![Ok(true)]));
    assert!(matches!(
        hook,
        ShebangHook::Done { result: Ok((0, output)) } if output.is_empty()
    ));
}

#[test]
fn hook_lists_everything_without_a_base() {
    let hook = check_executables_have_shebangs(&FilePath::from_text(""), &[]);
    let hook = hook.step(HookReply::Output(Ok(b"false".to_vec())));
    assert_eq!(
        git_args(&hook),
        vec!["git ls-files", "ls-files", "--stage", "-z", "--", "."]
    );
}

#[test]
fn hook_passes_failures_on() {
    let start = || check_executables_have_shebangs(&FilePath::from_text(""), &paths(&["a"]));
    let hook = start().step(HookReply::Output(Err("git".to_owned())));
    assert!(matches!(
        hook,
        ShebangHook::Done { result: Err(Error::Repo(repo::Error::Git(message))) }
            if message == "git"
    ));
    let hook = start().step(HookReply::Output(Ok(vec![0xff])));
    assert!(matches!(
        hook,
        ShebangHook::Done { result: Err(Error::Repo(repo::Error::Utf8(_))) }
    ));
    let listing = || start().step(HookReply::Output(Ok(b"false".to_vec())));
    let hook = listing().step(HookReply::Output(Err("git".to_owned())));
    assert!(matches!(
        hook,
        ShebangHook::Done { result: Err(Error::Repo(repo::Error::Git(_))) }
    ));
    let hook = listing().step(HookReply::Output(Ok(vec![0xe2, 0x82])));
    match hook {
        ShebangHook::Done {
            result: Err(Error::Repo(repo::Error::Utf8(cause))),
        } => assert_eq!((cause.valid_up_to, cause.error_len), (0, None)),
        other => panic!("{other:?}"),
    }
    let hook = start()
        .step(HookReply::Output(Ok(b"true".to_vec())))
        .step(HookReply::Shebangs(vec![Err("gone".to_owned())]));
    assert!(matches!(
        hook,
        ShebangHook::Done { result: Err(Error::Io(message)) } if message == "gone"
    ));
}
