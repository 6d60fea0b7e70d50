use std::path::{Path, PathBuf};

use prek::path::{to_paths, FilePath};
use prek::path_set::PathSet;
use prek::split::{split_bytes, split_chars};

const PIECES: [&str; 9] = ["", "/", ".", "a", "..", "b.", "//", "./", "ab"];

fn samples() -> Vec<String> {
    let mut all: Vec<String> = Vec::new();
    for a in PIECES {
        for b in PIECES {
            for c in PIECES {
                for d in PIECES {
                    all.push(format!("{a}{b}{c}{d}"));
                }
            }
        }
    }
    all.sort();
    all.dedup();
    all
}

fn text(path: &FilePath) -> String {
    path.display()
}

#[test]
fn components_agree_with_the_standard_library() {
    for sample in samples() {
        let expected: Vec<Vec<u8>> = Path::new(&sample)
            .components()
            .map(|component| component.as_os_str().to_str().unwrap().as_bytes().to_vec())
            .collect();
        assert_eq!(FilePath::from_text(&sample).components(), expected, "{sample}");
    }
}

#[test]
fn pop_agrees_with_the_standard_library() {
    for sample in samples() {
        let mut path = FilePath::from_text(&sample);
        let mut expected = PathBuf::from(&sample);
        let popped = path.pop();
        assert_eq!(popped, expected.pop(), "{sample}");
        assert_eq!(text(&path), expected.to_str().unwrap(), "{sample}");
    }
}

#[test]
fn joining_agrees_with_the_standard_library() {
    let all = samples();
    for base in all.iter().step_by(7) {
        for rel in all.iter().step_by(11) {
            let joined = FilePath::from_text(base).join(&FilePath::from_text(rel));
            let expected = Path::new(base).join(rel);
            assert_eq!(text(&joined), expected.to_str().unwrap());
            assert_eq!(text(&FilePath::from_text(base).join_text(rel)), text(&joined));
        }
    }
}

#[test]
fn stripping_agrees_with_the_standard_library() {
    let bases = ["", "/", ".", "a", "./a", "/a", "a/b.", "/.", "..", "//a/./ab", "ab", "a/"];
    for sample in samples() {
        for base in bases {
            let rest = FilePath::from_text(&sample)
                .strip_prefix(&FilePath::from_text(base))
                .map(|rest| text(&rest));
            let expected = Path::new(&sample)
                .strip_prefix(base)
                .ok()
                .map(|rest| rest.to_str().unwrap().to_owned());
            assert_eq!(rest, expected, "{sample} without {base}");
        }
    }
}

#[test]
fn sameness_agrees_with_the_standard_library() {
    let all = samples();
    for a in all.iter().step_by(13) {
        for b in all.iter().step_by(5) {
            let same = FilePath::from_text(a).same_as(&FilePath::from_text(b));
            assert_eq!(same, Path::new(a) == Path::new(b), "{a} and {b}");
        }
    }
}

#[test]
fn absolute_and_empty_paths() {
    for sample in samples() {
        let path = FilePath::from_text(&sample);
        assert_eq!(path.is_absolute(), Path::new(&sample).is_absolute());
        assert_eq!(path.is_empty(), sample.is_empty());
    }
}

#[test]
fn every_stripped_path_joins_to_the_whole() {
    for sample in samples() {
        for base in ["", "a", "/a", ".", "/"] {
            let whole = FilePath::from_text(&sample);
            let base = FilePath::from_text(base);
            if let Some(rest) = whole.strip_prefix(&base) {
                assert!(base.join(&rest).same_as(&whole), "{sample}");
            }
        }
    }
}

#[test]
fn parent_is_a_shorter_prefix() {
    let mut path = FilePath::from_text("/usr/./lib//x/");
    assert!(path.pop());
    assert_eq!(text(&path), "/usr/./lib");
    assert!(path.pop());
    assert_eq!(text(&path), "/usr");
    assert!(path.pop());
    assert_eq!(text(&path), "/");
    assert!(!path.pop());
    assert_eq!(text(&path), "/");
}

#[test]
fn joined_components_are_appended() {
    let joined = FilePath::from_text("/a/.").join(&FilePath::from_text("b//c"));
    let expected: Vec<Vec<u8>> = vec![
        b"/".to_vec(),
        b"a".to_vec(),
        b"b".to_vec(),
        b"c".to_vec(),
    ];
    assert_eq!(joined.components(), expected);
}

#[test]
fn paths_need_not_be_text() {
    let path = FilePath::from_bytes(vec![b'a', 0xff, b'/', 0xfe]);
    assert_eq!(path.components(), vec![vec![b'a', 0xff], vec![0xfe]]);
    assert_eq!(path.display(), "a\u{fffd}/\u{fffd}");
    assert_eq!(path.clone().as_bytes(), path.as_bytes());
}

#[test]
fn paths_from_characters() {
    let path = FilePath::from_chars(&['\u{e9}', '/', 'x']);
    assert_eq!(path.as_bytes(), "\u{e9}/x".as_bytes());
    let copies = to_paths(&[path.clone(), FilePath::from_text("y")]);
    assert_eq!(copies.iter().map(text).collect::<Vec<_>>(), vec!["\u{e9}/x", "y"]);
}

#[test]
fn path_set_goes_by_components() {
    let set = PathSet::from_paths(&[
        FilePath::from_text("a//b/"),
        FilePath::from_text("./c"),
        FilePath::from_text("/"),
    ]);
    assert!(set.contains(&FilePath::from_text("a/b")));
    assert!(set.contains(&FilePath::from_text("a/./b")));
    assert!(set.contains(&FilePath::from_text("./c/.")));
    assert!(set.contains(&FilePath::from_text("//")));
    assert!(!set.contains(&FilePath::from_text("c")));
    assert!(!set.contains(&FilePath::from_text("a")));
    assert!(!set.contains(&FilePath::from_text("/a/b")));
    assert!(!set.contains(&FilePath::from_text("")));
    assert!(!PathSet::from_paths(&[]).contains(&FilePath::from_text("")));
}

#[test]
fn splitting_agrees_with_the_standard_library() {
    for sample in ["", "a", "\0", "a\0b", "\0a\0\0b\0"] {
        let expected: Vec<Vec<u8>> = sample
            .as_bytes()
            .split(|&byte| byte == 0)
            .map(|piece| piece.to_vec())
            .collect();
        assert_eq!(split_bytes(sample.as_bytes(), 0), expected);
        let chars: Vec<char> = sample.chars().collect();
        let expected: Vec<Vec<char>> = sample
            .split('\0')
            .map(|piece| piece.chars().collect())
            .collect();
        assert_eq!(split_chars(&chars, '\0'), expected);
    }
}

#[test]
fn split_pieces_join_to_the_whole() {
    let whole = b"/a//b/";
    assert_eq!(split_bytes(whole, b'/').join(&b'/'), whole.to_vec());
}
