//! Listing the files of a Jujutsu workspace.

use super::Error;
use crate::path::{
    components, is_absolute, join, law_components_of_names, law_components_spelling,
    law_separators, lemma_has_component, lemma_strip_prefix, strip_prefix, FilePath,
};
use crate::process::{env_map, Cmd, CmdView};
use crate::split::{
    join_with, lemma_filter_map_concat, lemma_views, lemma_views_push, views,
};
use crate::text::{
    from_utf8_lossy, is_bare, is_blank, is_solid, is_white_space, law_lines_add_up,
    law_lossy_adds_up, law_one_line, law_trim, law_trim_start, law_word_len, lines, lines_of,
    lossy_utf8, trim, trim_of, trim_start, trim_start_of, word_len, word_len_of,
};
use vstd::prelude::*;
use vstd::utf8::{decode_utf8, encode_utf8, valid_utf8};

verus! {

// ---------------------------------------------------------------------------------------------
// What Jujutsu prints.

/// The paths in a text with one path to a line. Empty lines name no path.
pub open spec fn path_lines(text: Seq<char>) -> Seq<Seq<u8>> {
    lines(text).filter_map(
        |line: Seq<char>|
            if line.len() > 0 {
                Some(encode_utf8(line))
            } else {
                None
            },
    )
}

/// The path in a line of status and path, if the status says that there is a conflict.
pub open spec fn conflicted_path(line: Seq<char>) -> Option<Seq<u8>> {
    let line = trim(line);
    let n = word_len(line) as int;
    let status = line.take(n);
    let path = trim_start(line.skip(n + 1));
    if n < line.len() && status.contains('C') && path.len() > 0 {
        Some(encode_utf8(path))
    } else {
        None
    }
}

/// The conflicted paths in a text with one status and path to a line.
pub open spec fn conflicted_lines(text: Seq<char>) -> Seq<Seq<u8>> {
    lines(text).filter_map(|line: Seq<char>| conflicted_path(line))
}

/// The paths in `text`, one to a line.
pub fn path_lines_of(text: &str) -> (paths: Vec<FilePath>)
    ensures
        views(paths@) == path_lines(text@),
{
    let all = lines_of(text);
    let ghost keep = |line: Seq<char>|
        if line.len() > 0 {
            Some(encode_utf8(line))
        } else {
            None
        };
    let mut paths: Vec<FilePath> = Vec::new();
    for i in 0..all.len()
        invariant
            keep == (|line: Seq<char>|
                if line.len() > 0 {
                    Some(encode_utf8(line))
                } else {
                    None
                }),
            views(paths@) == views(all@).take(i as int).filter_map(keep),
    {
        let ghost before = paths@;
        proof {
            let upto = views(all@).take(i + 1);
            assert(upto.drop_last() == views(all@).take(i as int));
            assert(upto.last() == all@[i as int]@);
        }
        if all[i].len() > 0 {
            let path = FilePath::from_chars(all[i].as_slice());
            proof {
                lemma_views_push(before, path);
                assert(views(before) + seq![path@] == views(before).push(path@));
            }
            paths.push(path);
        }
    }
    proof {
        assert(views(all@).take(all@.len() as int) == views(all@));
    }
    paths
}

/// The paths in `output`, one to a line.
pub fn parse_path_lines(output: &[u8]) -> (paths: Vec<FilePath>)
    ensures
        views(paths@) == path_lines(lossy_utf8(output@)),
        valid_utf8(output@) ==> views(paths@) == path_lines(decode_utf8(output@)),
{
    let text = from_utf8_lossy(output);
    path_lines_of(text.as_str())
}

fn contains_char(s: &[char], c: char) -> (res: bool)
    ensures
        res == s@.contains(c),
{
    for i in 0..s.len()
        invariant
            forall|j: int| 0 <= j < i ==> s@[j] != c,
    {
        if s[i] == c {
            proof {
                assert(s@[i as int] == c);
            }
            return true;
        }
    }
    false
}

fn conflicted_path_of(line: &[char]) -> (path: Option<FilePath>)
    ensures
        match path {
            Some(p) => conflicted_path(line@) == Some(p@),
            None => conflicted_path(line@) is None,
        },
{
    let line = trim_of(line);
    let n = word_len_of(line);
    if n == line.len() {
        return None;
    }
    let status = vstd::slice::slice_subrange(line, 0, n);
    let rest = vstd::slice::slice_subrange(line, n + 1, line.len());
    proof {
        assert(status@ == line@.take(n as int));
        assert(rest@ == line@.skip(n + 1));
    }
    let path = trim_start_of(rest);
    if contains_char(status, 'C') && path.len() > 0 {
        Some(FilePath::from_chars(path))
    } else {
        None
    }
}

/// The conflicted paths in `text`, one status and path to a line.
pub fn conflicted_lines_of(text: &str) -> (paths: Vec<FilePath>)
    ensures
        views(paths@) == conflicted_lines(text@),
{
    let all = lines_of(text);
    let ghost keep = |line: Seq<char>| conflicted_path(line);
    let mut paths: Vec<FilePath> = Vec::new();
    for i in 0..all.len()
        invariant
            keep == (|line: Seq<char>| conflicted_path(line)),
            views(paths@) == views(all@).take(i as int).filter_map(keep),
    {
        let ghost before = paths@;
        proof {
            let upto = views(all@).take(i + 1);
            assert(upto.drop_last() == views(all@).take(i as int));
            assert(upto.last() == all@[i as int]@);
        }
        if let Some(path) = conflicted_path_of(all[i].as_slice()) {
            proof {
                lemma_views_push(before, path);
                assert(views(before) + seq![path@] == views(before).push(path@));
            }
            paths.push(path);
        }
    }
    proof {
        assert(views(all@).take(all@.len() as int) == views(all@));
    }
    paths
}

// ---------------------------------------------------------------------------------------------
// Commands.

/// How the output of a command lists files.
#[derive(Debug, Clone, Copy, PartialEq, Eq, Structural)]
pub enum Listing {
    /// One path to a line.
    Paths,
    /// One status and path to a line, of which the conflicted ones count.
    Conflicts,
}

/// A command that lists files.
#[derive(Debug)]
pub struct JjQuery {
    pub cmd: Cmd,
    pub listing: Listing,
}

impl Listing {
    /// The files that `text` lists.
    pub open spec fn files(self, text: Seq<char>) -> Seq<Seq<u8>> {
        match self {
            Listing::Paths => path_lines(text),
            Listing::Conflicts => conflicted_lines(text),
        }
    }
}

impl JjQuery {
    /// The files that the output of the command lists, if it did not fail.
    pub fn finish(&self, output: Result<Vec<u8>, Error>) -> (files: Result<Vec<FilePath>, Error>)
        ensures
            match output {
                Ok(bytes) => {
                    &&& files is Ok
                    &&& views(files->Ok_0@) == self.listing.files(lossy_utf8(bytes@))
                    &&& valid_utf8(bytes@) ==> views(files->Ok_0@) == self.listing.files(
                        decode_utf8(bytes@),
                    )
                    &&& views(files->Ok_0@) == (match self.listing {
                        Listing::Paths => path_lines(lossy_utf8(bytes@)),
                        Listing::Conflicts => conflicted_lines(lossy_utf8(bytes@)),
                    })
                },
                Err(err) => files == Err::<Vec<FilePath>, Error>(err),
            },
    {
        match output {
            Ok(bytes) => match self.listing {
                Listing::Paths => Ok(parse_path_lines(bytes.as_slice())),
                Listing::Conflicts => {
                    let text = from_utf8_lossy(bytes.as_slice());
                    Ok(conflicted_lines_of(text.as_str()))
                },
            },
            Err(err) => Err(err),
        }
    }
}

/// A command for running Jujutsu, where it was found at `jj`.
pub fn jj_cmd(jj: &Result<FilePath, String>, summary: &str) -> (cmd: Result<Cmd, Error>)
    ensures
        match *jj {
            Ok(program) => cmd is Ok && cmd->Ok_0@ == (CmdView {
                program: program@,
                summary: summary@,
                current_dir: None,
                args: Seq::empty(),
                envs: Map::empty(),
                check: None,
            }),
            Err(cause) => cmd == Err::<Cmd, Error>(Error::JjNotFound(cause)),
        },
{
    match jj {
        Ok(program) => Ok(Cmd::new(program, summary)),
        Err(cause) => Err(Error::JjNotFound(cause.clone())),
    }
}

/// The command that runs Jujutsu in `dir`, and whose failure is an error.
pub open spec fn jj_command(
    program: Seq<u8>,
    summary: Seq<char>,
    dir: Seq<u8>,
    args: Seq<Seq<u8>>,
) -> CmdView {
    CmdView {
        program,
        summary,
        current_dir: Some(dir),
        args,
        envs: Map::empty(),
        check: Some(true),
    }
}

/// Whether `query` is the command with these arguments, if Jujutsu was found, and else the error
/// that it was not.
pub open spec fn is_query(
    query: Result<JjQuery, Error>,
    jj: Result<FilePath, String>,
    summary: Seq<char>,
    dir: Seq<u8>,
    args: Seq<Seq<u8>>,
    listing: Listing,
) -> bool {
    match jj {
        Ok(program) => {
            &&& query is Ok
            &&& query->Ok_0.cmd@ == jj_command(program@, summary, dir, args)
            &&& query->Ok_0.listing == listing
        },
        Err(cause) => query == Err::<JjQuery, Error>(Error::JjNotFound(cause)),
    }
}

/// `path` as seen from `cwd`, if it lies below it.
pub open spec fn relative_path(cwd: Seq<u8>, path: Seq<u8>) -> Seq<u8> {
    match strip_prefix(path, cwd) {
        Some(rest) if rest.len() > 0 => rest,
        _ => path,
    }
}

/// `path` as seen from `cwd`, if it lies below it.
pub fn relative_to_cwd(cwd: &FilePath, path: &FilePath) -> (res: FilePath)
    ensures
        res@ == relative_path(cwd@, path@),
{
    match path.strip_prefix(cwd) {
        Some(rest) => if rest.is_empty() {
            path.clone()
        } else {
            rest
        },
        None => path.clone(),
    }
}

/// Whether a path says no more than the current directory does.
pub open spec fn is_here(path: Seq<u8>) -> bool {
    path.len() == 0 || components(path) == components(encode_utf8("."@))
}

fn is_here_of(path: &FilePath) -> (res: bool)
    ensures
        res == is_here(path@),
{
    path.is_empty() || path.same_as(&FilePath::from_text("."))
}

/// The arguments that list the files below `path`.
pub open spec fn ls_files_args(cwd: Seq<u8>, path: Seq<u8>) -> Seq<Seq<u8>> {
    let relative = relative_path(cwd, path);
    let all = seq![encode_utf8("file"@), encode_utf8("list"@)];
    if is_here(relative) {
        all
    } else {
        all.push(relative)
    }
}

/// Lists the tracked files below `path`.
pub fn ls_files(jj: &Result<FilePath, String>, cwd: &FilePath, path: &FilePath) -> (res: Result<
    JjQuery,
    Error,
>)
    ensures
        is_query(
            res,
            *jj,
            "jj file list"@,
            cwd@,
            ls_files_args(cwd@, path@),
            Listing::Paths,
        ),
        (*jj) matches Ok(program) ==> {
            &&& res matches Ok(query)
            &&& query.cmd.program@ == program@
            &&& query.cmd.summary@ == "jj file list"@
            &&& query.cmd.current_dir matches Some(dir) && dir@ == cwd@
            &&& env_map(query.cmd.envs@) == Map::<Seq<char>, Seq<u8>>::empty()
            &&& query.cmd.check == Some(true)
            &&& query.listing == Listing::Paths
            &&& ({
                let relative = relative_path(cwd@, path@);
                let args = query.cmd.args@;
                let here = relative.len() == 0 || components(relative) == seq![seq![0x2eu8]];
                &&& args.len() == (if here {
                    2int
                } else {
                    3int
                })
                &&& args[0]@ == encode_utf8("file"@)
                &&& args[1]@ == encode_utf8("list"@)
                &&& !here ==> args[2]@ == relative
            })
        },
        (*jj) matches Err(cause) ==> res matches Err(Error::JjNotFound(err)) && err == cause,
{
    let relative = relative_to_cwd(cwd, path);
    let mut cmd = match jj_cmd(jj, "jj file list") {
        Ok(cmd) => cmd,
        Err(err) => {
            return Err(err);
        },
    };
    cmd.current_dir(cwd);
    cmd.arg("file");
    cmd.arg("list");
    if !is_here_of(&relative) {
        cmd.arg_path(&relative);
    }
    cmd.check(true);
    proof {
        assert(cmd@.args == ls_files_args(cwd@, path@));
        law_is_here(relative@);
        lemma_views(cmd.args@);
        let args = views(cmd.args@);
        assert(args == ls_files_args(cwd@, path@));
        assert(args[0] == cmd.args@[0]@ && args[1] == cmd.args@[1]@);
        if !is_here(relative@) {
            assert(args[2] == cmd.args@[2]@);
        }
    }
    Ok(JjQuery { cmd, listing: Listing::Paths })
}

/// The arguments that list the files that changed in the working copy.
pub open spec fn changed_args() -> Seq<Seq<u8>> {
    seq![
        encode_utf8("diff"@),
        encode_utf8("-r"@),
        encode_utf8("@"@),
        encode_utf8("--name-only"@),
    ]
}

/// The arguments that list the files that changed between two revisions.
pub open spec fn changed_between_args(old_rev: Seq<char>, new_rev: Seq<char>) -> Seq<Seq<u8>> {
    seq![
        encode_utf8("diff"@),
        encode_utf8("--from"@),
        encode_utf8(old_rev),
        encode_utf8("--to"@),
        encode_utf8(new_rev),
        encode_utf8("--name-only"@),
    ]
}

/// The arguments that list the status of the changed files.
pub open spec fn types_args() -> Seq<Seq<u8>> {
    seq![encode_utf8("diff"@), encode_utf8("-r"@), encode_utf8("@"@), encode_utf8("--types"@)]
}

/// Lists the files that changed in the working copy.
pub fn get_changed_files(jj: &Result<FilePath, String>, root: &FilePath) -> (res: Result<
    JjQuery,
    Error,
>)
    ensures
        is_query(
            res,
            *jj,
            "jj diff"@,
            root@,
            changed_args(),
            Listing::Paths,
        ),
        (*jj) matches Ok(program) ==> {
            &&& res matches Ok(query)
            &&& query.cmd.program@ == program@
            &&& query.cmd.summary@ == "jj diff"@
            &&& query.cmd.current_dir matches Some(dir) && dir@ == root@
            &&& env_map(query.cmd.envs@) == Map::<Seq<char>, Seq<u8>>::empty()
            &&& query.cmd.check == Some(true)
            &&& query.listing == Listing::Paths
            &&& views(query.cmd.args@) == seq![
                encode_utf8("diff"@),
                encode_utf8("-r"@),
                encode_utf8("@"@),
                encode_utf8("--name-only"@),
            ]
        },
        (*jj) matches Err(cause) ==> res matches Err(Error::JjNotFound(err)) && err == cause,
{
    let mut cmd = match jj_cmd(jj, "jj diff") {
        Ok(cmd) => cmd,
        Err(err) => {
            return Err(err);
        },
    };
    cmd.current_dir(root);
    cmd.arg("diff");
    cmd.arg("-r");
    cmd.arg("@");
    cmd.arg("--name-only");
    cmd.check(true);
    proof {
        assert(cmd@.args == changed_args());
    }
    Ok(JjQuery { cmd, listing: Listing::Paths })
}

/// Lists the files that changed between two revisions.
pub fn get_changed_files_between(
    jj: &Result<FilePath, String>,
    old_rev: &str,
    new_rev: &str,
    root: &FilePath,
) -> (res: Result<JjQuery, Error>)
    ensures
        is_query(
            res,
            *jj,
            "jj diff"@,
            root@,
            changed_between_args(old_rev@, new_rev@),
            Listing::Paths,
        ),
        (*jj) matches Ok(program) ==> {
            &&& res matches Ok(query)
            &&& query.cmd.program@ == program@
            &&& query.cmd.summary@ == "jj diff"@
            &&& query.cmd.current_dir matches Some(dir) && dir@ == root@
            &&& env_map(query.cmd.envs@) == Map::<Seq<char>, Seq<u8>>::empty()
            &&& query.cmd.check == Some(true)
            &&& query.listing == Listing::Paths
            &&& views(query.cmd.args@) == seq![
                encode_utf8("diff"@),
                encode_utf8("--from"@),
                encode_utf8(old_rev@),
                encode_utf8("--to"@),
                encode_utf8(new_rev@),
                encode_utf8("--name-only"@),
            ]
        },
        (*jj) matches Err(cause) ==> res matches Err(Error::JjNotFound(err)) && err == cause,
{
    let mut cmd = match jj_cmd(jj, "jj diff") {
        Ok(cmd) => cmd,
        Err(err) => {
            return Err(err);
        },
    };
    cmd.current_dir(root);
    cmd.arg("diff");
    cmd.arg("--from");
    cmd.arg(old_rev);
    cmd.arg("--to");
    cmd.arg(new_rev);
    cmd.arg("--name-only");
    cmd.check(true);
    proof {
        assert(cmd@.args == changed_between_args(old_rev@, new_rev@));
    }
    Ok(JjQuery { cmd, listing: Listing::Paths })
}

/// Lists the conflicted files in the working copy.
pub fn get_conflicted_files(jj: &Result<FilePath, String>, root: &FilePath) -> (res: Result<
    JjQuery,
    Error,
>)
    ensures
        is_query(
            res,
            *jj,
            "jj diff"@,
            root@,
            types_args(),
            Listing::Conflicts,
        ),
        (*jj) matches Ok(program) ==> {
            &&& res matches Ok(query)
            &&& query.cmd.program@ == program@
            &&& query.cmd.summary@ == "jj diff"@
            &&& query.cmd.current_dir matches Some(dir) && dir@ == root@
            &&& env_map(query.cmd.envs@) == Map::<Seq<char>, Seq<u8>>::empty()
            &&& query.cmd.check == Some(true)
            &&& query.listing == Listing::Conflicts
            &&& views(query.cmd.args@) == seq![
                encode_utf8("diff"@),
                encode_utf8("-r"@),
                encode_utf8("@"@),
                encode_utf8("--types"@),
            ]
        },
        (*jj) matches Err(cause) ==> res matches Err(Error::JjNotFound(err)) && err == cause,
{
    let mut cmd = match jj_cmd(jj, "jj diff") {
        Ok(cmd) => cmd,
        Err(err) => {
            return Err(err);
        },
    };
    cmd.current_dir(root);
    cmd.arg("diff");
    cmd.arg("-r");
    cmd.arg("@");
    cmd.arg("--types");
    cmd.check(true);
    proof {
        assert(cmd@.args == types_args());
    }
    Ok(JjQuery { cmd, listing: Listing::Conflicts })
}

// ---------------------------------------------------------------------------------------------
// Laws.

/// The text that has each of `items` on a line of its own.
pub open spec fn one_per_line(items: Seq<Seq<char>>) -> Seq<char> {
    join_with(items.push(Seq::empty()), '\n')
}

/// Whether `item` can stand on a line of its own.
pub open spec fn fits_line(item: Seq<char>) -> bool {
    !item.contains('\n') && (item.len() > 0 ==> item.last() != '\r')
}

/// What is printed one item to a line are the lines that are read.
pub proof fn law_lines_round_trip(items: Seq<Seq<char>>)
    requires
        forall|i: int| 0 <= i < items.len() ==> fits_line(#[trigger] items[i]),
    ensures
        lines(one_per_line(items)) == items,
{
    let pieces = items.push(Seq::empty());
    assert forall|i: int| 0 <= i < pieces.len() implies !(#[trigger] pieces[i]).contains('\n') by {
        if i < items.len() {
            assert(fits_line(items[i]));
        }
    }
    crate::split::lemma_join_split(pieces, '\n');
    let read = lines(one_per_line(items));
    assert(pieces.drop_last() == items);
    assert forall|i: int| 0 <= i < items.len() implies read[i] == items[i] by {
        assert(fits_line(items[i]));
    }
}

/// What is printed one path to a line is read back as it was.
pub proof fn law_path_lines_round_trip(items: Seq<Seq<char>>)
    requires
        forall|i: int|
            0 <= i < items.len() ==> (#[trigger] items[i]).len() > 0 && fits_line(items[i]),
    ensures
        path_lines(one_per_line(items)) == items.map_values(|item: Seq<char>| encode_utf8(item)),
{
    law_lines_round_trip(items);
    lemma_all_kept(items);
}

proof fn lemma_all_kept(items: Seq<Seq<char>>)
    requires
        forall|i: int| 0 <= i < items.len() ==> (#[trigger] items[i]).len() > 0,
    ensures
        items.filter_map(
            |line: Seq<char>|
                if line.len() > 0 {
                    Some(encode_utf8(line))
                } else {
                    None
                },
        ) == items.map_values(|item: Seq<char>| encode_utf8(item)),
    decreases items.len(),
{
    let encode = |item: Seq<char>| encode_utf8(item);
    if items.len() > 0 {
        let rest = items.drop_last();
        assert forall|i: int| 0 <= i < rest.len() implies (#[trigger] rest[i]).len() > 0 by {
            assert(rest[i] == items[i]);
        }
        lemma_all_kept(rest);
        assert(items.last().len() > 0);
        assert(rest.map_values(encode) + seq![encode_utf8(items.last())] == items.map_values(
            encode,
        ));
    } else {
        assert(items.map_values(encode) == Seq::<Seq<u8>>::empty());
    }
}

/// The paths in a text that ends with a line feed, followed by another text, are those of the one
/// and then those of the other.
pub proof fn law_path_lines_add_up(a: Seq<char>, b: Seq<char>)
    requires
        a.len() > 0 ==> a.last() == '\n',
    ensures
        path_lines(a + b) == path_lines(a) + path_lines(b),
{
    law_lines_add_up(a, b);
    lemma_filter_map_concat(
        lines(a),
        lines(b),
        |line: Seq<char>|
            if line.len() > 0 {
                Some(encode_utf8(line))
            } else {
                None
            },
    );
}

/// The conflicted paths in a text that ends with a line feed, followed by another text, are those
/// of the one and then those of the other.
pub proof fn law_conflicted_lines_add_up(a: Seq<char>, b: Seq<char>)
    requires
        a.len() > 0 ==> a.last() == '\n',
    ensures
        conflicted_lines(a + b) == conflicted_lines(a) + conflicted_lines(b),
{
    law_lines_add_up(a, b);
    lemma_filter_map_concat(lines(a), lines(b), |line: Seq<char>| conflicted_path(line));
}

/// The files that an output lists which ends with a line feed, followed by another output, are
/// those of the one and then those of the other, whether they are UTF-8 or not.
pub proof fn law_outputs_add_up(listing: Listing, a: Seq<u8>, b: Seq<u8>)
    requires
        a.len() > 0 ==> a.last() == 0x0a,
    ensures
        listing.files(lossy_utf8(a + b)) == listing.files(lossy_utf8(a)) + listing.files(
            lossy_utf8(b),
        ),
{
    if a.len() > 0 {
        law_lossy_adds_up(a, b);
    } else {
        assert(a + b == b);
        assert(lossy_utf8(a) + lossy_utf8(b) == lossy_utf8(b));
    }
    match listing {
        Listing::Paths => law_path_lines_add_up(lossy_utf8(a), lossy_utf8(b)),
        Listing::Conflicts => law_conflicted_lines_add_up(lossy_utf8(a), lossy_utf8(b)),
    }
}

/// Whether a status and a path can stand on a line that says both.
pub open spec fn fits_status_line(status: Seq<char>, path: Seq<char>) -> bool {
    &&& status.len() > 0
    &&& forall|i: int| 0 <= i < status.len() ==> !is_white_space(#[trigger] status[i])
    &&& path.len() > 0
    &&& !is_white_space(path[0])
    &&& !is_white_space(path.last())
}

/// A line of a status without white space, one blank and a path without white space around it
/// gives the path if there is a `C` in the status, and else nothing.
pub proof fn law_conflicted_line(status: Seq<char>, path: Seq<char>)
    requires
        fits_status_line(status, path),
    ensures
        conflicted_path(status.push(' ') + path) == (if status.contains('C') {
            Some(encode_utf8(path))
        } else {
            None
        }),
{
    let line = status.push(' ') + path;
    assert(line[0] == status[0]);
    assert(line.last() == path.last());
    assert(trim(line) == line);
    crate::text::lemma_word_len(line, status.len());
    assert(line.take(status.len() as int) == status);
    assert(line.skip(status.len() as int + 1) == path);
}

/// The lines of statuses and paths.
pub open spec fn status_lines(items: Seq<(Seq<char>, Seq<char>)>) -> Seq<Seq<char>> {
    items.map_values(|item: (Seq<char>, Seq<char>)| item.0.push(' ') + item.1)
}

/// The paths of the items with a `C` in the status.
pub open spec fn with_conflict(items: Seq<(Seq<char>, Seq<char>)>) -> Seq<Seq<u8>> {
    items.filter_map(
        |item: (Seq<char>, Seq<char>)|
            if item.0.contains('C') {
                Some(encode_utf8(item.1))
            } else {
                None
            },
    )
}

/// Of what is printed one status and path to a line, the paths with a conflict are read back.
pub proof fn law_conflicted_lines(items: Seq<(Seq<char>, Seq<char>)>)
    requires
        forall|i: int|
            0 <= i < items.len() ==> fits_status_line((#[trigger] items[i]).0, items[i].1)
                && !items[i].1.contains('\n'),
    ensures
        conflicted_lines(one_per_line(status_lines(items))) == with_conflict(items),
{
    let printed = status_lines(items);
    assert forall|i: int| 0 <= i < printed.len() implies fits_line(#[trigger] printed[i]) by {
        let (status, path) = items[i];
        let line = printed[i];
        assert(fits_status_line(status, path));
        assert(line.last() == path.last());
        assert forall|j: int| 0 <= j < line.len() implies line[j] != '\n' by {
            if j < status.len() {
                assert(!is_white_space(status[j]));
            } else if j > status.len() {
                assert(path.contains(path[j - status.len() - 1]));
            }
        }
    }
    law_lines_round_trip(printed);
    lemma_conflicts_kept(items);
}

proof fn lemma_conflicts_kept(items: Seq<(Seq<char>, Seq<char>)>)
    requires
        forall|i: int|
            0 <= i < items.len() ==> fits_status_line((#[trigger] items[i]).0, items[i].1),
    ensures
        status_lines(items).filter_map(|line: Seq<char>| conflicted_path(line)) == with_conflict(
            items,
        ),
    decreases items.len(),
{
    if items.len() > 0 {
        let rest = items.drop_last();
        assert forall|i: int| 0 <= i < rest.len() implies fits_status_line(
            (#[trigger] rest[i]).0,
            rest[i].1,
        ) by {
            assert(rest[i] == items[i]);
        }
        lemma_conflicts_kept(rest);
        let (status, path) = items.last();
        assert(fits_status_line(items[items.len() - 1].0, items[items.len() - 1].1));
        law_conflicted_line(status, path);
        assert(status_lines(items).drop_last() == status_lines(rest));
        assert(status_lines(items).last() == status.push(' ') + path);
    }
}

/// Seen from `cwd`, the shortened form of an absolute path is the same path.
pub proof fn law_relative_path(cwd: Seq<u8>, path: Seq<u8>)
    requires
        is_absolute(path),
    ensures
        components(join(cwd, relative_path(cwd, path))) == components(path),
{
    lemma_strip_prefix(path, cwd);
}

/// A path is shortened exactly if the components of `cwd` are the first ones of it and not all of
/// them; then it keeps the others.
pub proof fn law_relative_to_cwd(cwd: Seq<u8>, path: Seq<u8>)
    ensures
        ({
            let below = components(cwd).is_prefix_of(components(path)) && components(cwd).len()
                < components(path).len();
            &&& below ==> strip_prefix(path, cwd) == Some(relative_path(cwd, path))
            &&& below ==> components(relative_path(cwd, path)) == components(path).skip(
                components(cwd).len() as int,
            )
            &&& !below ==> relative_path(cwd, path) == path
        }),
{
    lemma_strip_prefix(path, cwd);
    if let Some(rest) = strip_prefix(path, cwd) {
        if rest.len() > 0 {
            lemma_has_component(rest);
        } else {
            law_components_of_names(Seq::empty());
            assert(join_with(Seq::<Seq<u8>>::empty(), 0x2fu8) == rest);
        }
    }
}

/// A path says no more than the current directory does if it is empty or its one component is a
/// dot.
pub proof fn law_is_here(path: Seq<u8>)
    ensures
        is_here(path) <==> path.len() == 0 || components(path) == seq![seq![0x2eu8]],
{
    law_separators();
    law_components_of_names(Seq::empty());
    law_components_spelling(seq![0x2eu8], Seq::empty());
    assert(seq![0x2eu8].push(0x2fu8) == seq![0x2eu8, 0x2fu8] + join_with(
        Seq::<Seq<u8>>::empty(),
        0x2fu8,
    ));
    assert(components(seq![0x2eu8]) == seq![seq![0x2eu8]] + Seq::<Seq<u8>>::empty());
    assert(seq![seq![0x2eu8]] + Seq::<Seq<u8>>::empty() == seq![seq![0x2eu8]]);
}

/// A text of one line names the line as a path. An empty line names none, and a carriage return
/// belongs to the line only if no line feed follows it.
pub proof fn law_one_path_line(line: Seq<char>)
    requires
        !line.contains('\n'),
    ensures
        ({
            let cut = line.len() > 0 && line.last() == '\r';
            let ended = if cut {
                line.drop_last()
            } else {
                line
            };
            &&& path_lines(line) == (if line.len() > 0 {
                seq![encode_utf8(line)]
            } else {
                Seq::empty()
            })
            &&& path_lines(line.push('\n')) == (if ended.len() > 0 {
                seq![encode_utf8(ended)]
            } else {
                Seq::empty()
            })
        }),
{
    law_one_line(line);
    reveal_with_fuel(Seq::filter_map, 3);
    let cut = line.len() > 0 && line.last() == '\r';
    let ended = if cut {
        line.drop_last()
    } else {
        line
    };
    assert(seq![line].drop_last() == Seq::<Seq<char>>::empty());
    assert(seq![ended].drop_last() == Seq::<Seq<char>>::empty());
}

/// A line of a status, white space and a path, with white space around it, gives the path if there
/// is a `C` in the status, and else nothing.
pub proof fn law_conflicted_path(
    before: Seq<char>,
    status: Seq<char>,
    gap: Seq<char>,
    path: Seq<char>,
    after: Seq<char>,
)
    requires
        is_blank(before),
        status.len() > 0,
        is_solid(status),
        gap.len() > 0,
        is_blank(gap),
        path.len() > 0,
        is_bare(path),
        is_blank(after),
    ensures
        conflicted_path(before + (status + gap + path) + after) == (if status.contains('C') {
            Some(encode_utf8(path))
        } else {
            None
        }),
{
    let line = status + gap + path;
    assert(line[0] == status[0]);
    assert(line.last() == path.last());
    law_trim(before, line, after);
    assert(line == status + (gap + path));
    law_word_len(status, gap + path);
    let n = status.len() as int;
    assert(line.take(n) == status);
    let fewer = gap.skip(1);
    assert forall|i: int| 0 <= i < fewer.len() implies is_white_space(#[trigger] fewer[i]) by {
        assert(fewer[i] == gap[i + 1]);
    }
    assert(line.skip(n + 1) == fewer + path);
    law_trim_start(fewer, path);
}

/// A line of at most one word gives nothing.
pub proof fn law_conflicted_word(before: Seq<char>, word: Seq<char>, after: Seq<char>)
    requires
        is_blank(before),
        is_solid(word),
        is_blank(after),
    ensures
        conflicted_path(before + word + after) is None,
{
    law_trim(before, word, after);
    law_word_len(word, Seq::empty());
    assert(word + Seq::<char>::empty() == word);
}

/// A text of one line gives what the line gives.
pub proof fn law_one_conflicted_line(line: Seq<char>)
    requires
        !line.contains('\n'),
    ensures
        ({
            let ended = if line.len() > 0 && line.last() == '\r' {
                line.drop_last()
            } else {
                line
            };
            &&& line.len() == 0 ==> conflicted_lines(line) == Seq::<Seq<u8>>::empty()
            &&& line.len() > 0 ==> conflicted_lines(line) == (match conflicted_path(line) {
                Some(path) => seq![path],
                None => Seq::empty(),
            })
            &&& conflicted_lines(line.push('\n')) == (match conflicted_path(ended) {
                Some(path) => seq![path],
                None => Seq::empty(),
            })
        }),
{
    law_one_line(line);
    reveal_with_fuel(Seq::filter_map, 3);
    let ended = if line.len() > 0 && line.last() == '\r' {
        line.drop_last()
    } else {
        line
    };
    assert(seq![line].drop_last() == Seq::<Seq<char>>::empty());
    assert(seq![ended].drop_last() == Seq::<Seq<char>>::empty());
}

/// The arguments that list files name the path that is asked for, as seen from `cwd`, unless that
/// is the current directory. A path below `cwd` is named by the components that follow those of
/// `cwd`.
pub proof fn law_ls_files_args(cwd: Seq<u8>, path: Seq<u8>)
    ensures
        ({
            let args = ls_files_args(cwd, path);
            let n = components(cwd).len() as int;
            let below = components(cwd).is_prefix_of(components(path)) && n < components(
                path,
            ).len();
            let rest = if below {
                components(path).skip(n)
            } else {
                components(path)
            };
            &&& args.len() == 2 || args.len() == 3
            &&& args[0] == encode_utf8("file"@)
            &&& args[1] == encode_utf8("list"@)
            &&& args.len() == 2 <==> rest.len() == 0 || rest == seq![seq![0x2eu8]]
            &&& args.len() == 3 ==> components(args[2]) == rest
            &&& args.len() == 3 && !below ==> args[2] == path
        }),
{
    let relative = relative_path(cwd, path);
    law_relative_to_cwd(cwd, path);
    law_is_here(relative);
    if relative.len() > 0 {
        lemma_has_component(relative);
    } else {
        law_components_of_names(Seq::empty());
        assert(join_with(Seq::<Seq<u8>>::empty(), 0x2fu8) == relative);
    }
}

/// The arguments that list changes: of the working copy by name, between two revisions in the order
/// that they are given, and of the working copy by status.
pub proof fn law_diff_args(old_rev: Seq<char>, new_rev: Seq<char>)
    ensures
        changed_args() == seq!["diff"@, "-r"@, "@"@, "--name-only"@].map_values(
            |arg: Seq<char>| encode_utf8(arg),
        ),
        changed_between_args(old_rev, new_rev) == seq![
            "diff"@,
            "--from"@,
            old_rev,
            "--to"@,
            new_rev,
            "--name-only"@,
        ].map_values(|arg: Seq<char>| encode_utf8(arg)),
        types_args() == seq!["diff"@, "-r"@, "@"@, "--types"@].map_values(
            |arg: Seq<char>| encode_utf8(arg),
        ),
{
}

} // verus!
