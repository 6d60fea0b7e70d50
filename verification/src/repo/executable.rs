//! Which files the repository records as executable.

use super::Error;
use crate::path::{components, join, lemma_strip_prefix, strip_prefix, FilePath};
use crate::path_set::{is_among, PathSet};
use crate::process::{GitCmd, GitCmdView};
use crate::split::{
    is_subsequence, lemma_first_piece, lemma_piece_len, lemma_views_push, piece_len, piece_len_of,
    split_bytes, split_on, views,
};
use crate::text::{
    chars_of, first_word, first_word_of, from_utf8, is_blank, is_solid, is_white_space,
    law_first_word, law_no_first_word, law_trim, lemma_trim_parts, parse_octal, parse_octal_of,
    trim, trim_of, utf8_error, InvalidUtf8,
};
use vstd::prelude::*;
use vstd::utf8::{decode_utf8, encode_utf8, valid_utf8};

verus! {

// ---------------------------------------------------------------------------------------------
// Whether the repository records it at all.

/// The command that prints whether the repository stores the executable bit.
pub open spec fn file_mode_cmd() -> GitCmdView {
    GitCmdView {
        summary: "get file file mode"@,
        args: seq![encode_utf8("config"@), encode_utf8("core.fileMode"@)],
        check: Some(true),
    }
}

/// Whether what Git prints says that the repository stores the executable bit: it does unless
/// it says `false`.
pub open spec fn says_tracked(text: Seq<char>) -> bool {
    trim(text) != "false"@
}

/// Asks Git whether the repository stores the executable bit. Also in a Jujutsu workspace it is
/// the Git directory behind it that does.
pub fn tracks_executable_bit_cmd() -> (cmd: GitCmd)
    ensures
        cmd@ == file_mode_cmd(),
        cmd.summary@ == "get file file mode"@,
        views(cmd.args@) == seq![encode_utf8("config"@), encode_utf8("core.fileMode"@)],
        cmd.check == Some(true),
{
    let mut cmd = GitCmd::new("get file file mode");
    cmd.arg("config");
    cmd.arg("core.fileMode");
    cmd.check(true);
    proof {
        assert(cmd@.args == file_mode_cmd().args);
    }
    cmd
}

/// Whether the repository stores the executable bit, by what Git printed.
pub fn tracks_executable_bit(stdout: &[u8]) -> (res: Result<bool, Error>)
    ensures
        res is Ok <==> valid_utf8(stdout@),
        res matches Ok(tracks) ==> tracks == says_tracked(decode_utf8(stdout@)),
        res matches Err(err) ==> err == Error::Utf8(utf8_error(stdout@)),
{
    match from_utf8(stdout) {
        Ok(text) => {
            let chars = chars_of(text);
            let answer = trim_of(chars.as_slice());
            let no = chars_of("false");
            Ok(!chars_eq(answer, no.as_slice()))
        },
        Err(cause) => Err(Error::Utf8(cause)),
    }
}

fn chars_eq(a: &[char], b: &[char]) -> (res: bool)
    ensures
        res == (a@ == b@),
{
    if a.len() != b.len() {
        return false;
    }
    for i in 0..a.len()
        invariant
            a@.len() == b@.len(),
            forall|j: int| 0 <= j < i ==> a@[j] == b@[j],
    {
        if a[i] != b[i] {
            return false;
        }
    }
    proof {
        assert(a@ == b@);
    }
    true
}

// ---------------------------------------------------------------------------------------------
// The executable files.

/// The command that lists the recorded mode of every file below `file_base`.
pub open spec fn ls_stage_cmd(file_base: Seq<u8>) -> GitCmdView {
    GitCmdView {
        summary: "git ls-files"@,
        args: seq![
            encode_utf8("ls-files"@),
            encode_utf8("--stage"@),
            encode_utf8("-z"@),
            encode_utf8("--"@),
            if file_base.len() == 0 {
                encode_utf8("."@)
            } else {
                file_base
            },
        ],
        check: Some(true),
    }
}

/// Asks Git for the recorded mode of every file below `file_base`.
pub fn executable_files_cmd(file_base: &FilePath) -> (cmd: GitCmd)
    ensures
        cmd@ == ls_stage_cmd(file_base@),
        cmd.summary@ == "git ls-files"@,
        views(cmd.args@) == seq![
            encode_utf8("ls-files"@),
            encode_utf8("--stage"@),
            encode_utf8("-z"@),
            encode_utf8("--"@),
            if file_base@.len() > 0 {
                file_base@
            } else {
                encode_utf8("."@)
            },
        ],
        cmd.check == Some(true),
{
    let mut cmd = GitCmd::new("git ls-files");
    cmd.arg("ls-files");
    cmd.arg("--stage");
    cmd.arg("-z");
    cmd.arg("--");
    if file_base.is_empty() {
        cmd.arg(".");
    } else {
        cmd.arg_path(file_base);
    }
    cmd.check(true);
    proof {
        assert(cmd@.args == ls_stage_cmd(file_base@).args);
    }
    cmd
}

/// The entries of a listing in which each ends with a zero byte.
pub open spec fn entries(stdout: Seq<u8>) -> Seq<Seq<u8>> {
    split_on(stdout, 0u8)
}

/// Whether a mode has an executable bit, for whomever.
pub open spec fn is_executable(mode: u32) -> bool {
    mode & 0o111 != 0
}

/// `path` as seen from `file_base`, if it lies below it.
pub open spec fn below(file_base: Seq<u8>, path: Seq<u8>) -> Seq<u8> {
    match strip_prefix(path, file_base) {
        Some(rest) => rest,
        None => path,
    }
}

/// The path that an entry of a listing is about: everything after its first tab.
pub open spec fn recorded_path(entry: Seq<char>) -> Seq<u8> {
    encode_utf8(entry.skip(piece_len(entry, '\t') as int + 1))
}

/// The mode that an entry of a listing records: the first word before its first tab, in octal.
pub open spec fn recorded_mode(entry: Seq<char>) -> Option<u32> {
    match first_word(entry.take(piece_len(entry, '\t') as int)) {
        Some(word) => parse_octal(word),
        None => None,
    }
}

/// What an entry of a listing contributes to the executable files among `filenames`.
///
/// An entry is the mode and further words, a tab, and the path, which may hold tabs itself. It
/// contributes the path as seen from `file_base`, if that is among `filenames`, which are named
/// from there too, and the mode has an executable bit. An entry of another form contributes
/// nothing.
pub open spec fn executable_entry(
    file_base: Seq<u8>,
    filenames: Seq<Seq<u8>>,
    entry: Seq<char>,
) -> Option<Seq<u8>> {
    let path = below(file_base, recorded_path(entry));
    match recorded_mode(entry) {
        Some(mode) => if entry.contains('\t') && is_among(filenames, path) && is_executable(mode) {
            Some(path)
        } else {
            None
        },
        None => None,
    }
}

/// The executable files among `filenames` by a listing of which every entry is UTF-8.
pub open spec fn executable_entries(
    file_base: Seq<u8>,
    filenames: Seq<Seq<u8>>,
    listed: Seq<Seq<u8>>,
) -> Seq<Seq<u8>> {
    listed.filter_map(
        |entry: Seq<u8>| executable_entry(file_base, filenames, decode_utf8(entry)),
    )
}

/// Whether all entries are UTF-8.
pub open spec fn all_utf8(listed: Seq<Seq<u8>>) -> bool {
    forall|i: int| 0 <= i < listed.len() ==> valid_utf8(#[trigger] listed[i])
}

/// What is wrong with the first entry that is not UTF-8.
pub open spec fn first_utf8_error(listed: Seq<Seq<u8>>) -> InvalidUtf8
    decreases listed.len(),
{
    if listed.len() > 0 && valid_utf8(listed[0]) {
        first_utf8_error(listed.skip(1))
    } else {
        utf8_error(listed[0])
    }
}

/// The first entry that is not UTF-8 decides.
pub proof fn lemma_first_utf8_error(listed: Seq<Seq<u8>>, i: int)
    requires
        0 <= i < listed.len(),
        all_utf8(listed.take(i)),
        !valid_utf8(listed[i]),
    ensures
        first_utf8_error(listed) == utf8_error(listed[i]),
    decreases i,
{
    if i > 0 {
        let rest = listed.skip(1);
        assert(listed.take(i)[0] == listed[0]);
        assert forall|j: int| 0 <= j < i - 1 implies valid_utf8(#[trigger] rest.take(i - 1)[j]) by {
            assert(rest.take(i - 1)[j] == listed.take(i)[j + 1]);
        }
        lemma_first_utf8_error(rest, i - 1);
    }
}

/// Whether `set` holds exactly `filenames`.
spec fn holds_exactly(set: Set<Seq<Seq<u8>>>, filenames: Seq<Seq<u8>>) -> bool {
    forall|path: Seq<u8>|
        set.contains(#[trigger] components(path)) <==> is_among(filenames, path)
}

fn executable_entry_of(
    file_base: &FilePath,
    filenames: &[FilePath],
    wanted: &PathSet,
    entry: &str,
) -> (res: Option<FilePath>)
    requires
        holds_exactly(wanted@, views(filenames@)),
    ensures
        match res {
            Some(path) => executable_entry(file_base@, views(filenames@), entry@) == Some(path@),
            None => executable_entry(file_base@, views(filenames@), entry@) is None,
        },
{
    let chars = chars_of(entry);
    let n = piece_len_of(chars.as_slice(), '\t');
    proof {
        lemma_piece_len(entry@, '\t');
        if n == entry@.len() {
            assert(entry@.take(n as int) == entry@);
        } else {
            assert(entry@[n as int] == '\t');
        }
    }
    if n == chars.len() {
        return None;
    }
    let metadata = vstd::slice::slice_subrange(chars.as_slice(), 0, n);
    let name = vstd::slice::slice_subrange(chars.as_slice(), n + 1, chars.len());
    proof {
        assert(metadata@ == entry@.take(n as int));
        assert(name@ == entry@.skip(n + 1));
    }
    let recorded = FilePath::from_chars(name);
    let path = match recorded.strip_prefix(file_base) {
        Some(rest) => rest,
        None => recorded,
    };
    if !wanted.contains(&path) {
        return None;
    }
    match first_word_of(metadata) {
        Some(word) => match parse_octal_of(word) {
            Some(mode) => if mode & 0o111 != 0 {
                Some(path)
            } else {
                None
            },
            None => None,
        },
        None => None,
    }
}

fn path_set(filenames: &[FilePath]) -> (set: PathSet)
    ensures
        holds_exactly(set@, views(filenames@)),
{
    let set = PathSet::from_paths(filenames);
    proof {
        let names = views(filenames@);
        assert forall|path: Seq<u8>|
            set@.contains(#[trigger] components(path)) <==> is_among(names, path) by {
            if set@.contains(components(path)) {
                let i = choose|i: int|
                    0 <= i < filenames@.len() && components((#[trigger] filenames@[i])@)
                        == components(path);
                assert(names[i] == filenames@[i]@);
            }
            if is_among(names, path) {
                let i = choose|i: int|
                    0 <= i < names.len() && components(#[trigger] names[i]) == components(path);
                assert(components(filenames@[i]@) == components(path));
            }
        }
    }
    set
}

/// How the executable files grow with one entry more.
proof fn lemma_one_more_entry(
    file_base: Seq<u8>,
    filenames: Seq<Seq<u8>>,
    listed: Seq<Seq<u8>>,
    i: int,
)
    requires
        0 <= i < listed.len(),
    ensures
        executable_entries(file_base, filenames, listed.take(i + 1)) == (match executable_entry(
            file_base,
            filenames,
            decode_utf8(listed[i]),
        ) {
            Some(path) => executable_entries(file_base, filenames, listed.take(i)).push(path),
            None => executable_entries(file_base, filenames, listed.take(i)),
        }),
        all_utf8(listed.take(i)) && valid_utf8(listed[i]) ==> all_utf8(listed.take(i + 1)),
{
    assert(listed.take(i + 1).drop_last() == listed.take(i));
    assert(listed.take(i + 1).last() == listed[i]);
    let before = executable_entries(file_base, filenames, listed.take(i));
    if let Some(path) = executable_entry(file_base, filenames, decode_utf8(listed[i])) {
        assert(before + seq![path] == before.push(path));
    }
    if all_utf8(listed.take(i)) && valid_utf8(listed[i]) {
        assert forall|j: int| 0 <= j < i + 1 implies valid_utf8(
            #[trigger] listed.take(i + 1)[j],
        ) by {
            if j < i {
                assert(listed.take(i)[j] == listed.take(i + 1)[j]);
            }
        }
    }
}

/// The files among `filenames`, which are named from `file_base`, that the repository records as
/// executable, by the listing that Git printed. A listing with an entry that is not UTF-8 is
/// refused.
pub fn executable_files(
    file_base: &FilePath,
    filenames: &[FilePath],
    stdout: &[u8],
) -> (res: Result<Vec<FilePath>, Error>)
    ensures
        res is Ok <==> all_utf8(entries(stdout@)),
        res is Ok <==> (forall|i: int|
            0 <= i < split_on(stdout@, 0u8).len() ==> valid_utf8(
                #[trigger] split_on(stdout@, 0u8)[i],
            )),
        res matches Ok(files) ==> views(files@) == executable_entries(
            file_base@,
            views(filenames@),
            entries(stdout@),
        ),
        res matches Ok(files) ==> forall|k: int|
            0 <= k < files@.len() ==> is_among(views(filenames@), (#[trigger] files@[k])@),
        res matches Err(err) ==> err == Error::Utf8(first_utf8_error(entries(stdout@))),
{
    let wanted = path_set(filenames);
    let listed = split_bytes(stdout, 0u8);
    let ghost all = entries(stdout@);
    let ghost names = views(filenames@);
    let mut files: Vec<FilePath> = Vec::new();
    proof {
        assert(views(files@) == executable_entries(file_base@, names, all.take(0)));
    }
    for i in 0..listed.len()
        invariant
            all == views(listed@),
            all == entries(stdout@),
            names == views(filenames@),
            holds_exactly(wanted@, names),
            all_utf8(all.take(i as int)),
            views(files@) == executable_entries(file_base@, names, all.take(i as int)),
    {
        let ghost before = files@;
        proof {
            assert(all[i as int] == listed@[i as int]@);
            lemma_one_more_entry(file_base@, names, all, i as int);
        }
        match from_utf8(listed[i].as_slice()) {
            Ok(entry) => {
                if let Some(path) = executable_entry_of(file_base, filenames, &wanted, entry) {
                    proof {
                        lemma_views_push(before, path);
                    }
                    files.push(path);
                }
            },
            Err(cause) => {
                proof {
                    lemma_first_utf8_error(all, i as int);
                }
                return Err(Error::Utf8(cause));
            },
        }
    }
    proof {
        assert(all.take(all.len() as int) == all);
        law_executable_files(file_base@, names, all);
        assert forall|k: int| 0 <= k < files@.len() implies is_among(
            names,
            (#[trigger] files@[k])@,
        ) by {
            assert(views(files@)[k] == files@[k]@);
        }
    }
    Ok(files)
}

// ---------------------------------------------------------------------------------------------
// Laws.

/// What an entry contributes is one of the files asked for. Where the recorded path lies below
/// `file_base`, it is that path, as seen from there.
pub proof fn law_executable_is_among(
    file_base: Seq<u8>,
    filenames: Seq<Seq<u8>>,
    entry: Seq<char>,
)
    ensures
        executable_entry(file_base, filenames, entry) matches Some(path) ==> {
            &&& is_among(filenames, path)
            &&& components(file_base).is_prefix_of(components(recorded_path(entry)))
                ==> components(join(file_base, path)) == components(recorded_path(entry))
        },
{
    lemma_strip_prefix(recorded_path(entry), file_base);
}

/// The executable files are a subset of the files asked for, and no entry that contributes a file
/// is passed over.
pub proof fn law_executable_files(
    file_base: Seq<u8>,
    filenames: Seq<Seq<u8>>,
    listed: Seq<Seq<u8>>,
)
    ensures
        forall|k: int|
            0 <= k < executable_entries(file_base, filenames, listed).len() ==> is_among(
                filenames,
                #[trigger] executable_entries(file_base, filenames, listed)[k],
            ),
        forall|i: int|
            0 <= i < listed.len() ==> (executable_entry(
                file_base,
                filenames,
                decode_utf8(#[trigger] listed[i]),
            ) matches Some(path) ==> executable_entries(file_base, filenames, listed).contains(
                path,
            )),
    decreases listed.len(),
{
    if listed.len() > 0 {
        let before = listed.drop_last();
        let last = listed.len() - 1;
        law_executable_files(file_base, filenames, before);
        lemma_one_more_entry(file_base, filenames, listed, last);
        assert(listed.take(last) == before);
        assert(listed.take(last + 1) == listed);
        law_executable_is_among(file_base, filenames, decode_utf8(listed[last]));
        let found = executable_entries(file_base, filenames, listed);
        let earlier = executable_entries(file_base, filenames, before);
        assert forall|k: int| 0 <= k < found.len() implies is_among(
            filenames,
            #[trigger] found[k],
        ) by {
            if k < earlier.len() {
                assert(found[k] == earlier[k]);
            }
        }
        assert forall|i: int| 0 <= i < listed.len() implies (executable_entry(
            file_base,
            filenames,
            decode_utf8(#[trigger] listed[i]),
        ) matches Some(path) ==> found.contains(path)) by {
            if let Some(path) = executable_entry(file_base, filenames, decode_utf8(listed[i])) {
                if i < last {
                    assert(before[i] == listed[i]);
                    let k = choose|k: int| 0 <= k < earlier.len() && earlier[k] == path;
                    assert(found[k] == path);
                } else {
                    assert(found.last() == path);
                }
            }
        }
    }
}

/// Whether every path among `some` is among `more`.
pub open spec fn are_among(some: Seq<Seq<u8>>, more: Seq<Seq<u8>>) -> bool {
    forall|path: Seq<u8>| #[trigger] is_among(some, path) ==> is_among(more, path)
}

/// If more files are asked for, the same files are found and possibly more: the executable ones
/// among `some` are those among `more` that are among `some`, in the same order.
pub proof fn law_more_executable_files(
    file_base: Seq<u8>,
    some: Seq<Seq<u8>>,
    more: Seq<Seq<u8>>,
    listed: Seq<Seq<u8>>,
)
    requires
        are_among(some, more),
    ensures
        executable_entries(file_base, some, listed) == executable_entries(
            file_base,
            more,
            listed,
        ).filter(|path: Seq<u8>| is_among(some, path)),
        is_subsequence(
            executable_entries(file_base, some, listed),
            executable_entries(file_base, more, listed),
        ),
    decreases listed.len(),
{
    reveal(Seq::filter);
    let asked = |path: Seq<u8>| is_among(some, path);
    if listed.len() > 0 {
        let last = listed.len() - 1;
        let entry = decode_utf8(listed[last]);
        assert(listed.take(last) == listed.drop_last());
        assert(listed.take(last + 1) == listed);
        law_more_executable_files(file_base, some, more, listed.drop_last());
        lemma_one_more_entry(file_base, some, listed, last);
        lemma_one_more_entry(file_base, more, listed, last);
        let few = executable_entries(file_base, some, listed.drop_last());
        let many = executable_entries(file_base, more, listed.drop_last());
        if let Some(path) = executable_entry(file_base, more, entry) {
            assert(many.push(path).drop_last() == many);
            assert(few.push(path).drop_last() == few);
            assert(executable_entry(file_base, some, entry) == (if asked(path) {
                Some(path)
            } else {
                None
            }));
        }
    }
}

/// Which files are found depends on the set of files asked for alone: not on their order, on how
/// often one is named, or on how its path is spelled.
pub proof fn law_executable_files_by_set(
    file_base: Seq<u8>,
    some: Seq<Seq<u8>>,
    same: Seq<Seq<u8>>,
    listed: Seq<Seq<u8>>,
)
    requires
        are_among(some, same),
        are_among(same, some),
    ensures
        executable_entries(file_base, some, listed) == executable_entries(file_base, same, listed),
    decreases listed.len(),
{
    if listed.len() > 0 {
        let last = listed.len() - 1;
        assert(listed.take(last) == listed.drop_last());
        assert(listed.take(last + 1) == listed);
        law_executable_files_by_set(file_base, some, same, listed.drop_last());
        lemma_one_more_entry(file_base, some, listed, last);
        lemma_one_more_entry(file_base, same, listed, last);
    }
}

/// A mode, a blank, further words, a tab and the path make an entry that contributes the path, as
/// seen from `file_base`, exactly if it is asked for and the mode has an executable bit.
pub proof fn law_executable_entry(
    file_base: Seq<u8>,
    filenames: Seq<Seq<u8>>,
    mode: Seq<char>,
    words: Seq<char>,
    name: Seq<char>,
)
    requires
        parse_octal(mode) is Some,
        !words.contains('\t'),
    ensures
        executable_entry(
            file_base,
            filenames,
            (mode.push(' ') + words).push('\t') + name,
        ) == (if is_among(filenames, below(file_base, encode_utf8(name))) && is_executable(
            parse_octal(mode)->0,
        ) {
            Some(below(file_base, encode_utf8(name)))
        } else {
            None
        }),
{
    let metadata = mode.push(' ') + words;
    let entry = metadata.push('\t') + name;
    crate::text::lemma_octal_chars(mode);
    assert forall|i: int| 0 <= i < metadata.len() implies metadata[i] != '\t' by {
        if i < mode.len() {
            assert(!is_white_space(mode[i]));
        } else if i > mode.len() {
            assert(words.contains(words[i - mode.len() - 1]));
        }
    }
    lemma_first_piece(metadata, name, '\t');
    assert(entry[metadata.len() as int] == '\t');
    assert(entry.take(metadata.len() as int) == metadata);
    assert(entry.skip(metadata.len() as int + 1) == name);
    assert(metadata[0] == mode[0]);
    assert(!is_white_space(mode[0]));
    assert forall|i: int| 0 <= i < mode.len() implies !is_white_space(#[trigger] metadata[i]) by {
        assert(metadata[i] == mode[i]);
    }
    crate::text::lemma_word_len(metadata, mode.len());
    assert(metadata.take(mode.len() as int) == mode);
}

/// White space around the answer of Git does not count: `false` with white space around it says
/// that the executable bit is not stored.
pub proof fn law_not_tracked(before: Seq<char>, after: Seq<char>)
    requires
        is_blank(before),
        is_blank(after),
    ensures
        !says_tracked(before + "false"@ + after),
{
    reveal_strlit("false");
    law_trim(before, "false"@, after);
}

/// Nothing else says so: such an answer is white space, `false`, and white space.
pub proof fn law_tracked_otherwise(text: Seq<char>) -> (around: (Seq<char>, Seq<char>))
    requires
        !says_tracked(text),
    ensures
        text == around.0 + "false"@ + around.1,
        is_blank(around.0),
        is_blank(around.1),
{
    lemma_trim_parts(text)
}

/// The two commands that ask Git about the executable bit.
pub proof fn law_git_commands(file_base: Seq<u8>)
    ensures
        file_mode_cmd() == (GitCmdView {
            summary: "get file file mode"@,
            args: seq![encode_utf8("config"@), encode_utf8("core.fileMode"@)],
            check: Some(true),
        }),
        ls_stage_cmd(file_base).summary == "git ls-files"@,
        ls_stage_cmd(file_base).check == Some(true),
        ls_stage_cmd(file_base).args.len() == 5,
        ls_stage_cmd(file_base).args.take(4) == seq![
            encode_utf8("ls-files"@),
            encode_utf8("--stage"@),
            encode_utf8("-z"@),
            encode_utf8("--"@),
        ],
        file_base.len() > 0 ==> ls_stage_cmd(file_base).args[4] == file_base,
        file_base.len() == 0 ==> ls_stage_cmd(file_base).args[4] == encode_utf8("."@),
{
}

/// A zero byte ends an entry, and nothing else does.
pub proof fn law_entries(a: Seq<u8>, b: Seq<u8>)
    ensures
        entries(a.push(0u8) + b) == entries(a) + entries(b),
        !a.contains(0u8) ==> entries(a) == seq![a],
{
    crate::split::lemma_split_concat(a, b, 0u8);
    if !a.contains(0u8) {
        crate::split::lemma_split_absent(a, 0u8);
    }
}

/// A mode is executable if it lets its owner, its group or the others execute.
pub proof fn law_is_executable(mode: u32)
    ensures
        is_executable(mode) <==> mode % 2 == 1 || (mode / 8) % 2 == 1 || (mode / 64) % 2 == 1,
{
    assert((mode & 0o111 != 0) <==> (mode % 2 == 1 || (mode / 8) % 2 == 1 || (mode / 64) % 2 == 1))
        by (bit_vector);
}

/// A path below `file_base` keeps the components that follow those of `file_base`; any other stays
/// as it is.
pub proof fn law_below(file_base: Seq<u8>, path: Seq<u8>)
    ensures
        components(file_base).is_prefix_of(components(path)) ==> {
            &&& strip_prefix(path, file_base) == Some(below(file_base, path))
            &&& components(below(file_base, path)) == components(path).skip(
                components(file_base).len() as int,
            )
        },
        !components(file_base).is_prefix_of(components(path)) ==> below(file_base, path) == path,
{
    lemma_strip_prefix(path, file_base);
}

/// An entry of white space or nothing, a mode, and nothing or white space and more, up to the
/// first tab, and then a path, contributes the path as seen from `file_base`, exactly if the mode
/// is an octal number with an executable bit and that path is asked for.
pub proof fn law_recorded_entry(
    file_base: Seq<u8>,
    filenames: Seq<Seq<u8>>,
    metadata: (Seq<char>, Seq<char>, Seq<char>),
    name: Seq<char>,
)
    requires
        is_blank(metadata.0),
        metadata.1.len() > 0,
        is_solid(metadata.1),
        metadata.2.len() > 0 ==> is_white_space(metadata.2[0]),
        !(metadata.0 + metadata.1 + metadata.2).contains('\t'),
    ensures
        ({
            let entry = (metadata.0 + metadata.1 + metadata.2).push('\t') + name;
            let path = below(file_base, encode_utf8(name));
            let found = executable_entry(file_base, filenames, entry);
            match parse_octal(metadata.1) {
                Some(mode) => found == (if is_among(filenames, path) && is_executable(mode) {
                    Some(path)
                } else {
                    None
                }),
                None => found is None,
            }
        }),
{
    let front = metadata.0 + metadata.1 + metadata.2;
    let entry = front.push('\t') + name;
    lemma_first_piece(front, name, '\t');
    assert(entry[front.len() as int] == '\t');
    assert(entry.take(front.len() as int) == front);
    assert(entry.skip(front.len() as int + 1) == name);
    law_first_word(metadata.0, metadata.1, metadata.2);
}

/// An entry without a tab, or with only white space before it, contributes nothing.
pub proof fn law_odd_entry(
    file_base: Seq<u8>,
    filenames: Seq<Seq<u8>>,
    front: Seq<char>,
    name: Seq<char>,
)
    ensures
        !front.contains('\t') ==> executable_entry(file_base, filenames, front) is None,
        !front.contains('\t') && is_blank(front) ==> executable_entry(
            file_base,
            filenames,
            front.push('\t') + name,
        ) is None,
{
    if !front.contains('\t') && is_blank(front) {
        let entry = front.push('\t') + name;
        lemma_first_piece(front, name, '\t');
        assert(entry.take(front.len() as int) == front);
        law_no_first_word(front);
    }
}

/// Each entry contributes on its own, in its place.
pub proof fn law_executable_entries(
    file_base: Seq<u8>,
    filenames: Seq<Seq<u8>>,
    listed: Seq<Seq<u8>>,
    entry: Seq<u8>,
)
    ensures
        executable_entries(file_base, filenames, Seq::empty()) == Seq::<Seq<u8>>::empty(),
        executable_entries(file_base, filenames, listed.push(entry)) == (match executable_entry(
            file_base,
            filenames,
            decode_utf8(entry),
        ) {
            Some(path) => executable_entries(file_base, filenames, listed).push(path),
            None => executable_entries(file_base, filenames, listed),
        }),
        all_utf8(Seq::empty()),
        all_utf8(listed.push(entry)) <==> all_utf8(listed) && valid_utf8(entry),
{
    let more = listed.push(entry);
    let last = listed.len() as int;
    lemma_one_more_entry(file_base, filenames, more, last);
    assert(more.take(last) == listed);
    assert(more.take(last + 1) == more);
    if all_utf8(more) {
        assert forall|i: int| 0 <= i < listed.len() implies valid_utf8(#[trigger] listed[i]) by {
            assert(more[i] == listed[i]);
        }
        assert(valid_utf8(more[last]));
    }
}

} // verus!
