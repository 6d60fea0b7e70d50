//! The hook that checks that executable files start with a shebang.

use crate::path::{join, to_paths, FilePath};
use crate::process::{GitCmd, GitCmdView};
use crate::repo;
use crate::repo::{
    all_utf8, entries, executable_entries, executable_files, executable_files_cmd, file_mode_cmd,
    first_utf8_error, law_not_tracked, ls_stage_cmd, says_tracked, tracks_executable_bit,
    tracks_executable_bit_cmd,
};
use crate::split::{lemma_views_push, views};
use crate::text::{is_blank, lossy_utf8, utf8_error};
use owo_colors::OwoColorize;
use vstd::prelude::*;
use vstd::utf8::{decode_utf8, encode_utf8, valid_utf8};

verus! {

// ---------------------------------------------------------------------------------------------
// The warning.

/// Text in yellow on a terminal.
pub open spec fn in_yellow(text: Seq<char>) -> Seq<char> {
    "\x1b[33m"@ + text + "\x1b[39m"@
}

/// Text in bold on a terminal.
pub open spec fn in_bold(text: Seq<char>) -> Seq<char> {
    "\x1b[1m"@ + text + "\x1b[0m"@
}

/// Faint text on a terminal.
pub open spec fn in_dimmed(text: Seq<char>) -> Seq<char> {
    "\x1b[2m"@ + text + "\x1b[0m"@
}

/// `OwoColorize::yellow` shows a text between the code for yellow and the one for the default
/// colour.
#[verifier::external_body]
fn yellow(text: &str) -> (res: String)
    ensures
        res@ == in_yellow(text@),
{
    format!("{}", text.yellow())
}

/// `OwoColorize::bold` shows a text between the code for bold and the one that ends all styles.
#[verifier::external_body]
fn bold(text: &str) -> (res: String)
    ensures
        res@ == in_bold(text@),
{
    format!("{}", text.bold())
}

/// `OwoColorize::dimmed` shows a text between the code for faint and the one that ends all
/// styles.
#[verifier::external_body]
fn dimmed(text: &str) -> (res: String)
    ensures
        res@ == in_dimmed(text@),
{
    format!("{}", text.dimmed())
}

/// The warning for a file, whose path shows as `shown`.
pub open spec fn shebang_warning(shown: Seq<char>) -> Seq<char> {
    in_bold(in_yellow(shown) + " marked executable but has no (or invalid) shebang!"@) + "\n"@
        + in_dimmed(
        "  If it isn't supposed to be executable, try: 'chmod -x "@ + shown + "'"@,
    ) + "\n"@ + in_dimmed(
        "  If on Windows, you may also need to: 'git add --chmod=-x "@ + shown + "'"@,
    ) + "\n"@ + in_dimmed("  If it is supposed to be executable, double-check its shebang."@)
        + "\n"@
}

/// The warning for a file whose path shows as `shown`.
pub fn shebang_warning_of(shown: &str) -> (text: String)
    ensures
        text@ == shebang_warning(shown@),
{
    let mut headline = yellow(shown);
    headline.append(" marked executable but has no (or invalid) shebang!");
    let mut chmod = "  If it isn't supposed to be executable, try: 'chmod -x ".to_owned();
    chmod.append(shown);
    chmod.append("'");
    let mut windows = "  If on Windows, you may also need to: 'git add --chmod=-x ".to_owned();
    windows.append(shown);
    windows.append("'");
    let mut text = bold(headline.as_str());
    text.append("\n");
    text.append(dimmed(chmod.as_str()).as_str());
    text.append("\n");
    text.append(dimmed(windows.as_str()).as_str());
    text.append("\n");
    text.append(
        dimmed("  If it is supposed to be executable, double-check its shebang.").as_str(),
    );
    text.append("\n");
    text
}

/// The warning for the file at `path`.
pub fn print_shebang_warning(path: &FilePath) -> (text: String)
    ensures
        text@ == shebang_warning(lossy_utf8(path@)),
        valid_utf8(path@) ==> text@ == shebang_warning(decode_utf8(path@)),
{
    let shown = path.display();
    shebang_warning_of(shown.as_str())
}

// ---------------------------------------------------------------------------------------------
// Shebangs.

/// Whether a file that starts with `head` has a shebang: its first two bytes are `#!`.
pub open spec fn has_shebang(head: Seq<u8>) -> bool {
    head.len() >= 2 && head[0] == 0x23 && head[1] == 0x21
}

/// Whether a file has a shebang, by the bytes at its start, of which two are enough.
pub fn file_has_shebang(head: &[u8]) -> (res: bool)
    ensures
        res == has_shebang(head@),
        res == (head@.len() >= 2 && head@.take(2) == encode_utf8("#!"@)),
{
    proof {
        law_shebang(head@);
        if head@.len() >= 2 {
            assert(head@.subrange(0, 2) == head@.take(2));
        }
    }
    head.len() >= 2 && head[0] == 0x23 && head[1] == 0x21
}

/// Why the hook could not tell.
#[derive(Debug)]
pub enum Error {
    Repo(repo::Error),
    /// A file could not be read; the message says why.
    Io(String),
}

/// The files to check, and where to read them.
#[derive(Debug)]
pub struct ShebangCheck {
    files: Vec<FilePath>,
    targets: Vec<FilePath>,
}

/// A check, by what it comes to.
pub struct ShebangCheckView {
    pub files: Seq<Seq<u8>>,
    pub targets: Seq<Seq<u8>>,
}

impl View for ShebangCheck {
    type V = ShebangCheckView;

    closed spec fn view(&self) -> ShebangCheckView {
        ShebangCheckView { files: views(self.files@), targets: views(self.targets@) }
    }
}

/// The check of `files`, which are named from `file_base`.
pub open spec fn check_of(file_base: Seq<u8>, files: Seq<Seq<u8>>) -> ShebangCheckView {
    ShebangCheckView { files, targets: files.map_values(|file: Seq<u8>| join(file_base, file)) }
}

fn new_check(file_base: &FilePath, files: Vec<FilePath>) -> (check: ShebangCheck)
    ensures
        check@ == check_of(file_base@, views(files@)),
{
    let mut targets: Vec<FilePath> = Vec::new();
    let ghost named = views(files@);
    let ghost place = |file: Seq<u8>| join(file_base@, file);
    for i in 0..files.len()
        invariant
            named == views(files@),
            place == (|file: Seq<u8>| join(file_base@, file)),
            views(targets@) == named.take(i as int).map_values(place),
    {
        let ghost before = targets@;
        let target = file_base.join(&files[i]);
        proof {
            lemma_views_push(before, target);
            assert(named.take(i + 1) == named.take(i as int).push(files@[i as int]@));
            assert(named.take(i + 1).map_values(place) == named.take(i as int).map_values(
                place,
            ).push(target@));
        }
        targets.push(target);
    }
    proof {
        assert(named.take(files@.len() as int) == named);
    }
    ShebangCheck { files, targets }
}

/// The check of all of `paths`, where the file system can be trusted to say which files are
/// executable.
pub fn os_check_shebangs(file_base: &FilePath, paths: &[FilePath]) -> (check: ShebangCheck)
    ensures
        check@ == check_of(file_base@, views(paths@)),
        check@.files == views(paths@),
        check@.targets.len() == paths@.len(),
        forall|i: int|
            0 <= i < paths@.len() ==> #[trigger] check@.targets[i] == join(
                file_base@,
                paths@[i]@,
            ),
{
    new_check(file_base, to_paths(paths))
}

/// The check of those of `filenames` that the repository records as executable, by the listing
/// that Git printed.
pub fn git_check_shebangs(
    file_base: &FilePath,
    filenames: &[FilePath],
    stdout: &[u8],
) -> (res: Result<ShebangCheck, repo::Error>)
    ensures
        res is Ok <==> all_utf8(entries(stdout@)),
        res matches Ok(check) ==> check@ == check_of(
            file_base@,
            executable_entries(file_base@, views(filenames@), entries(stdout@)),
        ),
        res matches Err(err) ==> err == repo::Error::Utf8(first_utf8_error(entries(stdout@))),
{
    match executable_files(file_base, filenames, stdout) {
        Ok(files) => Ok(new_check(file_base, files)),
        Err(err) => Err(err),
    }
}

// ---------------------------------------------------------------------------------------------
// The outcome.

/// The exit code: 1 if a file has no shebang, else 0.
pub open spec fn exit_code(has: Seq<bool>) -> i32 {
    if has.contains(false) {
        1
    } else {
        0
    }
}

/// The warnings for the files without a shebang, in order. `shown` is how the paths show.
pub open spec fn report(shown: Seq<Seq<char>>, has: Seq<bool>) -> Seq<u8>
    decreases has.len(),
{
    if has.len() == 0 {
        Seq::empty()
    } else {
        let before = report(shown, has.drop_last());
        if has.last() {
            before
        } else {
            before + encode_utf8(shebang_warning(shown[has.len() - 1]))
        }
    }
}

/// How paths show.
pub open spec fn shown_lossy(files: Seq<Seq<u8>>) -> Seq<Seq<char>> {
    files.map_values(|file: Seq<u8>| lossy_utf8(file))
}

/// The text of paths that are UTF-8.
pub open spec fn shown_exactly(files: Seq<Seq<u8>>) -> Seq<Seq<char>> {
    files.map_values(|file: Seq<u8>| decode_utf8(file))
}

/// What was told of each file, if each could be read.
pub open spec fn told_of(checked: Seq<Result<bool, String>>) -> Seq<bool> {
    Seq::new(checked.len(), |i: int| checked[i]->Ok_0)
}

/// Whether every file could be read.
pub open spec fn all_read(checked: Seq<Result<bool, String>>) -> bool {
    forall|i: int| 0 <= i < checked.len() ==> (#[trigger] checked[i]) is Ok
}

/// Why the first file that could not be read was not.
pub open spec fn first_failure(checked: Seq<Result<bool, String>>) -> String
    decreases checked.len(),
{
    if checked.len() > 0 && checked[0] is Ok {
        first_failure(checked.skip(1))
    } else {
        checked[0]->Err_0
    }
}

proof fn lemma_first_failure(checked: Seq<Result<bool, String>>, i: int)
    requires
        0 <= i < checked.len(),
        all_read(checked.take(i)),
        checked[i] is Err,
    ensures
        first_failure(checked) == checked[i]->Err_0,
    decreases i,
{
    if i > 0 {
        let rest = checked.skip(1);
        assert(checked.take(i)[0] == checked[0]);
        assert forall|j: int| 0 <= j < i - 1 implies (#[trigger] rest.take(i - 1)[j]) is Ok by {
            assert(rest.take(i - 1)[j] == checked.take(i)[j + 1]);
        }
        lemma_first_failure(rest, i - 1);
    }
}

/// The exit code and output of a check of `files`, by what was told of each.
pub open spec fn outcome(files: Seq<Seq<u8>>, checked: Seq<Result<bool, String>>) -> Result<
    (i32, Seq<u8>),
    String,
> {
    if all_read(checked) {
        Ok((exit_code(told_of(checked)), report(shown_lossy(files), told_of(checked))))
    } else {
        Err(first_failure(checked))
    }
}

/// The exit code and output for one file.
fn check_file(file: &FilePath, found: bool) -> (res: (i32, Vec<u8>))
    ensures
        res.0 == (if found {
            0i32
        } else {
            1i32
        }),
        res.1@ == (if found {
            Seq::empty()
        } else {
            encode_utf8(shebang_warning(lossy_utf8(file@)))
        }),
        valid_utf8(file@) ==> res.1@ == (if found {
            Seq::empty()
        } else {
            encode_utf8(shebang_warning(decode_utf8(file@)))
        }),
{
    if found {
        (0, Vec::new())
    } else {
        let message = print_shebang_warning(file);
        (1, vstd::slice::slice_to_vec(message.as_str().as_bytes()))
    }
}

/// How the outcome grows with one file more.
pub proof fn lemma_one_more_file(shown: Seq<Seq<char>>, found: Seq<bool>, i: int)
    requires
        0 <= i < found.len(),
    ensures
        report(shown, found.take(i + 1)) == report(shown, found.take(i)) + (if found[i] {
            Seq::empty()
        } else {
            encode_utf8(shebang_warning(shown[i]))
        }),
        exit_code(found.take(i + 1)) == (if found[i] {
            exit_code(found.take(i))
        } else {
            1
        }),
{
    let now = found.take(i + 1);
    let before = found.take(i);
    assert(now.drop_last() == before);
    assert(report(shown, before) + Seq::<u8>::empty() == report(shown, before));
    assert(now == before.push(found[i]));
    if found[i] {
        if now.contains(false) {
            let j = choose|j: int| 0 <= j < now.len() && now[j] == false;
            assert(before[j] == false);
        }
        if before.contains(false) {
            let j = choose|j: int| 0 <= j < before.len() && before[j] == false;
            assert(now[j] == false);
        }
    } else {
        assert(now[i] == false);
    }
}

impl ShebangCheck {
    /// The files to check, as they are named.
    pub fn files(&self) -> (files: &[FilePath])
        ensures
            views(files@) == self@.files,
    {
        self.files.as_slice()
    }

    /// Where to read the files.
    pub fn targets(&self) -> (targets: &[FilePath])
        ensures
            views(targets@) == self@.targets,
    {
        self.targets.as_slice()
    }

    /// The exit code and output of the check. `checked` tells of each file in order whether it has
    /// a shebang, or why it could not be read.
    pub fn finish(&self, checked: Vec<Result<bool, String>>) -> (res: Result<
        (i32, Vec<u8>),
        String,
    >)
        requires
            checked@.len() == self@.files.len(),
        ensures
            match res {
                Ok((code, output)) => {
                    &&& outcome(self@.files, checked@) == Ok::<_, String>((code, output@))
                    &&& all_utf8(self@.files) ==> output@ == report(
                        shown_exactly(self@.files),
                        told_of(checked@),
                    )
                },
                Err(err) => outcome(self@.files, checked@) == Err::<(i32, Seq<u8>), _>(err),
            },
    {
        let mut code: i32 = 0;
        let mut output: Vec<u8> = Vec::new();
        let ghost files = self@.files;
        let ghost found = told_of(checked@);
        for i in 0..checked.len()
            invariant
                files == views(self.files@),
                checked@.len() == files.len(),
                found == told_of(checked@),
                all_read(checked@.take(i as int)),
                code == exit_code(found.take(i as int)),
                output@ == report(shown_lossy(files), found.take(i as int)),
                all_utf8(files) ==> output@ == report(shown_exactly(files), found.take(i as int)),
        {
            match &checked[i] {
                Ok(has_it) => {
                    let file = &self.files[i];
                    proof {
                        assert(files[i as int] == file@);
                        assert(shown_lossy(files)[i as int] == lossy_utf8(file@));
                        assert(shown_exactly(files)[i as int] == decode_utf8(file@));
                        assert(found[i as int] == *has_it);
                        lemma_one_more_file(shown_lossy(files), found, i as int);
                        lemma_one_more_file(shown_exactly(files), found, i as int);
                        assert forall|j: int| 0 <= j < i + 1 implies (#[trigger] checked@.take(
                            i + 1,
                        )[j]) is Ok by {
                            if j < i {
                                assert(checked@.take(i as int)[j] is Ok);
                            }
                        }
                    }
                    let (file_code, mut file_output) = check_file(file, *has_it);
                    code = code | file_code;
                    proof {
                        assert(0i32 | 0i32 == 0i32 && 0i32 | 1i32 == 1i32 && 1i32 | 0i32 == 1i32
                            && 1i32 | 1i32 == 1i32) by (bit_vector);
                    }
                    output.append(&mut file_output);
                },
                Err(err) => {
                    proof {
                        assert(checked@[i as int] is Err);
                        lemma_first_failure(checked@, i as int);
                    }
                    return Err(err.clone());
                },
            }
        }
        proof {
            assert(checked@.take(checked@.len() as int) == checked@);
            assert(found.take(checked@.len() as int) == found);
        }
        Ok((code, output))
    }
}

// ---------------------------------------------------------------------------------------------
// The hook.

/// The run of the hook.
#[derive(Debug)]
pub enum ShebangHook {
    /// Whether the repository stores the executable bit is to be told.
    FileMode { file_base: FilePath, filenames: Vec<FilePath> },
    /// It does not; the recorded modes of the files are to be told.
    ListFiles { file_base: FilePath, filenames: Vec<FilePath> },
    /// Whether each of the files to check has a shebang is to be told.
    ReadFiles { check: ShebangCheck },
    /// The exit code and the output.
    Done { result: Result<(i32, Vec<u8>), Error> },
}

/// What the hook wants to know.
#[derive(Debug)]
pub enum HookRequest<'a> {
    /// The output of the command.
    Output(GitCmd),
    /// Of each file whether it has a shebang.
    Shebangs(&'a [FilePath]),
}

/// What the hook is told. A failure comes with its message.
#[derive(Debug)]
pub enum HookReply {
    Output(Result<Vec<u8>, String>),
    Shebangs(Vec<Result<bool, String>>),
}

/// The run of the hook, by what it comes to.
pub enum HookView {
    FileMode { file_base: Seq<u8>, filenames: Seq<Seq<u8>> },
    ListFiles { file_base: Seq<u8>, filenames: Seq<Seq<u8>> },
    ReadFiles { check: ShebangCheckView },
    Done { result: Result<(i32, Seq<u8>), Error> },
}

/// What the hook wants to know, by what it comes to.
pub enum HookRequestView {
    Output(GitCmdView),
    Shebangs(Seq<Seq<u8>>),
}

/// What the hook is told, by what it comes to.
pub enum HookReplyView {
    Output(Result<Seq<u8>, String>),
    Shebangs(Seq<Result<bool, String>>),
}

impl View for ShebangHook {
    type V = HookView;

    open spec fn view(&self) -> HookView {
        match *self {
            ShebangHook::FileMode { file_base, filenames } => HookView::FileMode {
                file_base: file_base@,
                filenames: views(filenames@),
            },
            ShebangHook::ListFiles { file_base, filenames } => HookView::ListFiles {
                file_base: file_base@,
                filenames: views(filenames@),
            },
            ShebangHook::ReadFiles { check } => HookView::ReadFiles { check: check@ },
            ShebangHook::Done { result: Ok((code, output)) } => HookView::Done {
                result: Ok((code, output@)),
            },
            ShebangHook::Done { result: Err(err) } => HookView::Done { result: Err(err) },
        }
    }
}

impl<'a> View for HookRequest<'a> {
    type V = HookRequestView;

    open spec fn view(&self) -> HookRequestView {
        match *self {
            HookRequest::Output(cmd) => HookRequestView::Output(cmd@),
            HookRequest::Shebangs(targets) => HookRequestView::Shebangs(views(targets@)),
        }
    }
}

impl View for HookReply {
    type V = HookReplyView;

    open spec fn view(&self) -> HookReplyView {
        match *self {
            HookReply::Output(Ok(stdout)) => HookReplyView::Output(Ok(stdout@)),
            HookReply::Output(Err(err)) => HookReplyView::Output(Err(err)),
            HookReply::Shebangs(checked) => HookReplyView::Shebangs(checked@),
        }
    }
}

impl HookView {
    /// What is to be told next.
    pub open spec fn asks(self) -> Option<HookRequestView> {
        match self {
            HookView::FileMode { .. } => Some(HookRequestView::Output(file_mode_cmd())),
            HookView::ListFiles { file_base, .. } => Some(
                HookRequestView::Output(ls_stage_cmd(file_base)),
            ),
            HookView::ReadFiles { check } => Some(HookRequestView::Shebangs(check.targets)),
            HookView::Done { .. } => None,
        }
    }

    /// The hook that is over because of `err`.
    pub open spec fn failed(err: repo::Error) -> HookView {
        HookView::Done { result: Err(Error::Repo(err)) }
    }

    /// How an answer takes the hook on. An answer to another question changes nothing.
    ///
    /// Where the repository stores the executable bit, all files are checked: they were picked by
    /// it. Where it does not, Git says which of them are executable.
    pub open spec fn told(self, reply: HookReplyView) -> HookView {
        match (self, reply) {
            (HookView::FileMode { file_base, filenames }, HookReplyView::Output(Ok(stdout))) => {
                if !valid_utf8(stdout) {
                    Self::failed(repo::Error::Utf8(utf8_error(stdout)))
                } else if says_tracked(decode_utf8(stdout)) {
                    HookView::ReadFiles { check: check_of(file_base, filenames) }
                } else {
                    HookView::ListFiles { file_base, filenames }
                }
            },
            (HookView::ListFiles { file_base, filenames }, HookReplyView::Output(Ok(stdout))) => {
                let listed = entries(stdout);
                if !all_utf8(listed) {
                    Self::failed(repo::Error::Utf8(first_utf8_error(listed)))
                } else {
                    HookView::ReadFiles {
                        check: check_of(
                            file_base,
                            executable_entries(file_base, filenames, listed),
                        ),
                    }
                }
            },
            (HookView::FileMode { .. }, HookReplyView::Output(Err(err))) => Self::failed(
                repo::Error::Git(err),
            ),
            (HookView::ListFiles { .. }, HookReplyView::Output(Err(err))) => Self::failed(
                repo::Error::Git(err),
            ),
            (HookView::ReadFiles { check }, HookReplyView::Shebangs(checked)) => if checked.len()
                != check.files.len() {
                self
            } else {
                match outcome(check.files, checked) {
                    Ok(outcome) => HookView::Done { result: Ok(outcome) },
                    Err(err) => HookView::Done { result: Err(Error::Io(err)) },
                }
            },
            _ => self,
        }
    }
}

/// Checks that the executable ones among `filenames` start with a shebang. They are named from
/// `file_base`.
pub fn check_executables_have_shebangs(file_base: &FilePath, filenames: &[FilePath]) -> (hook:
    ShebangHook)
    ensures
        hook@ == (HookView::FileMode { file_base: file_base@, filenames: views(filenames@) }),
        hook matches ShebangHook::FileMode { file_base: base, filenames: names } && base@
            == file_base@ && views(names@) == views(filenames@),
{
    ShebangHook::FileMode { file_base: file_base.clone(), filenames: to_paths(filenames) }
}

impl ShebangHook {
    /// What is to be told next; `None` if the hook is over.
    pub fn request(&self) -> (request: Option<HookRequest<'_>>)
        ensures
            match request {
                Some(r) => self@.asks() == Some(r@),
                None => self@.asks() is None,
            },
            match *self {
                ShebangHook::FileMode { .. } => request matches Some(HookRequest::Output(cmd))
                    && views(cmd.args@) == seq![
                    encode_utf8("config"@),
                    encode_utf8("core.fileMode"@),
                ],
                ShebangHook::ListFiles { file_base, .. } => request matches Some(
                    HookRequest::Output(cmd),
                ) && views(cmd.args@) == seq![
                    encode_utf8("ls-files"@),
                    encode_utf8("--stage"@),
                    encode_utf8("-z"@),
                    encode_utf8("--"@),
                    if file_base@.len() > 0 {
                        file_base@
                    } else {
                        encode_utf8("."@)
                    },
                ],
                ShebangHook::ReadFiles { check } => request matches Some(
                    HookRequest::Shebangs(targets),
                ) && views(targets@) == check@.targets,
                ShebangHook::Done { .. } => request is None,
            },
    {
        match self {
            ShebangHook::FileMode { .. } => Some(HookRequest::Output(tracks_executable_bit_cmd())),
            ShebangHook::ListFiles { file_base, .. } => Some(
                HookRequest::Output(executable_files_cmd(file_base)),
            ),
            ShebangHook::ReadFiles { check } => Some(HookRequest::Shebangs(check.targets())),
            ShebangHook::Done { .. } => None,
        }
    }

    /// Goes on with an answer.
    pub fn step(self, reply: HookReply) -> (next: ShebangHook)
        ensures
            next@ == self@.told(reply@),
            match (self, reply) {
                (ShebangHook::ReadFiles { check }, HookReply::Shebangs(checked)) => {
                    checked@.len() == check@.files.len() ==> match outcome(
                        check@.files,
                        checked@,
                    ) {
                        Ok(res) => {
                            &&& next matches ShebangHook::Done { result: Ok((code, output)) }
                            &&& code == res.0
                            &&& output@ == res.1
                        },
                        Err(err) => {
                            &&& next matches ShebangHook::Done { result: Err(cause) }
                            &&& cause == Error::Io(err)
                        },
                    }
                },
                (ShebangHook::FileMode { .. }, HookReply::Output(Err(err))) => {
                    &&& next matches ShebangHook::Done { result: Err(cause) }
                    &&& cause == Error::Repo(repo::Error::Git(err))
                },
                (ShebangHook::ListFiles { .. }, HookReply::Output(Err(err))) => {
                    &&& next matches ShebangHook::Done { result: Err(cause) }
                    &&& cause == Error::Repo(repo::Error::Git(err))
                },
                _ => true,
            },
            self@ matches HookView::ReadFiles { check } ==> (reply@ matches HookReplyView::Shebangs(
                checked,
            ) ==> (next@ matches HookView::Done { result: Ok((_, output)) } ==> (all_utf8(
                check.files,
            ) ==> output == report(shown_exactly(check.files), told_of(checked))))),
    {
        match (self, reply) {
            (
                ShebangHook::FileMode { file_base, filenames },
                HookReply::Output(output),
            ) => match output {
                Ok(stdout) => match tracks_executable_bit(stdout.as_slice()) {
                    Ok(true) => ShebangHook::ReadFiles {
                        check: os_check_shebangs(&file_base, filenames.as_slice()),
                    },
                    Ok(false) => ShebangHook::ListFiles { file_base, filenames },
                    Err(err) => ShebangHook::Done { result: Err(Error::Repo(err)) },
                },
                Err(err) => ShebangHook::Done { result: Err(Error::Repo(repo::Error::Git(err))) },
            },
            (
                ShebangHook::ListFiles { file_base, filenames },
                HookReply::Output(output),
            ) => match output {
                Ok(stdout) => match git_check_shebangs(
                    &file_base,
                    filenames.as_slice(),
                    stdout.as_slice(),
                ) {
                    Ok(check) => ShebangHook::ReadFiles { check },
                    Err(err) => ShebangHook::Done { result: Err(Error::Repo(err)) },
                },
                Err(err) => ShebangHook::Done { result: Err(Error::Repo(repo::Error::Git(err))) },
            },
            (ShebangHook::ReadFiles { check }, HookReply::Shebangs(checked)) => {
                if checked.len() != check.files.len() {
                    return ShebangHook::ReadFiles { check };
                }
                match check.finish(checked) {
                    Ok(outcome) => ShebangHook::Done { result: Ok(outcome) },
                    Err(err) => ShebangHook::Done { result: Err(Error::Io(err)) },
                }
            },
            (hook, _) => hook,
        }
    }
}

// ---------------------------------------------------------------------------------------------
// Laws.

/// What the hook is told where it runs: what Git prints, and which files have a shebang.
pub struct HookHost {
    pub output: spec_fn(GitCmdView) -> Result<Seq<u8>, String>,
    pub shebang: spec_fn(Seq<u8>) -> Result<bool, String>,
}

impl HookHost {
    pub open spec fn answer(self, request: HookRequestView) -> HookReplyView {
        match request {
            HookRequestView::Output(cmd) => HookReplyView::Output((self.output)(cmd)),
            HookRequestView::Shebangs(targets) => HookReplyView::Shebangs(
                targets.map_values(|target: Seq<u8>| (self.shebang)(target)),
            ),
        }
    }
}

/// Where the hook stands after at most `steps` answers of `host`.
pub open spec fn run_hook(host: HookHost, hook: HookView, steps: nat) -> HookView
    decreases steps,
{
    match hook.asks() {
        Some(request) if steps > 0 => run_hook(
            host,
            hook.told(host.answer(request)),
            (steps - 1) as nat,
        ),
        _ => hook,
    }
}

/// The files that the hook checks: all, if the repository stores the executable bit, and else
/// those that it records as executable.
pub open spec fn checked_files(
    host: HookHost,
    file_base: Seq<u8>,
    filenames: Seq<Seq<u8>>,
) -> Result<Seq<Seq<u8>>, repo::Error> {
    match (host.output)(file_mode_cmd()) {
        Ok(stdout) => if !valid_utf8(stdout) {
            Err(repo::Error::Utf8(utf8_error(stdout)))
        } else if says_tracked(decode_utf8(stdout)) {
            Ok(filenames)
        } else {
            match (host.output)(ls_stage_cmd(file_base)) {
                Ok(stdout) => if !all_utf8(entries(stdout)) {
                    Err(repo::Error::Utf8(first_utf8_error(entries(stdout))))
                } else {
                    Ok(executable_entries(file_base, filenames, entries(stdout)))
                },
                Err(err) => Err(repo::Error::Git(err)),
            }
        },
        Err(err) => Err(repo::Error::Git(err)),
    }
}

/// What the hook comes to.
pub open spec fn hook_result(
    host: HookHost,
    file_base: Seq<u8>,
    filenames: Seq<Seq<u8>>,
) -> Result<(i32, Seq<u8>), Error> {
    match checked_files(host, file_base, filenames) {
        Ok(files) => match outcome(
            files,
            files.map_values(|file: Seq<u8>| (host.shebang)(join(file_base, file))),
        ) {
            Ok(outcome) => Ok(outcome),
            Err(err) => Err(Error::Io(err)),
        },
        Err(err) => Err(Error::Repo(err)),
    }
}

/// The hook ends after at most three answers, with the exit code and the warnings for the files
/// that it checks.
pub proof fn law_hook(host: HookHost, file_base: Seq<u8>, filenames: Seq<Seq<u8>>, steps: nat)
    requires
        steps >= 3,
    ensures
        run_hook(host, HookView::FileMode { file_base, filenames }, steps) == (HookView::Done {
            result: hook_result(host, file_base, filenames),
        }),
{
    reveal_with_fuel(run_hook, 5);
    if let Ok(files) = checked_files(host, file_base, filenames) {
        let check = check_of(file_base, files);
        assert(check.targets.map_values(|target: Seq<u8>| (host.shebang)(target))
            == files.map_values(|file: Seq<u8>| (host.shebang)(join(file_base, file))));
    }
}

/// The first two bytes of a file decide, and a file of fewer has no shebang.
pub proof fn law_two_bytes_are_enough(content: Seq<u8>)
    ensures
        has_shebang(content) == (content.len() >= 2 && has_shebang(content.take(2))),
{
}

/// The check succeeds exactly if every file has a shebang, and prints something exactly if it does
/// not succeed.
pub proof fn law_output_tells_failure(shown: Seq<Seq<char>>, found: Seq<bool>)
    ensures
        exit_code(found) == 0 || exit_code(found) == 1,
        exit_code(found) == 0 <==> (forall|i: int| 0 <= i < found.len() ==> #[trigger] found[i]),
        exit_code(found) == 0 <==> report(shown, found).len() == 0,
    decreases found.len(),
{
    if exit_code(found) == 0 {
        assert forall|i: int| 0 <= i < found.len() implies #[trigger] found[i] by {
            if !found[i] {
                assert(found.contains(false));
            }
        }
    }
    if found.len() > 0 {
        let before = found.drop_last();
        law_output_tells_failure(shown, before);
        let last = found.len() - 1;
        if found.last() {
            assert forall|i: int| 0 <= i < found.len() && found[i] == false implies before[i]
                == false by {}
            if found.contains(false) {
                let i = choose|i: int| 0 <= i < found.len() && found[i] == false;
                assert(before[i] == false);
                assert(before.contains(false));
            }
            if before.contains(false) {
                let i = choose|i: int| 0 <= i < before.len() && before[i] == false;
                assert(found[i] == false);
            }
        } else {
            assert(found[last] == false);
            lemma_warning_not_empty(shown[last]);
        }
    }
}

proof fn lemma_warning_not_empty(shown: Seq<char>)
    ensures
        encode_utf8(shebang_warning(shown)).len() > 0,
{
    reveal_strlit("\n");
    let text = shebang_warning(shown);
    assert(text.len() > 0);
    vstd::utf8::char_is_scalar(text[0]);
}

/// A file has a shebang exactly if it begins with the bytes of `#!`.
pub proof fn law_shebang(content: Seq<u8>)
    ensures
        has_shebang(content) <==> encode_utf8("#!"@).is_prefix_of(content),
        encode_utf8("#!"@).len() == 2,
{
    reveal_strlit("#!");
    vstd::utf8::is_ascii_chars_encode_utf8("#!"@);
    let mark = encode_utf8("#!"@);
    assert(mark =~= seq![0x23u8, 0x21u8]);
    if has_shebang(content) {
        assert(content.subrange(0, 2) == mark);
    }
    if mark.is_prefix_of(content) {
        assert(content.subrange(0, 2)[0] == mark[0] && content.subrange(0, 2)[1] == mark[1]);
    }
}

/// The warning, with the codes that a terminal gets: four lines, of which the first is bold with
/// the path in yellow and the others are faint. The first three name the path.
pub proof fn law_warning(shown: Seq<char>)
    ensures
        shebang_warning(shown) == "\x1b[1m"@ + ("\x1b[33m"@ + shown + "\x1b[39m"@
            + " marked executable but has no (or invalid) shebang!"@) + "\x1b[0m"@ + "\n"@ + (
        "\x1b[2m"@ + ("  If it isn't supposed to be executable, try: 'chmod -x "@ + shown + "'"@)
            + "\x1b[0m"@) + "\n"@ + ("\x1b[2m"@ + (
        "  If on Windows, you may also need to: 'git add --chmod=-x "@ + shown + "'"@)
            + "\x1b[0m"@) + "\n"@ + ("\x1b[2m"@
            + "  If it is supposed to be executable, double-check its shebang."@ + "\x1b[0m"@)
            + "\n"@,
{
}

/// Each file is read where its name leads from `file_base`.
pub proof fn law_targets(file_base: Seq<u8>, files: Seq<Seq<u8>>)
    ensures
        check_of(file_base, files).files == files,
        check_of(file_base, files).targets.len() == files.len(),
        forall|i: int|
            0 <= i < files.len() ==> #[trigger] check_of(file_base, files).targets[i] == join(
                file_base,
                files[i],
            ),
{
}

/// A check of no files succeeds and prints nothing. Otherwise the first file that could not be
/// read is why there is no outcome; if all could be, the exit code is 1 exactly if a file has no
/// shebang, and else 0.
pub proof fn law_outcome(files: Seq<Seq<u8>>, checked: Seq<Result<bool, String>>)
    ensures
        checked.len() == 0 ==> outcome(files, checked) == Ok::<_, String>(
            (0i32, Seq::<u8>::empty()),
        ),
        (forall|i: int| 0 <= i < checked.len() ==> (#[trigger] checked[i]) is Ok) ==> {
            &&& outcome(files, checked) matches Ok(res)
            &&& res.0 == 1 <==> exists|i: int|
                0 <= i < checked.len() && (#[trigger] checked[i]) == Ok::<bool, String>(false)
            &&& res.0 == 0 || res.0 == 1
        },
        forall|i: int|
            0 <= i < checked.len() && (#[trigger] checked[i]) is Err && (forall|j: int|
                0 <= j < i ==> (#[trigger] checked[j]) is Ok) ==> outcome(files, checked) == Err::<
                (i32, Seq<u8>),
                String,
            >(checked[i]->Err_0),
{
    let found = told_of(checked);
    if all_read(checked) {
        if found.contains(false) {
            let i = choose|i: int| 0 <= i < found.len() && found[i] == false;
            assert(checked[i] == Ok::<bool, String>(false));
        }
        if exists|i: int|
            0 <= i < checked.len() && (#[trigger] checked[i]) == Ok::<bool, String>(false) {
            let i = choose|i: int|
                0 <= i < checked.len() && (#[trigger] checked[i]) == Ok::<bool, String>(false);
            assert(found[i] == false);
        }
    }
    assert forall|i: int|
        0 <= i < checked.len() && (#[trigger] checked[i]) is Err && (forall|j: int|
            0 <= j < i ==> (#[trigger] checked[j]) is Ok) implies outcome(files, checked) == Err::<
        (i32, Seq<u8>),
        String,
    >(checked[i]->Err_0) by {
        assert forall|j: int| 0 <= j < i implies (#[trigger] checked.take(i)[j]) is Ok by {
            assert(checked[j] is Ok);
        }
        lemma_first_failure(checked, i);
    }
}

/// The output is the warnings for the files without a shebang, in order, as their paths read.
pub proof fn law_outcome_output(
    files: Seq<Seq<u8>>,
    checked: Seq<Result<bool, String>>,
    file: Seq<u8>,
    found: bool,
)
    requires
        files.len() == checked.len(),
        outcome(files, checked) is Ok,
    ensures
        ({
            let more = outcome(files.push(file), checked.push(Ok(found)));
            &&& more is Ok
            &&& more->Ok_0.1 == outcome(files, checked)->Ok_0.1 + (if found {
                Seq::empty()
            } else {
                encode_utf8(shebang_warning(lossy_utf8(file)))
            })
        }),
{
    let n = checked.len() as int;
    let all = checked.push(Ok(found));
    assert forall|i: int| 0 <= i < all.len() implies (#[trigger] all[i]) is Ok by {
        if i < n {
            assert(checked[i] is Ok);
        }
    }
    let told = told_of(all);
    assert(told.take(n) == told_of(checked));
    assert(told.take(n + 1) == told);
    let shown = shown_lossy(files.push(file));
    lemma_one_more_file(shown, told, n);
    assert(shown[n] == lossy_utf8(file));
    lemma_report_prefix(shown_lossy(files), shown, told_of(checked));
}

proof fn lemma_report_prefix(shown: Seq<Seq<char>>, more: Seq<Seq<char>>, found: Seq<bool>)
    requires
        found.len() <= shown.len() <= more.len(),
        forall|i: int| 0 <= i < shown.len() ==> #[trigger] shown[i] == more[i],
    ensures
        report(shown, found) == report(more, found),
    decreases found.len(),
{
    if found.len() > 0 {
        lemma_report_prefix(shown, more, found.drop_last());
    }
}

/// Where Git says anything but `false`, the hook checks all files.
pub proof fn law_hook_checks_all(host: HookHost, file_base: Seq<u8>, filenames: Seq<Seq<u8>>)
    requires
        (host.output)(file_mode_cmd()) is Ok,
        valid_utf8((host.output)(file_mode_cmd())->Ok_0),
        says_tracked(decode_utf8((host.output)(file_mode_cmd())->Ok_0)),
    ensures
        run_hook(host, HookView::FileMode { file_base, filenames }, 3) == (HookView::Done {
            result: match outcome(
                filenames,
                Seq::new(
                    filenames.len(),
                    |i: int| (host.shebang)(join(file_base, filenames[i])),
                ),
            ) {
                Ok(res) => Ok(res),
                Err(err) => Err(Error::Io(err)),
            },
        }),
{
    law_hook(host, file_base, filenames, 3);
    assert(filenames.map_values(|file: Seq<u8>| (host.shebang)(join(file_base, file)))
        == Seq::new(filenames.len(), |i: int| (host.shebang)(join(file_base, filenames[i]))));
}

/// Where Git says `false`, with white space around it, the hook checks those of the files that
/// Git lists as executable.
pub proof fn law_hook_checks_listed(
    host: HookHost,
    file_base: Seq<u8>,
    filenames: Seq<Seq<u8>>,
    before: Seq<char>,
    after: Seq<char>,
)
    requires
        is_blank(before),
        is_blank(after),
        (host.output)(file_mode_cmd()) == Ok::<_, String>(
            encode_utf8(before + "false"@ + after),
        ),
        (host.output)(ls_stage_cmd(file_base)) is Ok,
        all_utf8(entries((host.output)(ls_stage_cmd(file_base))->Ok_0)),
    ensures
        ({
            let files = executable_entries(
                file_base,
                filenames,
                entries((host.output)(ls_stage_cmd(file_base))->Ok_0),
            );
            run_hook(host, HookView::FileMode { file_base, filenames }, 3) == (HookView::Done {
                result: match outcome(
                    files,
                    Seq::new(files.len(), |i: int| (host.shebang)(join(file_base, files[i]))),
                ) {
                    Ok(res) => Ok(res),
                    Err(err) => Err(Error::Io(err)),
                },
            })
        }),
{
    let text = before + "false"@ + after;
    vstd::utf8::encode_utf8_valid_utf8(text);
    vstd::utf8::encode_utf8_decode_utf8(text);
    law_not_tracked(before, after);
    law_hook(host, file_base, filenames, 3);
    let files = executable_entries(
        file_base,
        filenames,
        entries((host.output)(ls_stage_cmd(file_base))->Ok_0),
    );
    assert(files.map_values(|file: Seq<u8>| (host.shebang)(join(file_base, file))) == Seq::new(
        files.len(),
        |i: int| (host.shebang)(join(file_base, files[i])),
    ));
}

/// If Git fails, or prints what is no text, so does the hook.
pub proof fn law_hook_fails(host: HookHost, file_base: Seq<u8>, filenames: Seq<Seq<u8>>)
    ensures
        ({
            let end = run_hook(host, HookView::FileMode { file_base, filenames }, 3);
            &&& (host.output)(file_mode_cmd()) matches Err(err) ==> end == (HookView::Done {
                result: Err(Error::Repo(repo::Error::Git(err))),
            })
            &&& (host.output)(file_mode_cmd()) matches Ok(stdout) ==> (!valid_utf8(stdout) ==> end
                == (HookView::Done {
                result: Err(Error::Repo(repo::Error::Utf8(utf8_error(stdout)))),
            }))
            &&& (host.output)(file_mode_cmd()) matches Ok(stdout) ==> (valid_utf8(stdout)
                && !says_tracked(decode_utf8(stdout)) ==> ((host.output)(
                ls_stage_cmd(file_base),
            ) matches Err(err) ==> end == (HookView::Done {
                result: Err(Error::Repo(repo::Error::Git(err))),
            })))
            &&& (host.output)(file_mode_cmd()) matches Ok(stdout) ==> (valid_utf8(stdout)
                && !says_tracked(decode_utf8(stdout)) ==> ((host.output)(
                ls_stage_cmd(file_base),
            ) matches Ok(listing) ==> (!all_utf8(entries(listing)) ==> end == (HookView::Done {
                result: Err(
                    Error::Repo(repo::Error::Utf8(first_utf8_error(entries(listing)))),
                ),
            }))))
        }),
{
    law_hook(host, file_base, filenames, 3);
}

} // verus!
