//! Descriptions of the commands that are to be run.

use crate::path::FilePath;
use crate::split::{lemma_views_push, views};
use vstd::prelude::*;
use vstd::utf8::encode_utf8;

verus! {

/// A command: the program, what to call the run in messages, and how to start it.
#[derive(Debug)]
pub struct Cmd {
    pub program: FilePath,
    pub summary: String,
    pub current_dir: Option<FilePath>,
    pub args: Vec<Vec<u8>>,
    /// The variables that are set for this command alone. The last value of a variable counts.
    pub envs: Vec<(String, FilePath)>,
    /// Whether a failing exit status is an error. The runner decides if this is not given.
    pub check: Option<bool>,
}

/// What a command comes to.
pub struct CmdView {
    pub program: Seq<u8>,
    pub summary: Seq<char>,
    pub current_dir: Option<Seq<u8>>,
    pub args: Seq<Seq<u8>>,
    pub envs: Map<Seq<char>, Seq<u8>>,
    pub check: Option<bool>,
}

/// The values that variables have after they were set one after the other.
pub open spec fn env_map(envs: Seq<(String, FilePath)>) -> Map<Seq<char>, Seq<u8>>
    decreases envs.len(),
{
    if envs.len() == 0 {
        Map::empty()
    } else {
        env_map(envs.drop_last()).insert(envs.last().0@, envs.last().1@)
    }
}

impl View for Cmd {
    type V = CmdView;

    open spec fn view(&self) -> CmdView {
        CmdView {
            program: self.program@,
            summary: self.summary@,
            current_dir: match self.current_dir {
                Some(dir) => Some(dir@),
                None => None,
            },
            args: views(self.args@),
            envs: env_map(self.envs@),
            check: self.check,
        }
    }
}

impl Cmd {
    pub fn new(program: &FilePath, summary: &str) -> (cmd: Cmd)
        ensures
            cmd@ == (CmdView {
                program: program@,
                summary: summary@,
                current_dir: None,
                args: Seq::empty(),
                envs: Map::empty(),
                check: None,
            }),
    {
        let cmd = Cmd {
            program: program.clone(),
            summary: summary.to_owned(),
            current_dir: None,
            args: Vec::new(),
            envs: Vec::new(),
            check: None,
        };
        proof {
            assert(views(cmd.args@) == Seq::<Seq<u8>>::empty());
        }
        cmd
    }

    /// Appends an argument.
    pub fn arg(&mut self, arg: &str)
        ensures
            final(self)@ == (CmdView {
                args: old(self)@.args.push(encode_utf8(arg@)),
                ..old(self)@
            }),
    {
        let bytes = vstd::slice::slice_to_vec(arg.as_bytes());
        proof {
            lemma_views_push(self.args@, bytes);
        }
        self.args.push(bytes);
    }

    /// Appends a path as an argument.
    pub fn arg_path(&mut self, path: &FilePath)
        ensures
            final(self)@ == (CmdView { args: old(self)@.args.push(path@), ..old(self)@ }),
    {
        let bytes = vstd::slice::slice_to_vec(path.as_bytes());
        proof {
            lemma_views_push(self.args@, bytes);
        }
        self.args.push(bytes);
    }

    /// Sets the directory that the command runs in.
    pub fn current_dir(&mut self, dir: &FilePath)
        ensures
            final(self)@ == (CmdView { current_dir: Some(dir@), ..old(self)@ }),
    {
        self.current_dir = Some(dir.clone());
    }

    /// Sets a variable for this command.
    pub fn env(&mut self, name: &str, value: &FilePath)
        ensures
            final(self)@ == (CmdView {
                envs: old(self)@.envs.insert(name@, value@),
                ..old(self)@
            }),
    {
        let entry = (name.to_owned(), value.clone());
        proof {
            assert(self.envs@.push(entry).drop_last() == self.envs@);
        }
        self.envs.push(entry);
    }

    /// Sets whether a failing exit status is an error.
    pub fn check(&mut self, check: bool)
        ensures
            final(self)@ == (CmdView { check: Some(check), ..old(self)@ }),
    {
        self.check = Some(check);
    }
}

/// A Git command: what to call the run in messages, and the arguments. How Git itself is started
/// is left to the runner.
#[derive(Debug)]
pub struct GitCmd {
    pub summary: String,
    pub args: Vec<Vec<u8>>,
    /// Whether a failing exit status is an error. The runner decides if this is not given.
    pub check: Option<bool>,
}

/// What a Git command comes to.
pub struct GitCmdView {
    pub summary: Seq<char>,
    pub args: Seq<Seq<u8>>,
    pub check: Option<bool>,
}

impl View for GitCmd {
    type V = GitCmdView;

    open spec fn view(&self) -> GitCmdView {
        GitCmdView { summary: self.summary@, args: views(self.args@), check: self.check }
    }
}

impl GitCmd {
    pub fn new(summary: &str) -> (cmd: GitCmd)
        ensures
            cmd@ == (GitCmdView { summary: summary@, args: Seq::empty(), check: None }),
    {
        let cmd = GitCmd { summary: summary.to_owned(), args: Vec::new(), check: None };
        proof {
            assert(views(cmd.args@) == Seq::<Seq<u8>>::empty());
        }
        cmd
    }

    /// Appends an argument.
    pub fn arg(&mut self, arg: &str)
        ensures
            final(self)@ == (GitCmdView {
                args: old(self)@.args.push(encode_utf8(arg@)),
                ..old(self)@
            }),
    {
        let bytes = vstd::slice::slice_to_vec(arg.as_bytes());
        proof {
            lemma_views_push(self.args@, bytes);
        }
        self.args.push(bytes);
    }

    /// Appends a path as an argument.
    pub fn arg_path(&mut self, path: &FilePath)
        ensures
            final(self)@ == (GitCmdView { args: old(self)@.args.push(path@), ..old(self)@ }),
    {
        let bytes = vstd::slice::slice_to_vec(path.as_bytes());
        proof {
            lemma_views_push(self.args@, bytes);
        }
        self.args.push(bytes);
    }

    /// Sets whether a failing exit status is an error.
    pub fn check(&mut self, check: bool)
        ensures
            final(self)@ == (GitCmdView { check: Some(check), ..old(self)@ }),
    {
        self.check = Some(check);
    }
}

// ---------------------------------------------------------------------------------------------
// Laws.

/// A variable has the value that it was given last.
pub proof fn law_env_set(envs: Seq<(String, FilePath)>, i: int)
    requires
        0 <= i < envs.len(),
        forall|j: int| i < j < envs.len() ==> (#[trigger] envs[j]).0@ != envs[i].0@,
    ensures
        env_map(envs).contains_pair(envs[i].0@, envs[i].1@),
    decreases envs.len(),
{
    let last = envs.len() - 1;
    if i < last {
        let front = envs.drop_last();
        assert(envs[last].0@ != envs[i].0@);
        assert(front[i] == envs[i]);
        assert forall|j: int| i < j < front.len() implies (#[trigger] front[j]).0@
            != front[i].0@ by {
            assert(envs[j].0@ != envs[i].0@);
        }
        law_env_set(front, i);
    }
}

/// A variable that was given no value has none.
pub proof fn law_env_unset(envs: Seq<(String, FilePath)>, name: Seq<char>)
    requires
        forall|i: int| 0 <= i < envs.len() ==> (#[trigger] envs[i]).0@ != name,
    ensures
        !env_map(envs).contains_key(name),
    decreases envs.len(),
{
    if envs.len() > 0 {
        let front = envs.drop_last();
        assert(envs[envs.len() - 1].0@ != name);
        assert forall|i: int| 0 <= i < front.len() implies (#[trigger] front[i]).0@ != name by {
            assert(envs[i].0@ != name);
        }
        law_env_unset(front, name);
    }
}

} // verus!
