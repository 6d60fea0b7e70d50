//! What the library asks of the machine that it runs on, and the answers.
//!
//! A search that depends on files is a state that says what it wants to know next, and a step that
//! takes the answer. Whoever drives the search looks at the files.

use crate::path::FilePath;
use vstd::prelude::*;

verus! {

/// A question about the machine.
#[derive(Debug)]
pub enum Request<P> {
    /// The current directory.
    CurrentDir,
    /// Whether the path is a directory.
    IsDir { path: P },
    /// Whether the path is a regular file.
    IsFile { path: P },
    /// The text in the file.
    ReadToString { path: P },
    /// The absolute form of the path, without links.
    Canonicalize { path: P },
    /// Whether the path exists.
    Exists { path: P },
    /// The root of the Git repository around the current directory.
    GitRoot,
}

/// An answer. A failure comes with the message that explains it.
#[derive(Debug)]
pub enum Reply<P, T> {
    Flag(bool),
    Text(Result<T, String>),
    Path(Result<P, String>),
}

impl View for Request<FilePath> {
    type V = Request<Seq<u8>>;

    open spec fn view(&self) -> Request<Seq<u8>> {
        match *self {
            Request::CurrentDir => Request::CurrentDir,
            Request::IsDir { path } => Request::IsDir { path: path@ },
            Request::IsFile { path } => Request::IsFile { path: path@ },
            Request::ReadToString { path } => Request::ReadToString { path: path@ },
            Request::Canonicalize { path } => Request::Canonicalize { path: path@ },
            Request::Exists { path } => Request::Exists { path: path@ },
            Request::GitRoot => Request::GitRoot,
        }
    }
}

impl View for Reply<FilePath, String> {
    type V = Reply<Seq<u8>, Seq<char>>;

    open spec fn view(&self) -> Reply<Seq<u8>, Seq<char>> {
        match *self {
            Reply::Flag(flag) => Reply::Flag(flag),
            Reply::Text(Ok(text)) => Reply::Text(Ok(text@)),
            Reply::Text(Err(err)) => Reply::Text(Err(err)),
            Reply::Path(Ok(path)) => Reply::Path(Ok(path@)),
            Reply::Path(Err(err)) => Reply::Path(Err(err)),
        }
    }
}

/// A machine that answers the same question always in the same way.
pub struct Host {
    pub current_dir: Result<Seq<u8>, String>,
    pub is_dir: spec_fn(Seq<u8>) -> bool,
    pub is_file: spec_fn(Seq<u8>) -> bool,
    pub read_to_string: spec_fn(Seq<u8>) -> Result<Seq<char>, String>,
    pub canonicalize: spec_fn(Seq<u8>) -> Result<Seq<u8>, String>,
    pub exists: spec_fn(Seq<u8>) -> bool,
    pub git_root: Result<Seq<u8>, String>,
}

impl Host {
    pub open spec fn answer(self, request: Request<Seq<u8>>) -> Reply<Seq<u8>, Seq<char>> {
        match request {
            Request::CurrentDir => Reply::Path(self.current_dir),
            Request::IsDir { path } => Reply::Flag((self.is_dir)(path)),
            Request::IsFile { path } => Reply::Flag((self.is_file)(path)),
            Request::ReadToString { path } => Reply::Text((self.read_to_string)(path)),
            Request::Canonicalize { path } => Reply::Path((self.canonicalize)(path)),
            Request::Exists { path } => Reply::Flag((self.exists)(path)),
            Request::GitRoot => Reply::Path(self.git_root),
        }
    }
}

} // verus!
