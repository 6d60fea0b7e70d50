//! Where Git hooks run, and on which files: Git repositories and Jujutsu workspaces.
//!
//! Nothing here touches the file system or starts a command. What depends on them is a state that
//! asks for what it wants to know next, and a step that takes the answer.

pub mod host;
pub mod jj;
pub mod path;
pub mod path_set;
pub mod process;
pub mod repo;
pub mod shebangs;
pub mod split;
pub mod text;
