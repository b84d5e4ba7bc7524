use vstd::prelude::*;

use crate::path::FsPath;

verus! {

/// The operation to run.
#[derive(Clone, Copy, Debug, PartialEq, Eq, Structural)]
pub enum Command {
    Link,
    Unlink,
}

/// The resolved settings of one invocation.
#[derive(Clone, Debug)]
pub struct Options {
    pub dst_dir: FsPath,
    pub src_dir: FsPath,
    pub command: Command,
    pub dry_run: bool,
    pub force: bool,
    /// Paths relative to the source directory that are left out.
    pub ignore: Vec<FsPath>,
    /// How many times the verbosity flag was given.
    pub verbose: u8,
}

} // verus!
