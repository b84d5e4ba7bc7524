use vstd::prelude::*;

use crate::path::bytes_equal;

verus! {

/// The name of the metadata directory that is never descended into.
pub open spec fn metadata_dir_name() -> Seq<u8> {
    seq![46u8, 103u8, 105u8, 116u8]
}

/// Whether the walk keeps an entry: everything but a directory named `.git`.
pub open spec fn admits(is_dir: bool, file_name: Option<Seq<u8>>) -> bool {
    !(is_dir && file_name == Some(metadata_dir_name()))
}

/// Whether the walk keeps the entry at `rel`, a path relative to the source
/// root, and descends into it: the walk visits an entry only when it keeps
/// the entry and each directory above it.
pub open spec fn reached(rel: Seq<Seq<u8>>, is_dir: bool) -> bool {
    &&& forall|i: int| 0 <= i < rel.len() - 1 ==> admits(true, Some(#[trigger] rel[i]))
    &&& rel.len() > 0 ==> admits(is_dir, Some(rel.last()))
}

/// Whether the walk keeps an entry of the given type and file name.
pub fn should_traverse(is_dir: bool, file_name: &Option<Vec<u8>>) -> (r: bool)
    ensures
        r == admits(is_dir, match file_name {
            Some(n) => Some(n@),
            None => None,
        }),
{
    if !is_dir {
        return true;
    }
    match file_name {
        None => true,
        Some(n) => {
            let git: Vec<u8> = vec![46u8, 103u8, 105u8, 116u8];
            assert(git@ == metadata_dir_name());
            !bytes_equal(n, &git)
        },
    }
}

/// Why `link` refuses a destination root.
#[derive(Clone, Copy, Debug, PartialEq, Eq, Structural)]
pub enum DestinationError {
    /// Nothing exists at the destination root.
    NotFound,
    /// The destination root exists and is not a directory.
    NotDirectory,
}

impl DestinationError {
    /// The message that describes the error.
    pub fn message(&self) -> (r: &'static str)
        ensures
            r@ == destination_message(*self),
    {
        match self {
            DestinationError::NotFound => "Destination doesn't exist",
            DestinationError::NotDirectory => "Destination is not a directory",
        }
    }
}

pub open spec fn destination_message(e: DestinationError) -> Seq<char> {
    match e {
        DestinationError::NotFound => "Destination doesn't exist"@,
        DestinationError::NotDirectory => "Destination is not a directory"@,
    }
}

/// Checks the destination root before `link` walks the source: it must
/// exist and be a directory.
pub fn check_destination(exists: bool, is_dir: bool) -> (r: Result<(), DestinationError>)
    ensures
        r == (if !exists {
            Err(DestinationError::NotFound)
        } else if !is_dir {
            Err(DestinationError::NotDirectory)
        } else {
            Ok(())
        }),
{
    if !exists {
        Err(DestinationError::NotFound)
    } else if !is_dir {
        Err(DestinationError::NotDirectory)
    } else {
        Ok(())
    }
}

/// How much is logged.
#[derive(Clone, Copy, Debug, PartialEq, Eq, Structural)]
pub enum LogLevel {
    Error,
    Warn,
    Info,
    Debug,
    Trace,
}

/// The level for a count of verbosity flags: none logs errors only, each
/// one more shows one level more.
pub fn level_for_verbosity(verbosity: u8) -> (r: LogLevel)
    ensures
        r == (if verbosity == 0 {
            LogLevel::Error
        } else if verbosity == 1 {
            LogLevel::Warn
        } else if verbosity == 2 {
            LogLevel::Info
        } else if verbosity == 3 {
            LogLevel::Debug
        } else {
            LogLevel::Trace
        }),
{
    match verbosity {
        0 => LogLevel::Error,
        1 => LogLevel::Warn,
        2 => LogLevel::Info,
        3 => LogLevel::Debug,
        _ => LogLevel::Trace,
    }
}

pub open spec fn level_name(l: LogLevel) -> Seq<char> {
    match l {
        LogLevel::Error => "error"@,
        LogLevel::Warn => "warn"@,
        LogLevel::Info => "info"@,
        LogLevel::Debug => "debug"@,
        LogLevel::Trace => "trace"@,
    }
}

impl LogLevel {
    /// The level's name as a log filter reads it.
    pub fn name(&self) -> (r: &'static str)
        ensures
            r@ == level_name(*self),
    {
        match self {
            LogLevel::Error => "error",
            LogLevel::Warn => "warn",
            LogLevel::Info => "info",
            LogLevel::Debug => "debug",
            LogLevel::Trace => "trace",
        }
    }
}

} // verus!
