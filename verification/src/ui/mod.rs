//! Copying directories, and asking questions.
pub mod dirs;

use crate::{sudo, text};
use crate::error::{Result, WaxError};
use crate::sudo::{is_file_exists_error, is_permission_error};
use crate::text::{chars_of, is, lowered, trimmed};
use vstd::prelude::*;

verus! {

/// How the copying of a directory goes on.
#[derive(Debug)]
pub enum CopyNext {
    Done,
    /// The copy is made anew with administrator's rights.
    WithSudo,
    Failed(WaxError),
}

/// How copying goes on after it was tried without administrator's rights: it is
/// tried with them when a permission was missing or a file stood in the way.
pub fn copy_dir_all(first: Result<()>) -> (r: CopyNext)
    ensures
        match first {
            Ok(_) => r is Done,
            Err(e) => if sudo::permission_error(e) || sudo::exists_error(e) {
                r is WithSudo
            } else {
                r == CopyNext::Failed(e)
            },
        },
{
    match first {
        Ok(_) => CopyNext::Done,
        Err(e) => if is_permission_error(&e) || is_file_exists_error(&e) {
            CopyNext::WithSudo
        } else {
            CopyNext::Failed(e)
        },
    }
}

/// What stands at a path, a link not followed.
#[derive(Debug, Clone, Copy, PartialEq, Eq, Structural)]
pub enum Standing {
    Nothing,
    File,
    Dir,
    Symlink,
}

/// What is taken away before something is put at a path.
#[derive(Debug, Clone, Copy, PartialEq, Eq, Structural)]
pub enum Clearing {
    Keep,
    RemoveFile,
    RemoveDir,
}

/// What is taken away before an entry of kind `entry` is copied to a path: what
/// is not a directory gives way to a directory, everything gives way to a link,
/// and directories and links give way to a file.
pub fn clearing_for(entry: Standing, at: Standing) -> (r: Clearing)
    ensures
        r == match entry {
            Standing::Dir => match at {
                Standing::File => Clearing::RemoveFile,
                Standing::Symlink => Clearing::RemoveFile,
                _ => Clearing::Keep,
            },
            Standing::Symlink => match at {
                Standing::Nothing => Clearing::Keep,
                Standing::Dir => Clearing::RemoveDir,
                _ => Clearing::RemoveFile,
            },
            _ => match at {
                Standing::Dir => Clearing::RemoveDir,
                Standing::Symlink => Clearing::RemoveFile,
                _ => Clearing::Keep,
            },
        },
{
    match entry {
        Standing::Dir => match at {
            Standing::File => Clearing::RemoveFile,
            Standing::Symlink => Clearing::RemoveFile,
            _ => Clearing::Keep,
        },
        Standing::Symlink => match at {
            Standing::Nothing => Clearing::Keep,
            Standing::Dir => Clearing::RemoveDir,
            _ => Clearing::RemoveFile,
        },
        _ => match at {
            Standing::Dir => Clearing::RemoveDir,
            Standing::Symlink => Clearing::RemoveFile,
            _ => Clearing::Keep,
        },
    }
}

/// The answers that mean yes.
pub open spec fn is_yes(input: Seq<char>) -> bool {
    let answer = text::ascii_lower(text::trim(input));
    answer == "y"@ || answer == "yes"@
}

/// Whether a line that was typed at a prompt means yes.
pub fn confirm_prompt(input: &str) -> (r: bool)
    ensures
        r == is_yes(input@),
{
    let c = chars_of(input);
    let answer = lowered(trimmed(c.as_slice()));
    is(answer.as_slice(), "y") || is(answer.as_slice(), "yes")
}

/// Only a yes is a yes, in capitals or not, with or without space around it.
pub proof fn only_yes_is_yes(input: Seq<char>)
    ensures
        is_yes(input) <==> text::ascii_lower(text::trim(input)) == "y"@ || text::ascii_lower(
            text::trim(input),
        ) == "yes"@,
{
}

}
