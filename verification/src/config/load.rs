//! Loading a file of the user's, or writing a default in its place.
//!
//! What is on the disk is found out elsewhere. Here it is decided what
//! follows from it: a file that is there is read and never written; only
//! one that is missing is written, and then read back, so that what is
//! parsed is always what the disk holds.

use crate::errors::{Error, ErrorView};
use crate::text::copy_bytes;
use vstd::prelude::*;

verus! {

/// A file of the user's.
#[derive(Clone, Copy, PartialEq, Eq, Structural)]
pub enum UserFile {
    /// The configuration.
    Config,
    /// The secrets.
    Secrets,
}

/// What has become known about a file.
pub enum LoadEvent {
    /// It was read.
    Read {
        /// Its text.
        source: String,
    },
    /// There is no such file.
    Missing,
    /// It could not be read, though it may be there.
    Unreadable {
        /// What the operating system answered.
        reason: String,
    },
    /// The default was written.
    Written,
    /// The default could not be written.
    NotWritten {
        /// What the operating system answered.
        reason: String,
    },
    /// What was just written could not be read back.
    NotReadBack {
        /// What the operating system answered.
        reason: String,
    },
}

/// What to do next about a file.
pub enum LoadStep {
    /// Write the default, and the directories above it.
    WriteDefault,
    /// Read what was written.
    ReadBack,
    /// Parse this text.
    Parse(String),
    /// Nothing; the file cannot be loaded.
    Fail(Error),
}

/// What a [`LoadEvent`] says.
#[verifier::ext_equal]
pub enum LoadEventView {
    Read { source: Seq<char> },
    Missing,
    Unreadable { reason: Seq<char> },
    Written,
    NotWritten { reason: Seq<char> },
    NotReadBack { reason: Seq<char> },
}

/// What a [`LoadStep`] says.
#[verifier::ext_equal]
pub enum LoadStepView {
    WriteDefault,
    ReadBack,
    Parse(Seq<char>),
    Fail(ErrorView),
}

impl View for LoadEvent {
    type V = LoadEventView;

    open spec fn view(&self) -> LoadEventView {
        match self {
            LoadEvent::Read { source } => LoadEventView::Read { source: source@ },
            LoadEvent::Missing => LoadEventView::Missing,
            LoadEvent::Unreadable { reason } => LoadEventView::Unreadable { reason: reason@ },
            LoadEvent::Written => LoadEventView::Written,
            LoadEvent::NotWritten { reason } => LoadEventView::NotWritten { reason: reason@ },
            LoadEvent::NotReadBack { reason } => LoadEventView::NotReadBack { reason: reason@ },
        }
    }
}

impl View for LoadStep {
    type V = LoadStepView;

    open spec fn view(&self) -> LoadStepView {
        match self {
            LoadStep::WriteDefault => LoadStepView::WriteDefault,
            LoadStep::ReadBack => LoadStepView::ReadBack,
            LoadStep::Parse(source) => LoadStepView::Parse(source@),
            LoadStep::Fail(e) => LoadStepView::Fail(e@),
        }
    }
}

/// The error for a file that cannot be read.
pub open spec fn unreadable(file: UserFile, path: Seq<u8>, source: Seq<char>) -> ErrorView {
    match file {
        UserFile::Config => ErrorView::CouldNotReadConfig { path, source },
        UserFile::Secrets => ErrorView::CouldNotReadSecrets { path, source },
    }
}

/// The error for a default that cannot be written.
pub open spec fn unwritable(file: UserFile, path: Seq<u8>, source: Seq<char>) -> ErrorView {
    match file {
        UserFile::Config => ErrorView::CouldNotWriteConfig { path, source },
        UserFile::Secrets => ErrorView::CouldNotWriteSecrets { path, source },
    }
}

/// What follows from what has become known. An empty file is a file: it is
/// parsed, not replaced.
pub open spec fn load_step(file: UserFile, path: Seq<u8>, event: LoadEventView) -> LoadStepView {
    match event {
        LoadEventView::Read { source } => LoadStepView::Parse(source),
        LoadEventView::Missing => LoadStepView::WriteDefault,
        LoadEventView::Unreadable { reason } => LoadStepView::Fail(
            unreadable(file, path, reason),
        ),
        LoadEventView::Written => LoadStepView::ReadBack,
        LoadEventView::NotWritten { reason } => LoadStepView::Fail(
            unwritable(file, path, reason),
        ),
        LoadEventView::NotReadBack { reason } => LoadStepView::Fail(
            unreadable(file, path, reason),
        ),
    }
}

/// The error for a file that cannot be read.
fn read_failure(file: UserFile, path: &[u8], reason: &str) -> (r: Error)
    ensures
        r@ == unreadable(file, path@, reason@),
{
    match file {
        UserFile::Config => Error::could_not_read_config(copy_bytes(path), reason),
        UserFile::Secrets => Error::could_not_read_secrets(copy_bytes(path), reason),
    }
}

/// What follows from what has become known about a file.
pub fn load_or_init(file: UserFile, path: &[u8], event: LoadEvent) -> (r: LoadStep)
    ensures
        r@ == load_step(file, path@, event@),
{
    match event {
        LoadEvent::Read { source } => LoadStep::Parse(source),
        LoadEvent::Missing => LoadStep::WriteDefault,
        LoadEvent::Unreadable { reason } => LoadStep::Fail(
            read_failure(file, path, reason.as_str()),
        ),
        LoadEvent::Written => LoadStep::ReadBack,
        LoadEvent::NotWritten { reason } => {
            let e = match file {
                UserFile::Config => Error::could_not_write_config(
                    copy_bytes(path),
                    reason.as_str(),
                ),
                UserFile::Secrets => Error::could_not_write_secrets(
                    copy_bytes(path),
                    reason.as_str(),
                ),
            };
            LoadStep::Fail(e)
        },
        LoadEvent::NotReadBack { reason } => LoadStep::Fail(
            read_failure(file, path, reason.as_str()),
        ),
    }
}

/// Nothing is written over: the default is written where there is no file,
/// and only there. What is parsed is what was read, and a default is read
/// back before anything is parsed.
pub proof fn law_existing_file_is_kept(file: UserFile, path: Seq<u8>, event: LoadEventView)
    ensures
        load_step(file, path, event) is WriteDefault <==> event is Missing,
        load_step(file, path, event) is ReadBack <==> event is Written,
        load_step(file, path, event) matches LoadStepView::Parse(source) ==> event
            == (LoadEventView::Read { source }),
{
}

/// What cannot be read or written is an error that names the file and what
/// the operating system answered, for the configuration and for the secrets
/// each in its own words.
pub proof fn law_file_errors_spelled_out(path: Seq<u8>, reason: Seq<char>)
    ensures
        load_step(UserFile::Config, path, LoadEventView::Unreadable { reason })
            == LoadStepView::Fail(ErrorView::CouldNotReadConfig { path, source: reason }),
        load_step(UserFile::Config, path, LoadEventView::NotReadBack { reason })
            == LoadStepView::Fail(ErrorView::CouldNotReadConfig { path, source: reason }),
        load_step(UserFile::Config, path, LoadEventView::NotWritten { reason })
            == LoadStepView::Fail(ErrorView::CouldNotWriteConfig { path, source: reason }),
        load_step(UserFile::Secrets, path, LoadEventView::Unreadable { reason })
            == LoadStepView::Fail(ErrorView::CouldNotReadSecrets { path, source: reason }),
        load_step(UserFile::Secrets, path, LoadEventView::NotReadBack { reason })
            == LoadStepView::Fail(ErrorView::CouldNotReadSecrets { path, source: reason }),
        load_step(UserFile::Secrets, path, LoadEventView::NotWritten { reason })
            == LoadStepView::Fail(ErrorView::CouldNotWriteSecrets { path, source: reason }),
        forall|file: UserFile, source: Seq<char>| #[trigger]
            load_step(file, path, LoadEventView::Read { source }) == LoadStepView::Parse(source),
{
}

} // verus!
