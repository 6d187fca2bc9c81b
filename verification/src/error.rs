//! What can go wrong.
use vstd::prelude::*;

verus! {

/// Why an operation of the operating system failed, as far as it matters.
#[derive(Debug, Clone, Copy, PartialEq, Eq, Structural)]
pub enum ErrorKind {
    NotFound,
    PermissionDenied,
    AlreadyExists,
    UnexpectedEof,
    Other,
}

/// A failed operation of the operating system.
#[derive(Debug)]
pub struct IoError {
    pub kind: ErrorKind,
    pub message: String,
}

impl IoError {
    pub fn new(kind: ErrorKind, message: &str) -> (r: Self)
        ensures
            r.kind == kind,
            r.message@ == message@,
    {
        IoError { kind, message: String::from_str(message) }
    }
}

#[derive(Debug)]
pub enum WaxError {
    InstallError(String),
    ParseError(String),
    InvalidInput(String),
    FormulaNotFound(String),
    CaskNotFound(String),
    NotInstalled(String),
    CacheError(String),
    LockfileError(String),
    BundleError(String),
    BuildError(String),
    SelfUpdateError(String),
    BottleNotAvailable(String),
    PlatformNotSupported(String),
    ChecksumMismatch { expected: String, actual: String },
    IoError(IoError),
    Interrupted,
}

/// The mathematical content of a `WaxError`.
pub enum ErrorView {
    InstallError(Seq<char>),
    ParseError(Seq<char>),
    InvalidInput(Seq<char>),
    FormulaNotFound(Seq<char>),
    CaskNotFound(Seq<char>),
    NotInstalled(Seq<char>),
    CacheError(Seq<char>),
    LockfileError(Seq<char>),
    BundleError(Seq<char>),
    BuildError(Seq<char>),
    SelfUpdateError(Seq<char>),
    BottleNotAvailable(Seq<char>),
    PlatformNotSupported(Seq<char>),
    ChecksumMismatch { expected: Seq<char>, actual: Seq<char> },
    IoError(ErrorKind, Seq<char>),
    Interrupted,
}

impl View for WaxError {
    type V = ErrorView;

    open spec fn view(&self) -> ErrorView {
        match *self {
            WaxError::InstallError(m) => ErrorView::InstallError(m@),
            WaxError::ParseError(m) => ErrorView::ParseError(m@),
            WaxError::InvalidInput(m) => ErrorView::InvalidInput(m@),
            WaxError::FormulaNotFound(m) => ErrorView::FormulaNotFound(m@),
            WaxError::CaskNotFound(m) => ErrorView::CaskNotFound(m@),
            WaxError::NotInstalled(m) => ErrorView::NotInstalled(m@),
            WaxError::CacheError(m) => ErrorView::CacheError(m@),
            WaxError::LockfileError(m) => ErrorView::LockfileError(m@),
            WaxError::BundleError(m) => ErrorView::BundleError(m@),
            WaxError::BuildError(m) => ErrorView::BuildError(m@),
            WaxError::SelfUpdateError(m) => ErrorView::SelfUpdateError(m@),
            WaxError::BottleNotAvailable(m) => ErrorView::BottleNotAvailable(m@),
            WaxError::PlatformNotSupported(m) => ErrorView::PlatformNotSupported(m@),
            WaxError::ChecksumMismatch { expected, actual } => ErrorView::ChecksumMismatch {
                expected: expected@,
                actual: actual@,
            },
            WaxError::IoError(e) => ErrorView::IoError(e.kind, e.message@),
            WaxError::Interrupted => ErrorView::Interrupted,
        }
    }
}

/// A `WaxError` is seen as what it holds.
pub proof fn wax_error_is_seen_as_it_is(x: WaxError)
    ensures
        x matches WaxError::InstallError(m) ==> x@ == (ErrorView::InstallError(m@)),
        x matches WaxError::ParseError(m) ==> x@ == (ErrorView::ParseError(m@)),
        x matches WaxError::InvalidInput(m) ==> x@ == (ErrorView::InvalidInput(m@)),
        x matches WaxError::FormulaNotFound(m) ==> x@ == (ErrorView::FormulaNotFound(m@)),
        x matches WaxError::CaskNotFound(m) ==> x@ == (ErrorView::CaskNotFound(m@)),
        x matches WaxError::NotInstalled(m) ==> x@ == (ErrorView::NotInstalled(m@)),
        x matches WaxError::CacheError(m) ==> x@ == (ErrorView::CacheError(m@)),
        x matches WaxError::LockfileError(m) ==> x@ == (ErrorView::LockfileError(m@)),
        x matches WaxError::BundleError(m) ==> x@ == (ErrorView::BundleError(m@)),
        x matches WaxError::BuildError(m) ==> x@ == (ErrorView::BuildError(m@)),
        x matches WaxError::SelfUpdateError(m) ==> x@ == (ErrorView::SelfUpdateError(m@)),
        x matches WaxError::BottleNotAvailable(m) ==> x@ == (ErrorView::BottleNotAvailable(m@)),
        x matches WaxError::PlatformNotSupported(m) ==> x@ == (ErrorView::PlatformNotSupported(m@)),
        x matches WaxError::ChecksumMismatch { expected, actual } ==> x@ == (ErrorView::ChecksumMismatch {
            expected: expected@,
            actual: actual@,
        }),
        x matches WaxError::IoError(e) ==> x@ == (ErrorView::IoError(e.kind, e.message@)),
        x is Interrupted ==> x@ == ErrorView::Interrupted,
{
}

pub type Result<T> = std::result::Result<T, WaxError>;

}
