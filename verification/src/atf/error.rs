//! What can go wrong while a session is loaded.

use vstd::prelude::*;
use vstd::string::*;

verus! {

/// Why a record of the event log could not be decoded.
#[derive(Debug, Clone, Copy, PartialEq, Eq, Structural)]
pub enum DecodeFault {
    /// A variable-length integer is cut short or runs past ten bytes.
    InvalidVarint,
    /// A field key does not fit 32 bits.
    InvalidKey,
    /// A field key names a wire type that does not exist.
    InvalidWireType,
    /// A field key has tag zero.
    InvalidTag,
    /// A known field arrives with another wire type than its own.
    UnexpectedWireType,
    /// A value claims more bytes than are left.
    BufferUnderflow,
    /// A group is closed that was not opened, or under another tag.
    UnexpectedEndGroup,
    /// Groups are nested too deeply.
    RecursionLimit,
    /// A text field is not UTF-8.
    InvalidString,
}

impl DecodeFault {
    /// What the fault is called in messages.
    pub open spec fn text(self) -> Seq<char> {
        match self {
            DecodeFault::InvalidVarint => "invalid varint"@,
            DecodeFault::InvalidKey => "invalid key value"@,
            DecodeFault::InvalidWireType => "invalid wire type value"@,
            DecodeFault::InvalidTag => "invalid tag value: 0"@,
            DecodeFault::UnexpectedWireType => "unexpected wire type"@,
            DecodeFault::BufferUnderflow => "buffer underflow"@,
            DecodeFault::UnexpectedEndGroup => "unexpected end group tag"@,
            DecodeFault::RecursionLimit => "recursion limit reached"@,
            DecodeFault::InvalidString => "invalid string value: data is not UTF-8 encoded"@,
        }
    }

    /// What the fault is called in messages.
    pub fn as_str(&self) -> (s: &'static str)
        ensures
            s@ == self.text(),
    {
        match self {
            DecodeFault::InvalidVarint => "invalid varint",
            DecodeFault::InvalidKey => "invalid key value",
            DecodeFault::InvalidWireType => "invalid wire type value",
            DecodeFault::InvalidTag => "invalid tag value: 0",
            DecodeFault::UnexpectedWireType => "unexpected wire type",
            DecodeFault::BufferUnderflow => "buffer underflow",
            DecodeFault::UnexpectedEndGroup => "unexpected end group tag",
            DecodeFault::RecursionLimit => "recursion limit reached",
            DecodeFault::InvalidString => "invalid string value: data is not UTF-8 encoded",
        }
    }
}

/// A failure to load a session.
#[derive(Debug, Clone, PartialEq)]
pub enum AtfError {
    /// The session directory is absent or is no directory.
    TraceNotFound(String),
    /// The session has no manifest file.
    ManifestNotFound(String),
    /// The session has no event file.
    EventsNotFound(String),
    /// The manifest is malformed or breaks its invariant.
    Manifest(String),
    /// Any other failure of the file system, with the path it struck.
    Io { path: String, cause: String },
    /// A record of the event log is malformed.
    Decode(DecodeFault),
}

/// Mathematical model of an [`AtfError`].
pub enum AtfErrorView {
    TraceNotFound(Seq<char>),
    ManifestNotFound(Seq<char>),
    EventsNotFound(Seq<char>),
    Manifest(Seq<char>),
    Io { path: Seq<char>, cause: Seq<char> },
    Decode(DecodeFault),
}

impl View for AtfError {
    type V = AtfErrorView;

    open spec fn view(&self) -> AtfErrorView {
        match *self {
            AtfError::TraceNotFound(p) => AtfErrorView::TraceNotFound(p@),
            AtfError::ManifestNotFound(p) => AtfErrorView::ManifestNotFound(p@),
            AtfError::EventsNotFound(p) => AtfErrorView::EventsNotFound(p@),
            AtfError::Manifest(m) => AtfErrorView::Manifest(m@),
            AtfError::Io { path, cause } => AtfErrorView::Io { path: path@, cause: cause@ },
            AtfError::Decode(f) => AtfErrorView::Decode(f),
        }
    }
}

impl AtfErrorView {
    /// The error in words.
    pub open spec fn message(self) -> Seq<char> {
        match self {
            AtfErrorView::TraceNotFound(p) => "trace directory not found: "@ + p,
            AtfErrorView::ManifestNotFound(p) => "manifest not found: "@ + p,
            AtfErrorView::EventsNotFound(p) => "events file not found: "@ + p,
            AtfErrorView::Manifest(m) => "manifest error: "@ + m,
            AtfErrorView::Io { path, cause } => "io error at "@ + path + ": "@ + cause,
            AtfErrorView::Decode(f) => "failed to decode event: "@ + f.text(),
        }
    }

    /// The session, or one of its two files, is missing.
    pub open spec fn is_not_found(self) -> bool {
        self is TraceNotFound || self is ManifestNotFound || self is EventsNotFound
    }
}

/// What loading a session gives.
pub type AtfResult<T> = Result<T, AtfError>;

impl AtfError {
    /// A manifest error with the message `message`.
    pub fn manifest(message: &str) -> (e: Self)
        ensures
            e@ == AtfErrorView::Manifest(message@),
    {
        AtfError::Manifest(String::from_str(message))
    }

    /// A file-system error at `path`.
    pub fn io(path: String, cause: String) -> (e: Self)
        ensures
            e@ == (AtfErrorView::Io { path: path@, cause: cause@ }),
    {
        AtfError::Io { path, cause }
    }

    /// A decode error.
    pub fn decode(fault: DecodeFault) -> (e: Self)
        ensures
            e@ == AtfErrorView::Decode(fault),
    {
        AtfError::Decode(fault)
    }

    /// The error in words.
    pub fn describe(&self) -> (text: String)
        ensures
            text@ == self@.message(),
    {
        match self {
            AtfError::TraceNotFound(p) => String::from_str("trace directory not found: ").concat(
                p.as_str(),
            ),
            AtfError::ManifestNotFound(p) => String::from_str("manifest not found: ").concat(
                p.as_str(),
            ),
            AtfError::EventsNotFound(p) => String::from_str("events file not found: ").concat(
                p.as_str(),
            ),
            AtfError::Manifest(m) => String::from_str("manifest error: ").concat(m.as_str()),
            AtfError::Io { path, cause } => String::from_str("io error at ").concat(
                path.as_str(),
            ).concat(": ").concat(cause.as_str()),
            AtfError::Decode(f) => String::from_str("failed to decode event: ").concat(
                f.as_str(),
            ),
        }
    }
}

} // verus!
