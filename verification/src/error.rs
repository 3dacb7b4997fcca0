//! The errors the controller's operations report.
use vstd::prelude::*;
use crate::text;

verus! {

/// Why an operation was refused.
pub enum CtrlError {
    /// A client setting holds a character that the environment file cannot carry.
    UnsupportedCharacters { field: String },
    /// The update channel is neither `stable` nor `beta`.
    InvalidChannel,
    /// No systemd unit belongs to the service name.
    UnknownService { name: String },
    /// An uploaded settings archive exceeds the size limit.
    ArchiveTooLarge,
    /// An archive entry's path leaves the data directory.
    PathTraversal { path: String },
    /// The upload is no readable gzip-compressed tar archive.
    InvalidArchive,
    /// An entry of the archive cannot be read.
    CorruptEntry,
    /// An entry of the archive has no usable path.
    InvalidEntryPath,
    /// The soft access point password is shorter than 8 characters.
    PasswordTooShort,
}

/// The text that describes an error.
pub open spec fn error_message(e: CtrlError) -> Seq<char> {
    match e {
        CtrlError::UnsupportedCharacters { field } => field@ + " contains unsupported characters"@,
        CtrlError::InvalidChannel => "invalid update channel"@,
        CtrlError::UnknownService { name } => "unknown service: "@ + name@,
        CtrlError::ArchiveTooLarge => "archive too large (max 10 MB)"@,
        CtrlError::PathTraversal { path } => "path traversal detected: "@ + path@,
        CtrlError::InvalidArchive => "invalid tar.gz archive"@,
        CtrlError::CorruptEntry => "corrupt archive entry"@,
        CtrlError::InvalidEntryPath => "invalid path in archive"@,
        CtrlError::PasswordTooShort => "password must have at least 8 characters"@,
    }
}

impl CtrlError {
    /// The text that describes this error.
    pub fn message(&self) -> (r: String)
        ensures
            r@ == error_message(*self),
    {
        let mut out: Vec<char> = Vec::new();
        match self {
            CtrlError::UnsupportedCharacters { field } => {
                text::push_str(&mut out, field.as_str());
                text::push_str(&mut out, " contains unsupported characters");
            },
            CtrlError::InvalidChannel => {
                text::push_str(&mut out, "invalid update channel");
            },
            CtrlError::UnknownService { name } => {
                text::push_str(&mut out, "unknown service: ");
                text::push_str(&mut out, name.as_str());
            },
            CtrlError::ArchiveTooLarge => {
                text::push_str(&mut out, "archive too large (max 10 MB)");
            },
            CtrlError::PathTraversal { path } => {
                text::push_str(&mut out, "path traversal detected: ");
                text::push_str(&mut out, path.as_str());
            },
            CtrlError::InvalidArchive => {
                text::push_str(&mut out, "invalid tar.gz archive");
            },
            CtrlError::CorruptEntry => {
                text::push_str(&mut out, "corrupt archive entry");
            },
            CtrlError::InvalidEntryPath => {
                text::push_str(&mut out, "invalid path in archive");
            },
            CtrlError::PasswordTooShort => {
                text::push_str(&mut out, "password must have at least 8 characters");
            },
        }
        proof {
            assert(Seq::<char>::empty() + error_message(*self) =~= error_message(*self));
        }
        text::string_of(&out)
    }
}

} // verus!
