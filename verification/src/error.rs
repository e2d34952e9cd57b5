//! The failures that the library and the code around it report.

use vstd::prelude::*;
use vstd::string::StringExecFns;

verus! {

/// A failure, with a message that says what it concerns.
#[derive(Debug)]
pub enum ServiceError {
    /// A provider could not serve a request.
    ProviderError(String),
    /// A file or a row is missing.
    NotFound(String),
    /// A provider refused the credentials it was given.
    AuthenticationError(String),
    /// A remote provider could not be reached.
    NetworkError(String),
    /// A file exists but could not be read.
    Unreadable(String),
    /// A file's container or codec is not one that can be probed.
    UnsupportedFormat(String),
    /// The catalog could not complete a write.
    StorageError(String),
    /// The subscription to filesystem changes could not be set up.
    WatchError(String),
}

impl ServiceError {
    /// The words that introduce each kind of failure.
    pub open spec fn label(self) -> Seq<char> {
        match self {
            ServiceError::ProviderError(_) => "Provider error: "@,
            ServiceError::NotFound(_) => "Not found: "@,
            ServiceError::AuthenticationError(_) => "Authentication error: "@,
            ServiceError::NetworkError(_) => "Network error: "@,
            ServiceError::Unreadable(_) => "Unreadable: "@,
            ServiceError::UnsupportedFormat(_) => "Unsupported format: "@,
            ServiceError::StorageError(_) => "Storage error: "@,
            ServiceError::WatchError(_) => "Watch error: "@,
        }
    }

    /// The message that the failure carries.
    pub open spec fn message(self) -> Seq<char> {
        match self {
            ServiceError::ProviderError(m) => m@,
            ServiceError::NotFound(m) => m@,
            ServiceError::AuthenticationError(m) => m@,
            ServiceError::NetworkError(m) => m@,
            ServiceError::Unreadable(m) => m@,
            ServiceError::UnsupportedFormat(m) => m@,
            ServiceError::StorageError(m) => m@,
            ServiceError::WatchError(m) => m@,
        }
    }

    /// The failure as one line of text: its label, then its message.
    pub fn to_string(&self) -> (r: String)
        ensures
            r@ == self.label() + self.message(),
    {
        match self {
            ServiceError::ProviderError(m) => String::from_str("Provider error: ").concat(
                m.as_str(),
            ),
            ServiceError::NotFound(m) => String::from_str("Not found: ").concat(m.as_str()),
            ServiceError::AuthenticationError(m) => String::from_str(
                "Authentication error: ",
            ).concat(m.as_str()),
            ServiceError::NetworkError(m) => String::from_str("Network error: ").concat(
                m.as_str(),
            ),
            ServiceError::Unreadable(m) => String::from_str("Unreadable: ").concat(m.as_str()),
            ServiceError::UnsupportedFormat(m) => String::from_str("Unsupported format: ").concat(
                m.as_str(),
            ),
            ServiceError::StorageError(m) => String::from_str("Storage error: ").concat(
                m.as_str(),
            ),
            ServiceError::WatchError(m) => String::from_str("Watch error: ").concat(m.as_str()),
        }
    }
}

} // verus!
