//! The failures that the catalog reports.

use vstd::prelude::*;

verus! {

/// What went wrong.
#[derive(Debug)]
pub enum WikiError {
    /// A page could not be fetched: transport failure, timeout or a status
    /// that is no success.
    Fetch { url: String, cause: String },
    /// A response could not be read as the structured text it should be.
    Parse { cause: String },
    /// The stored catalog is there but cannot be read.
    CacheCorrupt { cause: String },
    /// No category or mod of that name.
    NotFound { name: String },
}

impl WikiError {
    /// A sentence that says what went wrong.
    pub fn message(&self) -> (text: String)
        ensures
            text@ == match *self {
                WikiError::Fetch { url, cause } => "Failed to fetch "@ + url@ + ": "@ + cause@,
                WikiError::Parse { cause } => "Malformed response: "@ + cause@,
                WikiError::CacheCorrupt { cause } => "Unreadable cache: "@ + cause@,
                WikiError::NotFound { name } => "Mod '"@ + name@ + "' not found"@,
            },
    {
        match self {
            WikiError::Fetch { url, cause } => {
                let mut text = "Failed to fetch ".to_owned();
                text.append(url.as_str());
                text.append(": ");
                text.append(cause.as_str());
                text
            },
            WikiError::Parse { cause } => {
                let mut text = "Malformed response: ".to_owned();
                text.append(cause.as_str());
                text
            },
            WikiError::CacheCorrupt { cause } => {
                let mut text = "Unreadable cache: ".to_owned();
                text.append(cause.as_str());
                text
            },
            WikiError::NotFound { name } => {
                let mut text = "Mod '".to_owned();
                text.append(name.as_str());
                text.append("' not found");
                text
            },
        }
    }
}

} // verus!
