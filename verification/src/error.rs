//! Error kinds used across the library.

use vstd::prelude::*;

verus! {

/// The error kinds of the library's fallible operations.
#[derive(Clone, Debug)]
pub enum AnchorError {
    /// The file's extension maps to no supported language.
    UnsupportedLanguage(String),
    /// The grammar could not parse at all (not malformed source,
    /// which parses best-effort).
    ParseError(String, String),
    /// A read or write failed; path and detail.
    Io(String, String),
    /// The on-disk cache is unreadable or has the wrong version.
    BadCache(String),
    /// A writer panicked while holding the graph lock.
    LockPoisoned,
}

impl AnchorError {
    /// A short human-readable description.
    pub fn message(&self) -> (r: String)
        ensures
            true,
    {
        match self {
            AnchorError::UnsupportedLanguage(p) => {
                let mut s = String::new();
                s.append("unsupported language: ");
                s.append(p.as_str());
                s
            },
            AnchorError::ParseError(p, d) => {
                let mut s = String::new();
                s.append("parse error in ");
                s.append(p.as_str());
                s.append(": ");
                s.append(d.as_str());
                s
            },
            AnchorError::Io(p, d) => {
                let mut s = String::new();
                s.append("io error on ");
                s.append(p.as_str());
                s.append(": ");
                s.append(d.as_str());
                s
            },
            AnchorError::BadCache(d) => {
                let mut s = String::new();
                s.append("bad cache: ");
                s.append(d.as_str());
                s
            },
            AnchorError::LockPoisoned => {
                let mut s = String::new();
                s.append("graph lock poisoned");
                s
            },
        }
    }
}

} // verus!
