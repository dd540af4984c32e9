//! What is known of a source document that schedule data is read from.

use vstd::prelude::*;

pub mod error;

verus! {

/// A source document, as far as it has been read.
#[derive(Debug)]
pub struct Pdf {
    version: Option<String>,
}

impl Default for Pdf {
    fn default() -> (r: Pdf)
        ensures
            r.version_spec() is None,
    {
        Pdf { version: None }
    }
}

impl Pdf {
    /// The format version the document declares, if it has been read.
    pub closed spec fn version_spec(self) -> Option<Seq<char>> {
        match self.version {
            Some(v) => Some(v@),
            None => None,
        }
    }

    pub fn new() -> (r: Pdf)
        ensures
            r.version_spec() is None,
    {
        Pdf::default()
    }

    /// Records the format version the document declares.
    pub fn version(self, version: &str) -> (r: Pdf)
        ensures
            r.version_spec() == Some(version@),
    {
        let v = version.to_string();
        proof {
            vstd::string::to_string_from_display_ensures_for_str(version, v);
        }
        let mut p = self;
        p.version = Some(v);
        p
    }
}

} // verus!
