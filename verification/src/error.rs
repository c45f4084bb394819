//! The ways in which a run can fail.

use vstd::prelude::*;

verus! {

/// What went wrong, by kind.
#[derive(Clone, Copy, Debug, PartialEq, Eq, Hash, Structural)]
pub enum FontError {
    /// The manifest does not exist.
    ConfigNotFound,
    /// The manifest does not follow the schema.
    ConfigParseError,
    /// A repository did not answer the request for its library manifest with
    /// success.
    RemoteFetchError,
    /// A library manifest does not follow the schema.
    ManifestParseError,
    /// A stored repository path has fewer than three components.
    InvalidRepoPath,
    /// A font file could not be copied.
    CopyError,
    /// A font file could not be downloaded or written.
    DownloadError,
}

impl FontError {
    /// An error ends the run unless it concerns a single font of an update.
    pub open spec fn is_fatal(self) -> bool {
        !(self == FontError::CopyError || self == FontError::DownloadError)
    }

    /// Whether the run ends on this error; if not, the font is reported and
    /// the remaining fonts are still tried.
    pub fn aborts_run(&self) -> (r: bool)
        ensures
            r == self.is_fatal(),
    {
        match self {
            FontError::CopyError => false,
            FontError::DownloadError => false,
            _ => true,
        }
    }
}

} // verus!
