//! The options of the `check` and `update` commands.

use vstd::prelude::*;

verus! {

/// What the user asked for: a manifest, and where fonts may be taken from.
#[derive(Clone, Debug)]
pub struct FontCommand {
    /// Path of the manifest.
    pub config: String,
    /// Font library locations: directories, or repositories written
    /// `owner/repo`.
    pub library: Option<Vec<String>>,
    /// Whether the locations are hosted repositories.
    pub github: bool,
}

impl FontCommand {
    /// The options are consistent unless repositories are asked for and no
    /// location is given.
    pub open spec fn consistent(&self) -> bool {
        !(self.github && self.library is None)
    }

    /// Checks the options; the error is the message for the user.
    pub fn validate(&self) -> (r: Result<(), String>)
        ensures
            r is Ok <==> self.consistent(),
            r is Err ==> r->Err_0@
                == "When '--github' is set to true, '--library' must also be provided."@,
    {
        if self.github && self.library.is_none() {
            return Err(
                String::from_str(
                    "When '--github' is set to true, '--library' must also be provided.",
                ),
            );
        }
        Ok(())
    }
}

} // verus!
