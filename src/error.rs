use vstd::prelude::*;

verus! {

/// Why a request could not be served.
#[derive(Debug, Clone, Copy, PartialEq, Eq, Structural)]
pub enum FileRequestError {
    /// The named container does not exist.
    ContainerNotFound,
    /// No member matches the path, directly or through an index document.
    EntryNotFound,
    /// The container or a member is corrupt or could not be read.
    ArchiveRead,
}

impl FileRequestError {
    /// The HTTP status a fault is surfaced as.
    pub open spec fn status_spec(self) -> u16 {
        match self {
            FileRequestError::ContainerNotFound | FileRequestError::EntryNotFound => 404,
            FileRequestError::ArchiveRead => 500,
        }
    }

    /// The HTTP status a fault is surfaced as: 404 for what is missing, 500
    /// for everything else.
    pub fn status(&self) -> (r: u16)
        ensures
            r == self.status_spec(),
    {
        match self {
            FileRequestError::ContainerNotFound | FileRequestError::EntryNotFound => 404,
            FileRequestError::ArchiveRead => 500,
        }
    }
}

} // verus!
