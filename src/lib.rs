//! Serving the members of a zip archive by URL path: path normalization,
//! archive lookup with index fallback, content typing and the final decision
//! between serving, redirecting and failing.

mod archive;
mod content;
mod error;
mod handler;
mod path;

pub use archive::{open_archive, resolve, Archive, Resolved};
pub use content::{classify, select_media_type};
pub use error::FileRequestError;
pub use handler::{
    decide, handle, handle_archive, outcome_for, redirect_location, Action, ContainerFault, Outcome,
};
pub use path::{member_name, normalize_path, split_path};
