use vstd::prelude::*;
use crate::archive::{archive_entries, candidate, opened, resolution, resolve, open_archive, Archive, Entries};
use crate::content::{classify, media_type_spec};
use crate::error::FileRequestError;
use crate::path::{normalize_path, normalize_segments, split_segments};

verus! {

/// What to do with a member that was found.
#[derive(Debug, Clone, Copy, PartialEq, Eq, Structural)]
pub enum Action {
    /// Serve its content.
    Serve,
    /// Send a permanent redirect to the path with a trailing slash.
    Redirect,
    /// Report it as not found.
    Reject,
}

/// A direct member is served only without a trailing slash; an index
/// document is served only with one, and redirected to it otherwise.
pub open spec fn action_spec(fallback: bool, trailing_slash: bool) -> Action {
    if !fallback {
        if trailing_slash {
            Action::Reject
        } else {
            Action::Serve
        }
    } else if trailing_slash {
        Action::Serve
    } else {
        Action::Redirect
    }
}

/// Decides what to do with a found member, from whether it is an index
/// fallback and whether the request ended in a slash.
pub fn decide(fallback: bool, trailing_slash: bool) -> (r: Action)
    ensures
        r == action_spec(fallback, trailing_slash),
{
    if !fallback {
        if trailing_slash {
            Action::Reject
        } else {
            Action::Serve
        }
    } else if trailing_slash {
        Action::Serve
    } else {
        Action::Redirect
    }
}

pub open spec fn option_view(q: Option<&str>) -> Option<Seq<char>> {
    match q {
        Some(s) => Some(s@),
        None => None,
    }
}

/// The redirect target: the request path with a slash appended, then the
/// query string, if any, after a `?`.
pub open spec fn location_spec(uri_path: Seq<char>, query: Option<Seq<char>>) -> Seq<char> {
    match query {
        Some(q) => uri_path + seq!['/', '?'] + q,
        None => uri_path + seq!['/'],
    }
}

/// Builds the redirect target for a directory requested without its slash.
pub fn redirect_location(uri_path: &str, query: Option<&str>) -> (r: String)
    ensures
        r@ == location_spec(uri_path@, option_view(query)),
{
    let mut out = String::from_str(uri_path);
    proof {
        reveal_strlit("/");
        reveal_strlit("/?");
    }
    match query {
        Some(q) => {
            out.append("/?");
            out.append(q);
        },
        None => {
            out.append("/");
        },
    }
    out
}

/// Whether a path ends in a slash.
pub open spec fn ends_with_slash(p: Seq<char>) -> bool {
    p.len() > 0 && p.last() == '/'
}

fn has_trailing_slash(p: &str) -> (r: bool)
    ensures
        r == ends_with_slash(p@),
{
    let n = p.unicode_len();
    n > 0 && p.get_char(n - 1) == '/'
}

/// The terminal result of one request.
pub enum Outcome {
    /// Status 200 with the member's content and media type.
    Serve { body: Vec<u8>, content_type: String },
    /// A permanent redirect to `location`.
    Redirect { location: String },
    /// A fault, surfaced with its status.
    Failed(FileRequestError),
}

/// What an outcome holds, over plain values.
pub enum OutcomeView {
    Serve { body: Seq<u8>, content_type: Seq<char> },
    Redirect { location: Seq<char> },
    Failed(FileRequestError),
}

impl View for Outcome {
    type V = OutcomeView;

    open spec fn view(&self) -> OutcomeView {
        match self {
            Outcome::Serve { body, content_type } => OutcomeView::Serve {
                body: body@,
                content_type: content_type@,
            },
            Outcome::Redirect { location } => OutcomeView::Redirect { location: location@ },
            Outcome::Failed(e) => OutcomeView::Failed(*e),
        }
    }
}

/// The outcome for a found, readable member.
pub open spec fn found_outcome(
    fallback: bool,
    trailing_slash: bool,
    body: Seq<u8>,
    content_type: Seq<char>,
    uri_path: Seq<char>,
    query: Option<Seq<char>>,
) -> OutcomeView {
    match action_spec(fallback, trailing_slash) {
        Action::Serve => OutcomeView::Serve { body, content_type },
        Action::Redirect => OutcomeView::Redirect { location: location_spec(uri_path, query) },
        Action::Reject => OutcomeView::Failed(FileRequestError::EntryNotFound),
    }
}

/// The outcome of a request against a member table.
pub open spec fn archive_outcome(
    entries: Entries,
    remainder: Seq<char>,
    uri_path: Seq<char>,
    query: Option<Seq<char>>,
) -> OutcomeView {
    let segs = normalize_segments(split_segments(remainder));
    match resolution(entries, segs, directory_intent(remainder, uri_path)) {
        None => OutcomeView::Failed(FileRequestError::EntryNotFound),
        Some(fallback) => {
            let name = candidate(segs, fallback);
            match entries[name] {
                None => OutcomeView::Failed(FileRequestError::ArchiveRead),
                Some(content) => found_outcome(
                    fallback,
                    ends_with_slash(uri_path),
                    content,
                    media_type_spec(name, content),
                    uri_path,
                    query,
                ),
            }
        },
    }
}

/// The outcome of a request, from what became of reading its container.
pub open spec fn request_outcome(
    container: Result<Seq<u8>, ContainerFault>,
    remainder: Seq<char>,
    uri_path: Seq<char>,
    query: Option<Seq<char>>,
) -> OutcomeView {
    match container {
        Err(ContainerFault::NotFound) => OutcomeView::Failed(FileRequestError::ContainerNotFound),
        Err(ContainerFault::Unreadable) => OutcomeView::Failed(FileRequestError::ArchiveRead),
        Ok(bytes) => match opened(bytes) {
            None => OutcomeView::Failed(FileRequestError::ArchiveRead),
            Some(entries) => archive_outcome(entries, remainder, uri_path, query),
        },
    }
}

impl Outcome {
    /// The HTTP status of the outcome.
    pub fn status(&self) -> (r: u16)
        ensures
            r == match self {
                Outcome::Serve { .. } => 200,
                Outcome::Redirect { .. } => 308,
                Outcome::Failed(e) => e.status_spec(),
            },
    {
        match self {
            Outcome::Serve { .. } => 200,
            Outcome::Redirect { .. } => 308,
            Outcome::Failed(e) => e.status(),
        }
    }
}

/// Why a container could not be had.
#[derive(Debug, Clone, Copy, PartialEq, Eq, Structural)]
pub enum ContainerFault {
    /// No file of that name exists.
    NotFound,
    /// It exists but could not be read.
    Unreadable,
}

/// The outcome for a found member whose media type is known.
pub fn outcome_for(
    fallback: bool,
    trailing_slash: bool,
    body: Vec<u8>,
    content_type: String,
    uri_path: &str,
    query: Option<&str>,
) -> (r: Outcome)
    ensures
        r@ == found_outcome(fallback, trailing_slash, body@, content_type@, uri_path@, option_view(query)),
{
    match decide(fallback, trailing_slash) {
        Action::Serve => Outcome::Serve { body, content_type },
        Action::Redirect => Outcome::Redirect { location: redirect_location(uri_path, query) },
        Action::Reject => Outcome::Failed(FileRequestError::EntryNotFound),
    }
}

/// Whether a request has directory intent: it ends in a slash, or names the
/// container alone.
pub open spec fn directory_intent(remainder: Seq<char>, uri_path: Seq<char>) -> bool {
    ends_with_slash(uri_path) || remainder.len() == 0
}

/// Serves a request against an open archive. `remainder` is the path inside
/// the container, `uri_path` the whole request path. A missing member is
/// `EntryNotFound` exactly when lookup finds none, an unreadable one
/// `ArchiveRead`; a readable one is served, redirected or rejected as
/// `action_spec` says, with its content and the media type of its name and
/// content.
pub fn handle_archive(archive: &mut Archive, remainder: &str, uri_path: &str, query: Option<&str>) -> (r:
    Outcome)
    ensures
        r@ == archive_outcome(archive_entries(*old(archive)), remainder@, uri_path@, option_view(query)),
{
    let trailing = has_trailing_slash(uri_path);
    let intent = trailing || remainder.unicode_len() == 0;
    let segs = normalize_path(remainder);
    match resolve(archive, &segs, intent) {
        Err(e) => Outcome::Failed(e),
        Ok(found) => {
            let content_type = classify(found.name.as_str(), found.content.as_slice());
            outcome_for(found.fallback, trailing, found.content, content_type, uri_path, query)
        },
    }
}

/// Serves one request: `container` is the container's bytes, or why they
/// could not be had. A missing container is `ContainerNotFound`, an unreadable
/// one or one that does not open as an archive `ArchiveRead`; otherwise the
/// request goes to `handle_archive`.
pub fn handle(
    container: Result<Vec<u8>, ContainerFault>,
    remainder: &str,
    uri_path: &str,
    query: Option<&str>,
) -> (r: Outcome)
    ensures
        r@ == request_outcome(
            match container {
                Ok(b) => Ok(b@),
                Err(f) => Err(f),
            },
            remainder@,
            uri_path@,
            option_view(query),
        ),
{
    match container {
        Err(ContainerFault::NotFound) => Outcome::Failed(FileRequestError::ContainerNotFound),
        Err(ContainerFault::Unreadable) => Outcome::Failed(FileRequestError::ArchiveRead),
        Ok(bytes) => match open_archive(bytes) {
            Err(e) => Outcome::Failed(e),
            Ok(mut archive) => handle_archive(&mut archive, remainder, uri_path, query),
        },
    }
}

} // verus!
