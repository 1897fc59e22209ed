use vstd::prelude::*;
use crate::error::FileRequestError;
use crate::path::{join_segments, views};

verus! {

#[verifier::external_type_specification]
#[verifier::external_body]
#[verifier::reject_recursive_types(T)]
pub struct ExCursor<T>(std::io::Cursor<T>);

#[verifier::external_type_specification]
#[verifier::external_body]
#[verifier::reject_recursive_types(R)]
pub struct ExZipArchive<R>(zip::ZipArchive<R>);

/// An open zip archive over its bytes in memory.
pub type Archive = zip::ZipArchive<std::io::Cursor<Vec<u8>>>;

/// A member table: each name that a lookup finds, with the decompressed
/// content that reading it to the end yields, or `None` where that read or
/// the lookup after the name was found faults.
pub type Entries = Map<Seq<char>, Option<Seq<u8>>>;

/// The members of an open archive.
pub uninterp spec fn archive_entries(a: zip::ZipArchive<std::io::Cursor<Vec<u8>>>) -> Map<
    Seq<char>,
    Option<Seq<u8>>,
>;

/// The member table of a container's bytes, or `None` where they do not open
/// as an archive.
pub uninterp spec fn opened(bytes: Seq<u8>) -> Option<Map<Seq<char>, Option<Seq<u8>>>>;

/// The outcome of probing one member name.
pub enum Probe {
    Found(Vec<u8>),
    Missing,
    Fault,
}

/// Relies on zip::ZipArchive::new: reads the central directory of the bytes,
/// which alone decide whether they open and what members they hold.
#[verifier::external_body]
fn open_zip(bytes: Vec<u8>) -> (r: Option<Archive>)
    ensures
        r is Some == opened(bytes@) is Some,
        r is Some ==> archive_entries(r->Some_0) == opened(bytes@)->Some_0,
{
    zip::ZipArchive::new(std::io::Cursor::new(bytes)).ok()
}

/// Relies on zip::ZipArchive::by_name and on reading the member it yields to
/// the end: `FileNotFound` comes exactly when no member has that name, any
/// other fault only after the name was found; the member table is not changed.
#[verifier::external_body]
fn probe_member(a: &mut Archive, name: &str) -> (r: Probe)
    ensures
        archive_entries(*final(a)) == archive_entries(*old(a)),
        match r {
            Probe::Found(v) => archive_entries(*old(a)).contains_key(name@) && archive_entries(
                *old(a),
            )[name@] == Some(v@),
            Probe::Missing => !archive_entries(*old(a)).contains_key(name@),
            Probe::Fault => archive_entries(*old(a)).contains_key(name@) && archive_entries(
                *old(a),
            )[name@] is None,
        },
{
    match a.by_name(name) {
        Ok(mut member) => {
            let mut content = Vec::new();
            match std::io::Read::read_to_end(&mut member, &mut content) {
                Ok(_) => Probe::Found(content),
                Err(_) => Probe::Fault,
            }
        },
        Err(zip::result::ZipError::FileNotFound) => Probe::Missing,
        Err(_) => Probe::Fault,
    }
}

/// Opens a container from its bytes; a container that cannot be read as an
/// archive is an `ArchiveRead` fault.
pub fn open_archive(bytes: Vec<u8>) -> (r: Result<Archive, FileRequestError>)
    ensures
        match opened(bytes@) {
            Some(entries) => r is Ok && archive_entries(r->Ok_0) == entries,
            None => r == Err::<Archive, FileRequestError>(FileRequestError::ArchiveRead),
        },
{
    match open_zip(bytes) {
        Some(a) => Ok(a),
        None => Err(FileRequestError::ArchiveRead),
    }
}

/// The index document probed under a directory.
pub open spec fn index_name() -> Seq<char> {
    seq!['i', 'n', 'd', 'e', 'x', '.', 'h', 't', 'm', 'l']
}

/// The member name probed for a canonical path: the path itself, or its
/// index document.
pub open spec fn candidate(segs: Seq<Seq<char>>, fallback: bool) -> Seq<char> {
    if fallback {
        join_segments(segs.push(index_name()))
    } else {
        join_segments(segs)
    }
}

/// Which member a lookup settles on, and whether it is the index fallback:
/// the direct member when there is no directory intent and it exists,
/// otherwise the index document when it exists, otherwise none.
pub open spec fn resolution(
    entries: Entries,
    segs: Seq<Seq<char>>,
    directory_intent: bool,
) -> Option<bool> {
    if !directory_intent && entries.contains_key(candidate(segs, false)) {
        Some(false)
    } else if entries.contains_key(candidate(segs, true)) {
        Some(true)
    } else {
        None
    }
}

/// Without directory intent an existing direct member always wins over the
/// index document, whether or not that exists too.
pub proof fn law_exact_member_wins(entries: Entries, segs: Seq<Seq<char>>)
    requires
        entries.contains_key(candidate(segs, false)),
    ensures
        resolution(entries, segs, false) == Some(false),
{
}

/// With directory intent the direct member is never chosen: the index
/// document is, when it exists.
pub proof fn law_directory_intent_uses_index(
    entries: Entries,
    segs: Seq<Seq<char>>,
)
    ensures
        resolution(entries, segs, true) == (if entries.contains_key(candidate(segs, true)) {
            Some(true)
        } else {
            None
        }),
{
}

/// A member found by `resolve`.
pub struct Resolved {
    /// The exact member name.
    pub name: String,
    /// Its decompressed content.
    pub content: Vec<u8>,
    /// Whether it was found as the index document of a directory.
    pub fallback: bool,
}

/// Finds and reads the member for a canonical path. With directory intent the direct
/// member is never probed; otherwise it is probed first and wins when it
/// exists. Failing that, the index document under the path is probed. The
/// chosen member is returned when it reads without fault; a fault other than
/// a missing member is an `ArchiveRead` fault, never a missing entry.
pub fn resolve(archive: &mut Archive, segs: &Vec<String>, directory_intent: bool) -> (r: Result<
    Resolved,
    FileRequestError,
>)
    ensures
        archive_entries(*final(archive)) == archive_entries(*old(archive)),
        match resolution(archive_entries(*old(archive)), views(segs@), directory_intent) {
            None => r == Err::<Resolved, FileRequestError>(FileRequestError::EntryNotFound),
            Some(fallback) => match archive_entries(*old(archive))[candidate(views(segs@), fallback)] {
                Some(content) => {
                    &&& r is Ok
                    &&& r->Ok_0.fallback == fallback
                    &&& r->Ok_0.name@ == candidate(views(segs@), fallback)
                    &&& r->Ok_0.content@ == content
                },
                None => r == Err::<Resolved, FileRequestError>(FileRequestError::ArchiveRead),
            },
        },
{
    if !directory_intent {
        let name = crate::path::member_name(segs);
        match probe_member(archive, name.as_str()) {
            Probe::Found(content) => {
                return Ok(Resolved { name, content, fallback: false });
            },
            Probe::Fault => {
                return Err(FileRequestError::ArchiveRead);
            },
            Probe::Missing => {},
        }
    }
    let mut name = crate::path::member_name(segs);
    if segs.len() > 0 {
        name.append("/");
    }
    name.append("index.html");
    proof {
        reveal_strlit("/");
        reveal_strlit("index.html");
        let v = views(segs@);
        assert(v.push(index_name()).drop_last() =~= v);
        if v.len() == 0 {
            assert(name@ =~= index_name());
        } else {
            assert(name@ =~= join_segments(v) + seq!['/'] + index_name());
        }
    }
    match probe_member(archive, name.as_str()) {
        Probe::Found(content) => Ok(Resolved { name, content, fallback: true }),
        Probe::Fault => Err(FileRequestError::ArchiveRead),
        Probe::Missing => Err(FileRequestError::EntryNotFound),
    }
}

} // verus!
