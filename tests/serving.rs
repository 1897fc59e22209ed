use std::io::{Cursor, Write};

use zipserve::{
    classify, decide, handle, open_archive, resolve, select_media_type, Action, ContainerFault,
    FileRequestError, Outcome,
};

fn make_zip(entries: &[(&str, &[u8])]) -> Vec<u8> {
    let mut w = zip::ZipWriter::new(Cursor::new(Vec::new()));
    for (name, body) in entries {
        w.start_file(name.to_string(), zip::write::SimpleFileOptions::default()).unwrap();
        w.write_all(body).unwrap();
    }
    w.finish().unwrap().into_inner()
}

fn make_zip_stored(entries: &[(&str, &[u8])]) -> Vec<u8> {
    let mut w = zip::ZipWriter::new(Cursor::new(Vec::new()));
    let opts = zip::write::SimpleFileOptions::default()
        .compression_method(zip::CompressionMethod::Stored);
    for (name, body) in entries {
        w.start_file(name.to_string(), opts).unwrap();
        w.write_all(body).unwrap();
    }
    w.finish().unwrap().into_inner()
}

fn segs(v: &[&str]) -> Vec<String> {
    v.iter().map(|s| s.to_string()).collect()
}

const PNG: &[u8] = &[
    0x89, 0x50, 0x4E, 0x47, 0x0D, 0x0A, 0x1A, 0x0A, 0x00, 0x00, 0x00, 0x0D, 0x49, 0x48, 0x44, 0x52,
    0x00, 0x00, 0x00, 0x01, 0x00, 0x00, 0x00, 0x01, 0x08, 0x06, 0x00, 0x00, 0x00, 0x1F, 0x15, 0xC4,
    0x89,
];

#[test]
fn exact_member_wins_without_directory_intent() {
    let bytes = make_zip(&[("dir", b"plain"), ("dir/index.html", b"<html>index</html>")]);
    let mut a = open_archive(bytes).unwrap();
    let r = resolve(&mut a, &segs(&["dir"]), false).unwrap();
    assert_eq!(r.name, "dir");
    assert_eq!(r.content, b"plain".to_vec());
    assert!(!r.fallback);
}

#[test]
fn directory_intent_goes_to_index() {
    let bytes = make_zip(&[("dir", b"plain"), ("dir/index.html", b"<html>index</html>")]);
    let mut a = open_archive(bytes).unwrap();
    let r = resolve(&mut a, &segs(&["dir"]), true).unwrap();
    assert_eq!(r.name, "dir/index.html");
    assert_eq!(r.content, b"<html>index</html>".to_vec());
    assert!(r.fallback);
}

#[test]
fn root_index_is_found() {
    let bytes = make_zip(&[("index.html", b"<html>root</html>")]);
    let mut a = open_archive(bytes).unwrap();
    let r = resolve(&mut a, &segs(&[]), true).unwrap();
    assert_eq!(r.name, "index.html");
    assert!(r.fallback);
}

#[test]
fn missing_member_is_entry_not_found() {
    let bytes = make_zip(&[("a.txt", b"a")]);
    let mut a = open_archive(bytes).unwrap();
    assert_eq!(resolve(&mut a, &segs(&["b.txt"]), false).err(), Some(FileRequestError::EntryNotFound));
    assert_eq!(resolve(&mut a, &segs(&["a.txt"]), true).err(), Some(FileRequestError::EntryNotFound));
}

#[test]
fn corrupt_container_is_a_read_fault() {
    let r = open_archive(b"this is not a zip archive".to_vec());
    assert_eq!(r.err(), Some(FileRequestError::ArchiveRead));
    let o = handle(Ok(b"garbage".to_vec()), "a", "/c/a", None);
    assert_eq!(o.status(), 500);
}

#[test]
fn directory_without_slash_redirects() {
    let bytes = make_zip(&[("dir/index.html", b"<html>index</html>")]);
    match handle(Ok(bytes.clone()), "dir", "/archive/dir", None) {
        Outcome::Redirect { location } => assert_eq!(location, "/archive/dir/"),
        _ => panic!("expected a redirect"),
    }
    match handle(Ok(bytes), "dir", "/archive/dir", Some("x=1&y")) {
        Outcome::Redirect { location } => assert_eq!(location, "/archive/dir/?x=1&y"),
        _ => panic!("expected a redirect"),
    }
}

#[test]
fn directory_with_slash_serves_index() {
    let bytes = make_zip(&[("dir/index.html", b"<html>index</html>")]);
    let o = handle(Ok(bytes), "dir/", "/archive/dir/", None);
    assert_eq!(o.status(), 200);
    match o {
        Outcome::Serve { body, content_type } => {
            assert_eq!(body, b"<html>index</html>".to_vec());
            assert_eq!(content_type, "text/html");
        }
        _ => panic!("expected the index"),
    }
}

#[test]
fn directory_with_slash_skips_same_named_member() {
    let bytes = make_zip(&[("dir", b"plain"), ("dir/index.html", b"<html>index</html>")]);
    match handle(Ok(bytes), "dir/", "/archive/dir/", None) {
        Outcome::Serve { body, .. } => assert_eq!(body, b"<html>index</html>".to_vec()),
        _ => panic!("expected the index"),
    }
}

#[test]
fn trailing_slash_on_file_is_not_found() {
    let bytes = make_zip(&[("readme.txt", b"hello")]);
    let o = handle(Ok(bytes), "readme.txt/", "/archive/readme.txt/", None);
    assert_eq!(o.status(), 404);
}

#[test]
fn unreadable_member_is_a_read_fault() {
    // A stored member whose checksum does not match its content.
    let mut bytes = make_zip_stored(&[("a.txt", b"hello world")]);
    let at = bytes.windows(11).position(|w| w == b"hello world").unwrap();
    bytes[at] = b'j';
    let o = handle(Ok(bytes), "a.txt", "/archive/a.txt", None);
    assert!(matches!(o, Outcome::Failed(FileRequestError::ArchiveRead)));
    assert_eq!(o.status(), 500);
}

#[test]
fn plain_file_is_served() {
    let bytes = make_zip(&[("docs/readme.txt", b"hello")]);
    match handle(Ok(bytes), "docs/./x/../readme.txt", "/archive/docs/./x/../readme.txt", None) {
        Outcome::Serve { body, content_type } => {
            assert_eq!(body, b"hello".to_vec());
            assert_eq!(content_type, "text/plain");
        }
        _ => panic!("expected the file"),
    }
}

#[test]
fn container_root_redirects_then_serves() {
    let bytes = make_zip(&[("index.html", b"<html>root</html>")]);
    match handle(Ok(bytes.clone()), "", "/archive", None) {
        Outcome::Redirect { location } => assert_eq!(location, "/archive/"),
        _ => panic!("expected a redirect"),
    }
    assert_eq!(handle(Ok(bytes), "", "/archive/", None).status(), 200);
}

#[test]
fn traversal_stays_inside_the_archive() {
    let bytes = make_zip(&[("etc/passwd", b"inside")]);
    match handle(Ok(bytes), "../../../etc/passwd", "/archive/../../../etc/passwd", None) {
        Outcome::Serve { body, .. } => assert_eq!(body, b"inside".to_vec()),
        _ => panic!("expected the member"),
    }
}

#[test]
fn missing_container_is_not_found() {
    let o = handle(Err(ContainerFault::NotFound), "anything", "/doesnotexist/anything", None);
    assert!(matches!(o, Outcome::Failed(FileRequestError::ContainerNotFound)));
    assert_eq!(o.status(), 404);
}

#[test]
fn unreadable_container_is_internal_error() {
    let o = handle(Err(ContainerFault::Unreadable), "anything", "/locked/anything", None);
    assert_eq!(o.status(), 500);
}

#[test]
fn missing_member_is_not_found() {
    let bytes = make_zip(&[("a.txt", b"a")]);
    let o = handle(Ok(bytes), "b.txt", "/archive/b.txt", None);
    assert!(matches!(o, Outcome::Failed(FileRequestError::EntryNotFound)));
    assert_eq!(o.status(), 404);
}

#[test]
fn json_extension_wins_over_sniffing() {
    assert_eq!(classify("a.json", b"{\"a\":1}"), "application/json");
    assert_eq!(classify("data/a.json", PNG), "application/json");
}

#[test]
fn png_without_extension_is_sniffed() {
    let t = classify("picture", PNG);
    assert!(t.starts_with("image/"), "{}", t);
}

#[test]
fn unknown_content_is_octet_stream() {
    assert_eq!(classify("blob", &[0u8, 1, 2, 3, 255, 254]), "application/octet-stream");
}

#[test]
fn select_prefers_extension() {
    assert_eq!(
        select_media_type(Some("text/css".to_string()), Some("image/png".to_string())),
        "text/css"
    );
    assert_eq!(select_media_type(None, Some("image/png".to_string())), "image/png");
    assert_eq!(select_media_type(None, None), "application/octet-stream");
}

#[test]
fn decisions() {
    assert_eq!(decide(false, false), Action::Serve);
    assert_eq!(decide(false, true), Action::Reject);
    assert_eq!(decide(true, false), Action::Redirect);
    assert_eq!(decide(true, true), Action::Serve);
}

#[test]
fn statuses() {
    assert_eq!(FileRequestError::ContainerNotFound.status(), 404);
    assert_eq!(FileRequestError::EntryNotFound.status(), 404);
    assert_eq!(FileRequestError::ArchiveRead.status(), 500);
    let r = Outcome::Redirect { location: "/a/".to_string() };
    assert_eq!(r.status(), 308);
}
