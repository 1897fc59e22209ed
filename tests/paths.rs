use zipserve::{member_name, normalize_path, split_path};

fn norm(p: &str) -> Vec<String> {
    normalize_path(p)
}

fn strings(v: &[&str]) -> Vec<String> {
    v.iter().map(|s| s.to_string()).collect()
}

#[test]
fn split_keeps_empty_segments() {
    assert_eq!(split_path("/a//b/"), strings(&["", "a", "", "b", ""]));
    assert_eq!(split_path(""), strings(&[""]));
    assert_eq!(split_path("abc"), strings(&["abc"]));
}

#[test]
fn normalize_drops_dots_and_empty_segments() {
    assert_eq!(norm("/./x//y/"), strings(&["x", "y"]));
    assert_eq!(norm("a/b/../c"), strings(&["a", "c"]));
    assert_eq!(norm(""), strings(&[]));
    assert_eq!(norm("/"), strings(&[]));
}

#[test]
fn normalize_never_escapes_the_root() {
    assert_eq!(norm("../../../etc/passwd"), strings(&["etc", "passwd"]));
    assert_eq!(norm("a/../../.."), strings(&[]));
    for p in ["..", "../..", "x/../../y/..", "/../a/./../b"] {
        assert!(norm(p).iter().all(|s| s != ".." && s != "." && !s.is_empty()));
    }
}

#[test]
fn normalize_is_idempotent() {
    for p in ["", "/", "a/b/../c", "../../../etc/passwd", "/./x//y/", "a/./b/", "..a/b..", "a b/c"] {
        let once = norm(p);
        let again = norm(&member_name(&once));
        assert_eq!(again, once);
        let rooted = format!("/{}", member_name(&once));
        assert_eq!(norm(&rooted), once);
    }
}

#[test]
fn member_name_joins_with_slash() {
    assert_eq!(member_name(&strings(&[])), "");
    assert_eq!(member_name(&strings(&["a"])), "a");
    assert_eq!(member_name(&strings(&["a", "b", "c.txt"])), "a/b/c.txt");
}

#[test]
fn dotted_names_are_kept_verbatim() {
    assert_eq!(norm("...//.hidden/a..b"), strings(&["...", ".hidden", "a..b"]));
}
