use gemcaps::pathutil::{
    basename, decode_binary, encode, encode_binary, expand, fs_parent, get_mimetype, join, parent,
    traversal_safe, MimeTable,
};

#[test]
fn test_join() {
    assert_eq!(join("foo", "bar"), "foo/bar");
    assert_eq!(join("foo/", "bar"), "foo/bar");
    assert_eq!(join("foo", "/bar"), "foo/bar");
    assert_eq!(join("foo/", "/bar"), "foo/bar");
}

#[test]
fn test_join_macro() {
    assert_eq!(join("foo", "bar"), "foo/bar");
    assert_eq!(join("foo", &join("bar", "cheese")), "foo/bar/cheese");
    assert_eq!(
        join("foo", &join("bar", &join("cheese", "qwerty"))),
        "foo/bar/cheese/qwerty"
    );
}

#[test]
fn test_basename() {
    assert_eq!(basename("asdf/qwerty"), "qwerty");
    assert_eq!(basename("/qwerty"), "qwerty");
    assert_eq!(basename("qwerty"), "qwerty");
    assert_eq!(basename("asdf/qwerty/"), "qwerty");
}

#[test]
fn test_parent() {
    assert_eq!(parent("/asdf/qwerty").unwrap(), "/asdf/");
    assert_eq!(parent("asdf/qwerty").unwrap(), "asdf/");
    assert_eq!(parent("asdf/").unwrap(), "");
    assert_eq!(parent("/"), None);
    assert_eq!(parent("").unwrap(), "../");
    assert_eq!(parent("../").unwrap(), "../../");
}

#[test]
fn test_encode() {
    assert_eq!(encode("foo/bar"), "foo/bar");
    assert_eq!(encode("foo cheese/bar"), "foo%20cheese/bar");
    assert_eq!(encode("foo cheese"), "foo%20cheese");
    assert_eq!(encode("/foo/bar/"), "/foo/bar/");
}

#[test]
fn test_expand() {
    assert_eq!(expand("/foo/bar").unwrap(), "/foo/bar");
    assert_eq!(expand("/foo/bar/").unwrap(), "/foo/bar/");
    assert_eq!(expand("/foo/bar/../").unwrap(), "/foo/");
    assert_eq!(expand("/foo/bar/../../").unwrap(), "/");
    assert_eq!(expand("foo/bar/../../../").unwrap(), "../");
    expand("/foo/bar/../../../").expect_err("Expected an error with too many updirs");
}

#[test]
fn test_mimetypes() {
    let table = MimeTable::new(vec![
        ("js".to_string(), "text/javascript".to_string()),
        ("gmi".to_string(), "text/gemini".to_string()),
        ("bin".to_string(), "application/octet-stream".to_string()),
    ]);
    assert_eq!(get_mimetype(&table, "foo.js"), "text/javascript");
    assert_eq!(get_mimetype(&table, "foo.gmi"), "text/gemini");
    assert_eq!(get_mimetype(&table, "foo"), "application/octet-stream");
}

#[test]
fn test_mimetypes_fallbacks() {
    let empty = MimeTable::new(vec![]);
    assert_eq!(get_mimetype(&empty, "x.weird"), "application/octet-stream");
    let table = MimeTable::new(vec![("bin".to_string(), "application/unknown".to_string())]);
    assert_eq!(get_mimetype(&table, "x.weird"), "application/unknown");
    // a leading dot alone does not make an extension
    assert_eq!(get_mimetype(&table, "dir/.hidden"), "application/unknown");
}

#[test]
fn test_traversal_safe() {
    let traversed = traversal_safe("/foo/bar/../cheese").unwrap();
    assert_eq!(traversed, "/foo/cheese");
    traversal_safe("/foo/bar/../../..").expect_err("Expected an error");
}

#[test]
fn test_traversal_safe_relative() {
    assert_eq!(traversal_safe("a/b/../c").unwrap(), "a/c");
    traversal_safe("..").expect_err("escaping the start must fail");
    assert_eq!(traversal_safe("/foo/../..").is_err(), true);
}

#[test]
fn test_encode_binary_and_decode() {
    assert_eq!(encode_binary(b"a b/c~d"), "a%20b/c~d");
    assert_eq!(decode_binary(b"a%20b"), b"a b".to_vec());
    assert_eq!(decode_binary(b"100%25"), b"100%".to_vec());
    // malformed escapes are kept literally
    assert_eq!(decode_binary(b"%zz"), b"%zz".to_vec());
    assert_eq!(decode_binary(b"%2"), b"%2".to_vec());
    // decoding undoes encoding
    assert_eq!(decode_binary(encode_binary(b"/a b/%c").as_bytes()), b"/a b/%c".to_vec());
}

#[test]
fn test_fs_parent() {
    assert_eq!(fs_parent("/a/b").unwrap(), "/a");
    assert_eq!(fs_parent("/a").unwrap(), "/");
    assert_eq!(fs_parent("a").unwrap(), "");
    assert_eq!(fs_parent("/"), None);
    assert_eq!(fs_parent(""), None);
}
