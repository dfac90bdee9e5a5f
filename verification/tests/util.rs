use cargo_scan::ident::CanonicalPath;
use cargo_scan::util::{package_split, sanitize_comma, warn_ok};

#[test]
fn test_sanitize_comma() {
    assert_eq!(sanitize_comma("a,b,c"), "abc");
    assert_eq!(sanitize_comma("no commas"), "no commas");
    assert_eq!(sanitize_comma(",,"), "");
    assert_eq!(sanitize_comma(""), "");
}

#[test]
fn test_warn_ok() {
    let ok: Result<i32, String> = Ok(3);
    let err: Result<i32, String> = Err("boom".to_string());
    assert_eq!(warn_ok(ok), Some(3));
    assert_eq!(warn_ok(err), None);
}

#[test]
fn test_package_split() {
    // e.g. "libc-0.4.8-pre18" gives the name "libc" and the version
    // "0.4.8-pre18" (0.4.8 with prerelease "pre18")
    let (name, version) = package_split("libc-0.4.8-pre18").unwrap();
    assert_eq!(name, "libc");
    assert_eq!(version, "0.4.8-pre18");

    let (name, version) = package_split("serde-json-1.0.2").unwrap();
    assert_eq!(name, "serde-json");
    assert_eq!(version, "1.0.2");

    assert!(package_split("not-a-package").is_none());
    assert!(package_split("").is_none());
}

#[test]
fn test_pop_ident() {
    let mut p = CanonicalPath::new("foo::bar::baz");
    p.pop_ident();
    assert_eq!(p.as_str(), "foo::bar");
    p.pop_ident();
    assert_eq!(p.as_str(), "foo");
    p.pop_ident();
    assert_eq!(p.as_str(), "");
}
