use filewall::paths::FilePath;
use filewall::text::{decimal, parse_i32, parse_unsigned, signed_decimal, to_chars, trim};

fn p(s: &str) -> FilePath {
    FilePath::new(s)
}

#[test]
fn spelling_does_not_matter() {
    assert_eq!(p("/a//b/./"), p("/a/b"));
    assert_ne!(p("/a/b"), p("a/b"));
    assert_ne!(p("./a"), p("a"));
    assert_eq!(p("a/./b"), p("a/b"));
    assert_ne!(p("/a/../b"), p("/b"));
}

#[test]
fn whole_components_count() {
    assert!(p("/a/b/c").starts_with(&p("/a/b")));
    assert!(p("/a/b").starts_with(&p("/a/b/")));
    assert!(!p("/a/bc").starts_with(&p("/a/b")));
    assert!(!p("/a").starts_with(&p("/a/b")));
    assert!(p("/a").starts_with(&p("/")));
    assert!(p("a").starts_with(&p("")));
}

#[test]
fn joining_adds_one_component() {
    assert_eq!(p("/a").join(&p("b")).display(), "/a/b");
    assert_eq!(p("/a/").join(&p("b")).display(), "/a/b");
    assert_eq!(p("/a").join(&p("/b")).display(), "/b");
    assert_eq!(p("").join(&p("b")).display(), "b");
    assert_eq!(p("/a").join(&p("")).display(), "/a/");
}

#[test]
fn parents_and_names() {
    let parent = |s: &str| p(s).parent().map(|d| d.display());
    assert_eq!(parent("/a/b"), Some("/a".to_string()));
    assert_eq!(parent("/a/b/"), Some("/a".to_string()));
    assert_eq!(parent("/a"), Some("/".to_string()));
    assert_eq!(parent("/"), None);
    assert_eq!(parent("a"), Some(String::new()));
    assert_eq!(parent(""), None);
    assert_eq!(parent("/a/.."), Some("/a".to_string()));
    let name = |s: &str| p(s).file_name().map(|d| d.display());
    assert_eq!(name("/a/b/"), Some("b".to_string()));
    assert_eq!(name("/a/.."), None);
    assert_eq!(name("/"), None);
    assert_eq!(name("a/."), Some("a".to_string()));
}

#[test]
fn order_goes_by_components() {
    assert!(p("/a/z").precedes(&p("/a-b")));
    assert!(p("/a").precedes(&p("/a/b")));
    assert!(!p("/a").precedes(&p("/a/")));
    assert!(p("/z").precedes(&p("a")));
    assert!(p("..").precedes(&p("!")));
    assert!(p(".").precedes(&p("..")));
}

#[test]
fn order_agrees_with_the_standard_library() {
    let all = [
        "", "/", ".", "..", "a", "/a", "/a/b", "/a-b", "/a//b", "./a", "a/..", "a/b", "/..", "!", "/!",
    ];
    for x in all {
        for y in all {
            let (sx, sy) = (std::path::Path::new(x), std::path::Path::new(y));
            assert_eq!(p(x).precedes(&p(y)), sx < sy, "{x} {y}");
            assert_eq!(p(x) == p(y), sx == sy, "{x} {y}");
            assert_eq!(p(x).starts_with(&p(y)), sx.starts_with(sy), "{x} {y}");
            assert_eq!(p(x).join(&p(y)).display(), sx.join(sy).display().to_string());
        }
        let sx = std::path::Path::new(x);
        assert_eq!(
            p(x).parent().map(|d| d.display()),
            sx.parent().map(|d| d.display().to_string()),
            "{x}"
        );
        assert_eq!(
            p(x).file_name().map(|d| d.display()),
            sx.file_name().map(|d| d.to_string_lossy().into_owned()),
            "{x}"
        );
    }
}

#[test]
fn numbers_are_written_and_read() {
    assert_eq!(decimal(0), "0");
    assert_eq!(decimal(18446744073709551615), "18446744073709551615");
    assert_eq!(signed_decimal(-2147483648), "-2147483648");
    assert_eq!(parse_i32(&to_chars("-0")), Some(0));
    assert_eq!(parse_unsigned(&to_chars("007"), 10), Some(7));
    assert_eq!(parse_unsigned(&to_chars("11"), 10), None);
    assert_eq!(parse_unsigned(&to_chars("-1"), 10), None);
    assert_eq!(parse_unsigned(&to_chars("99999999999999999999999"), u64::MAX), None);
}

#[test]
fn whitespace_is_trimmed_at_both_ends() {
    let t = |s: &str| trim(s).iter().collect::<String>();
    assert_eq!(t(" a b\t\n"), "a b");
    assert_eq!(t("\u{3000}\u{2003}x\u{85}"), "x");
    assert_eq!(t(" \n"), "");
}
