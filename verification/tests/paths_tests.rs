use this_code::paths::{join_path, parent_path, paths_equal};
use this_code::text::{decimal_string, format_labeled, text_contains};

fn parent(p: &str) -> Option<String> {
    parent_path(p)
}

#[test]
fn parent_like_std() {
    let cases = [
        "/home/user/project", "/home/user/project/", "/a//b", "/a/b/.", "/./a", "/", "", "a",
        "a/b", ".", "./", "./a", "..", "../x", "//a", "a/./b/", "/a/..", "x//y//",
    ];
    for c in cases {
        let expected = std::path::Path::new(c).parent().map(|p| p.to_string_lossy().into_owned());
        assert_eq!(parent(c), expected, "parent of {c:?}");
    }
}

#[test]
fn paths_equal_like_std() {
    let cases = [
        "/a/b", "/a/b/", "/a//b", "/a/./b", "a/b", "./a/b", "/a/b/c", "", ".", "/", "//", "a/..",
        "a", "./a", "a/", "/home/user/.this-code/bin",
    ];
    for x in cases {
        for y in cases {
            let expected = std::path::Path::new(x) == std::path::Path::new(y);
            assert_eq!(paths_equal(x, y), expected, "{x:?} == {y:?}");
        }
    }
}

#[test]
fn join_like_std() {
    let cases = [("/home/user", ".this-code/bin"), ("/home/user/", "x"), ("", "x"), ("a", "/abs"), ("a", "")];
    for (b, r) in cases {
        let expected = std::path::Path::new(b).join(r).to_string_lossy().into_owned();
        assert_eq!(join_path(b, r), expected, "{b:?} join {r:?}");
    }
}

#[test]
fn decimal_and_padding() {
    assert_eq!(decimal_string(0), "0");
    assert_eq!(decimal_string(7), "7");
    assert_eq!(decimal_string(10), "10");
    assert_eq!(decimal_string(90210), "90210");
    assert_eq!(decimal_string(usize::MAX), usize::MAX.to_string());
    assert_eq!(format_labeled("ab", 5, "v"), format!("{:<5} {}", "ab", "v"));
    assert_eq!(format_labeled("abcdef", 3, "v"), format!("{:<3} {}", "abcdef", "v"));
}

#[test]
fn contains_text_cases() {
    assert!(text_contains("abc", ""));
    assert!(text_contains("abc", "bc"));
    assert!(!text_contains("abc", "cb"));
    assert!(!text_contains("", "a"));
}
