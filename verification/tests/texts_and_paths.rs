use codex_approval_watcher::order::{order_texts, Order};
use codex_approval_watcher::paths::{
    extension, file_name, file_stem, join, order_paths, parent, same_path, with_extension,
};
use codex_approval_watcher::text::{
    blank, contains, decimal, join_texts, lines, list_contains, same_text, white_space,
};
use std::path::Path;

const PATHS: [&str; 50] = [
    "",
    "/",
    "//",
    ".",
    "..",
    "./",
    "/.",
    "/..",
    "a",
    "a/",
    "a//",
    "/a",
    "//a",
    "a/.",
    "a/..",
    "./a",
    "../a",
    "a/b",
    "a//b",
    "a/./b",
    "a/../b",
    "/a/b/",
    "/a/b.txt",
    "/a/b.tar.gz",
    "/a/.hidden",
    "/a/.hidden.txt",
    "/a/b.",
    "/a/..b",
    "/a/...",
    ".b",
    "b.",
    "a.b/c",
    "a-b/c",
    "/a-b",
    "/a/é.jsonl",
    "é",
    "/ ",
    "/a/b/c.jsonl/",
    "state.json",
    "/x/state",
    "..b",
    "..é",
    "/a/..b/",
    "/a/..b/.",
    "/a/..bcd//",
    "/a/..é/",
    "/a/...b",
    "/a/..b.c",
    "x.é/",
    "x.abcdef/.",
];

#[test]
fn parts_of_paths_are_those_of_the_standard_library() {
    for raw in PATHS {
        let path = Path::new(raw);
        assert_eq!(
            file_name(raw),
            path.file_name().map(|text| text.to_str().unwrap().to_string()),
            "{raw}"
        );
        assert_eq!(
            file_stem(raw),
            path.file_stem().map(|text| text.to_str().unwrap().to_string()),
            "{raw}"
        );
        assert_eq!(
            extension(raw),
            path.extension().map(|text| text.to_str().unwrap().to_string()),
            "{raw}"
        );
        assert_eq!(
            parent(raw),
            path.parent().map(|found| found.to_str().unwrap().to_string()),
            "{raw}"
        );
        for other in ["tmp", ""] {
            assert_eq!(
                with_extension(raw, other),
                path.with_extension(other).to_str().unwrap(),
                "{raw}"
            );
        }
    }
}

#[test]
fn a_name_of_two_dots_and_more_loses_its_extension() {
    assert_eq!(file_stem("/a/..b").as_deref(), Some("."));
    assert_eq!(extension("/a/..b").as_deref(), Some("b"));
    assert_eq!(with_extension("/a/..b", "tmp"), "/a/..");
    assert_eq!(with_extension("/a/..b/", "tmp"), "/a/..tmp");
}

#[test]
fn paths_are_joined_and_ordered_as_by_the_standard_library() {
    for left in PATHS {
        for right in PATHS {
            assert_eq!(
                join(left, right),
                Path::new(left).join(right).to_str().unwrap(),
                "{left} {right}"
            );
            assert_eq!(
                same_path(left, right),
                Path::new(left) == Path::new(right),
                "{left} {right}"
            );
            let expected = Path::new(left).cmp(Path::new(right));
            let found = match order_paths(left, right) {
                Order::Less => std::cmp::Ordering::Less,
                Order::Same => std::cmp::Ordering::Equal,
                Order::Greater => std::cmp::Ordering::Greater,
            };
            assert_eq!(found, expected, "{left} {right}");
        }
    }
}

#[test]
fn texts_are_ordered_by_their_bytes() {
    let words = ["", "a", "ab", "b", "B", "é", "z", "\u{ffff}", "\u{10000}", "~"];
    for left in words {
        for right in words {
            let found = match order_texts(left, right) {
                Order::Less => std::cmp::Ordering::Less,
                Order::Same => std::cmp::Ordering::Equal,
                Order::Greater => std::cmp::Ordering::Greater,
            };
            assert_eq!(found, left.cmp(right), "{left} {right}");
            assert_eq!(same_text(left, right), left == right);
        }
    }
}

#[test]
fn white_space_is_that_of_unicode() {
    for number in 0..=0x10_ffff_u32 {
        if let Some(ch) = char::from_u32(number) {
            assert_eq!(white_space(ch), ch.is_whitespace(), "{number:x}");
        }
    }
    assert!(blank(""));
    assert!(blank(" \t\r\n\u{2028}"));
    assert!(!blank(" \u{200b}"));
}

#[test]
fn texts_are_found_in_texts() {
    let words = ["", "a", "aa", "ab", "aab", "abab", "é", "aéb"];
    for haystack in words {
        for needle in words {
            assert_eq!(contains(haystack, needle), haystack.contains(needle));
        }
    }
    assert!(list_contains(&vec!["x".to_string(), "y".to_string()], "y"));
    assert!(!list_contains(&vec!["x".to_string()], "xx"));
}

#[test]
fn texts_are_split_and_joined() {
    for raw in ["", "\n", "a", "a\n", "a\r\nb", "a\r", "\r\n", "a\n\nb\n", "é\r\r\n"] {
        let expected: Vec<&str> = raw.lines().collect();
        assert_eq!(lines(raw), expected, "{raw:?}");
    }
    for items in [vec![], vec!["a"], vec!["a", "b"], vec!["", "", ""]] {
        let owned: Vec<String> = items.iter().map(|item: &&str| item.to_string()).collect();
        assert_eq!(join_texts(&owned, ", "), items.join(", "));
    }
}

#[test]
fn numbers_are_written_in_decimal() {
    for number in [0, 7, 9, 10, 99, 100, 1_000, 4_294_967_296, u64::MAX] {
        assert_eq!(decimal(number), number.to_string());
    }
}
