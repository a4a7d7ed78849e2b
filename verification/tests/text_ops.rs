use librarian::text::{
    char_is_whitespace, chars_of, file_name_of, rest_after_tabs, string_from, strip_prefix, trim,
    trim_start_matches,
};
use std::path::Path;

const SAMPLES: &[&str] = &[
    "",
    " ",
    "\t\n",
    "abc",
    "  abc  ",
    "\u{3000}Günter Brauneis\u{a0}",
    "\u{2028}x\u{85}",
    "a b",
    "/authors/OL1A",
    "/authors//authors/OL1A",
    "/authors/",
    "/author",
    "//authors/x",
    "/books//books/",
    "黑风雷 ",
];

#[test]
fn whitespace_matches_std_on_every_char() {
    for n in 0u32..=0x10FFFF {
        if let Some(c) = char::from_u32(n) {
            assert_eq!(char_is_whitespace(c), c.is_whitespace(), "char {:#x}", n);
        }
    }
}

#[test]
fn trim_matches_std() {
    for s in SAMPLES {
        assert_eq!(trim(s), s.trim(), "input {:?}", s);
    }
    assert_eq!(trim("  Günter Brauneis \n"), "Günter Brauneis");
}

#[test]
fn trim_is_idempotent() {
    for s in SAMPLES {
        let once = trim(s);
        assert_eq!(trim(&once), once);
    }
}

#[test]
fn trim_start_matches_matches_std() {
    for pat in ["/authors/", "/books/", "/", "ab", ""] {
        for s in SAMPLES {
            assert_eq!(trim_start_matches(s, pat), s.trim_start_matches(pat), "{:?} {:?}", s, pat);
        }
    }
    assert_eq!(trim_start_matches("/authors//authors/OL1A", "/authors/"), "OL1A");
    assert_eq!(trim_start_matches("/authors/OL1A", "/works/"), "/authors/OL1A");
}

#[test]
fn trim_start_matches_is_idempotent() {
    for s in SAMPLES {
        let once = trim_start_matches(s, "/authors/");
        assert_eq!(trim_start_matches(&once, "/authors/"), once);
        assert!(!once.starts_with("/authors/"));
    }
}

#[test]
fn strip_prefix_matches_std() {
    for pat in ["/authors/", "/books/", "/", ""] {
        for s in SAMPLES {
            assert_eq!(
                strip_prefix(s, pat),
                s.strip_prefix(pat).map(|t| t.to_string()),
                "{:?} {:?}",
                s,
                pat
            );
        }
    }
    assert_eq!(strip_prefix("/books//books/X", "/books/"), Some("/books/X".to_string()));
    assert_eq!(strip_prefix("books/X", "/books/"), None);
}

#[test]
fn rest_after_tabs_matches_splitn() {
    let lines = [
        "",
        "a",
        "a\tb",
        "a\tb\tc\td",
        "a\tb\tc\td\t",
        "/type/author\t/authors/OL1A\t1\t2008-04-01\t{\"key\": \"/authors/OL1A\"}",
        "a\tb\tc\td\te\tf\tg",
        "\t\t\t\t",
    ];
    for line in lines {
        for n in 0..6usize {
            let expected = line.splitn(n + 1, '\t').nth(n).map(|t| t.to_string());
            assert_eq!(rest_after_tabs(line, n), expected, "{:?} {}", line, n);
        }
    }
    assert_eq!(rest_after_tabs("a\tb\tc\td\te\tf", 4), Some("e\tf".to_string()));
    assert_eq!(rest_after_tabs("a\tb\tc\td", 4), None);
}

#[test]
fn file_name_matches_std_path() {
    let paths = [
        "", "/", "//", ".", "..", "./", "../", "a", "a/", "a//", "a/.", "a/./", "a/..", "a/../",
        "/a/b.mp3", "./x", "x/./.", "...", ".../", "a/.b", "/media/Books/00 Opening Credits.mp3",
        "./.", "/.", "/..", "a/b/./c/.", " a ",
    ];
    for p in paths {
        let expected = Path::new(p)
            .file_name()
            .unwrap_or_default()
            .to_string_lossy()
            .into_owned();
        assert_eq!(file_name_of(p), expected, "path {:?}", p);
    }
}

#[test]
fn chars_round_trip() {
    for s in SAMPLES {
        let cs = chars_of(s);
        assert_eq!(cs, s.chars().collect::<Vec<char>>());
        assert_eq!(string_from(&cs), *s);
    }
}

#[test]
fn stripping_once_before_trimming_changes_nothing() {
    for s in SAMPLES {
        let once = strip_prefix(s, "/authors/").unwrap_or_else(|| s.to_string());
        assert_eq!(trim_start_matches(&once, "/authors/"), trim_start_matches(s, "/authors/"));
    }
}

#[test]
fn rest_after_tabs_is_a_suffix() {
    let line = "x\ty\tz\tw\t{\"k\":1}\textra";
    let rest = rest_after_tabs(line, 4).unwrap();
    assert!(line.ends_with(&rest));
    assert_eq!(rest, "{\"k\":1}\textra");
}

#[test]
fn file_names_hold_no_separator() {
    for p in ["/a/b/c.mp3", "a//", "/x/./", "y"] {
        let name = file_name_of(p);
        assert!(!name.is_empty());
        assert!(!name.contains('/'));
    }
    assert_eq!(file_name_of("/x/./"), "x");
}
