use dmgr::name_order::{is_text_at_most, sort_and_dedup};
use dmgr::number::{decimal_text, parse_usize, signed_decimal_text};
use dmgr::sort::stable_sort;
use dmgr::text::{
    contains_name, copy_strings, is_white_space, lines, same_text, split_whitespace, starts_with,
    trim, trim_start,
};

const TEXTS: [&str; 22] = [
    "", " ", "a", " a", "a ", " a b ", "\t a\u{a0}b\u{2003}c\u{3000}", "a\nb", "a\r\nb\r\n", "a\r",
    "a\r\r\nb", "\n", "\r\n", "\n\na", "a\n\nb\n", "FROM a", "\u{85}x\u{1680}", "é漢字 ü", "a\u{b}b",
    "x\u{200b}y", "\u{feff}z", "  \n  ",
];

#[test]
fn white_space_agrees_with_std() {
    for code in 0..=0x10ffffu32 {
        if let Some(c) = char::from_u32(code) {
            assert_eq!(is_white_space(c), c.is_whitespace(), "{code:x}");
        }
    }
}

#[test]
fn words_agree_with_std() {
    for text in TEXTS {
        let expected: Vec<&str> = text.split_whitespace().collect();
        assert_eq!(split_whitespace(text), expected, "{text:?}");
    }
}

#[test]
fn lines_agree_with_std() {
    for text in TEXTS {
        let expected: Vec<&str> = text.lines().collect();
        assert_eq!(lines(text), expected, "{text:?}");
    }
}

#[test]
fn trimming_agrees_with_std() {
    for text in TEXTS {
        assert_eq!(trim(text), text.trim(), "{text:?}");
        assert_eq!(trim_start(text), text.trim_start(), "{text:?}");
    }
}

#[test]
fn comparing_texts_agrees_with_std() {
    for left in TEXTS {
        for right in TEXTS {
            assert_eq!(same_text(left, right), left == right);
            assert_eq!(starts_with(left, right), left.starts_with(right));
            assert_eq!(is_text_at_most(left, right), left <= right, "{left:?} {right:?}");
        }
    }
    assert!(is_text_at_most("\u{ffff}", "\u{10000}"));
    assert!(!is_text_at_most("b", "a"));
}

#[test]
fn numbers_are_written_in_decimal() {
    for n in [0usize, 1, 9, 10, 99, 100, 1234567890, usize::MAX] {
        assert_eq!(decimal_text(n), n.to_string());
    }
    for n in [0i32, 5, -5, 100, -100, i32::MAX, i32::MIN] {
        assert_eq!(signed_decimal_text(n), n.to_string());
    }
}

#[test]
fn numbers_are_read_as_std_reads_them() {
    let biggest = usize::MAX.to_string();
    let beyond = format!("{biggest}0");
    let texts = [
        "", "+", "-", "0", "7", "+7", "++7", "-7", "007", " 7", "7 ", "1a", "a1", "18446744073709551616",
        "٣", "+0", &biggest, &beyond,
    ];
    for text in texts {
        assert_eq!(parse_usize(text), text.parse::<usize>().ok(), "{text:?}");
    }
    assert_eq!(parse_usize(&decimal_text(usize::MAX)), Some(usize::MAX));
}

#[test]
fn names_are_sorted_and_kept_once() {
    let names = |list: &[&str]| list.iter().map(|name| name.to_string()).collect::<Vec<String>>();
    assert_eq!(
        sort_and_dedup(names(&["b", "a", "b", "ab", "a", "B"])),
        names(&["B", "a", "ab", "b"])
    );
    assert!(sort_and_dedup(Vec::new()).is_empty());
    assert_eq!(sort_and_dedup(names(&["x"])), names(&["x"]));
}

#[test]
fn sorting_keeps_what_there_is() {
    assert_eq!(stable_sort(vec![3usize, 1, 2, 1, 0]), vec![0, 1, 1, 2, 3]);
    let empty: Vec<usize> = Vec::new();
    assert!(stable_sort(empty).is_empty());
}

#[test]
fn lists_of_names_are_searched_and_copied() {
    let names = vec!["a".to_string(), "b".to_string()];
    assert!(contains_name(&names, &"b".to_string()));
    assert!(!contains_name(&names, &"c".to_string()));
    assert_eq!(copy_strings(&names), names);
}
