use prompt_pilot::text::{
    char_is_ascii_digit, char_is_ascii_letter, char_is_white_space, concat_all, contains, decimal,
    ends_with, first_texts, join, keep_non_empty, list_contains, replace_char, rsplit_once,
    same_text, split_words, starts_with, strip_prefix, strip_suffix, to_ascii_lower, trim,
};

fn owned(items: &[&str]) -> Vec<String> {
    items.iter().map(|item| item.to_string()).collect()
}

const SAMPLES: [&str; 16] = [
    "",
    " ",
    "a",
    "  a b \u{3000}\n",
    "\u{85}x\u{2028}",
    "no white space",
    "\t\u{b}\u{c}\r\n",
    "\u{200b}kept\u{200b}",
    "修复 登录 bug",
    "/a/b//c",
    "x#y#z",
    "##",
    "Straße ÄÖ",
    "İstanbul",
    "a\\b\\c",
    "emoji 🙂 end ",
];

#[test]
fn white_space_is_that_of_the_standard_library() {
    for c in char::MIN..=char::MAX {
        assert_eq!(char_is_white_space(c), c.is_whitespace(), "{:?}", c);
        assert_eq!(char_is_ascii_letter(c), c.is_ascii_alphabetic());
        assert_eq!(char_is_ascii_digit(c), c.is_ascii_digit());
    }
}

#[test]
fn texts_are_cut_like_those_of_the_standard_library() {
    for sample in SAMPLES {
        assert_eq!(trim(sample), sample.trim());
        assert_eq!(to_ascii_lower(sample), sample.to_ascii_lowercase());
        assert_eq!(split_words(sample), owned(&sample.split_whitespace().collect::<Vec<_>>()));
        assert_eq!(replace_char(sample, '\\', '/'), sample.replace('\\', "/"));
        for mark in ['#', '/', ' ', 'x'] {
            assert_eq!(rsplit_once(sample, mark), sample.rsplit_once(mark));
        }
        for part in SAMPLES {
            assert_eq!(contains(sample, part), sample.contains(part));
            assert_eq!(starts_with(sample, part), sample.starts_with(part));
            assert_eq!(ends_with(sample, part), sample.ends_with(part));
            assert_eq!(strip_prefix(sample, part), sample.strip_prefix(part));
            assert_eq!(strip_suffix(sample, part), sample.strip_suffix(part));
            assert_eq!(same_text(sample, part), sample == part);
        }
    }
}

#[test]
fn lists_of_texts() {
    let list = owned(&["a", "", "b", "a"]);
    assert_eq!(join(&list, ", "), "a, , b, a");
    assert_eq!(join(&Vec::new(), ", "), "");
    assert_eq!(concat_all(&list), "aba");
    assert_eq!(keep_non_empty(&list), owned(&["a", "b", "a"]));
    assert_eq!(first_texts(&list, 2), owned(&["a", ""]));
    assert_eq!(first_texts(&list, 9), list);
    assert!(list_contains(&list, "b"));
    assert!(!list_contains(&list, "c"));
}

#[test]
fn numbers_are_written_in_decimal() {
    for n in [0, 7, 10, 99, 100, 1234567890, usize::MAX] {
        assert_eq!(decimal(n), n.to_string());
    }
}
