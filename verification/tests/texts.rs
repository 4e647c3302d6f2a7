use rust_vocab::text::{
    char_is_whitespace, contains_char, contains_whitespace, equals_chars, first_char, join_strings,
    split_str, str_eq, to_chars, trim_str,
};

fn strings(parts: &[&str]) -> Vec<String> {
    parts.iter().map(|p| (*p).to_owned()).collect()
}

const SAMPLES: [&str; 16] = [
    "",
    " ",
    "dog",
    "  dog",
    "dog  ",
    " a canine ",
    "\t\r\n",
    "\u{00a0}word\u{3000}",
    "\u{2003}",
    "a$b$c",
    "$",
    "$$",
    "a\nb\n",
    "\n\na\n\nb",
    "introduce$dog$known$a canine",
    "\u{00e9}t\u{00e9} $ \u{1f600} ",
];

#[test]
fn whitespace_is_what_the_standard_library_calls_whitespace() {
    for code in 0..=0x10ffff_u32 {
        if let Some(c) = char::from_u32(code) {
            assert_eq!(char_is_whitespace(c), c.is_whitespace(), "U+{:04X}", code);
        }
    }
}

#[test]
fn whitespace_examples() {
    for c in [' ', '\t', '\n', '\r', '\u{0b}', '\u{0c}', '\u{85}', '\u{a0}', '\u{2028}', '\u{3000}'] {
        assert!(char_is_whitespace(c));
    }
    for c in ['a', '$', '!', '0', '\u{0}', '\u{8}', '\u{e}', '\u{200b}', '\u{feff}', '\u{180e}'] {
        assert!(!char_is_whitespace(c));
    }
}

#[test]
fn to_chars_gives_the_characters() {
    assert_eq!(to_chars("dog"), vec!['d', 'o', 'g']);
    assert_eq!(to_chars(""), Vec::<char>::new());
    assert_eq!(to_chars("\u{00e9}t\u{00e9}"), vec!['\u{00e9}', 't', '\u{00e9}']);
}

#[test]
fn str_eq_compares_exactly() {
    for a in SAMPLES {
        for b in SAMPLES {
            assert_eq!(str_eq(a, b), a == b);
            assert_eq!(equals_chars(a, &b.chars().collect()), a == b);
        }
    }
    assert!(!str_eq("dog", "do"));
    assert!(!str_eq("do", "dog"));
    assert!(!str_eq("dog", "dot"));
    assert!(!str_eq("dog", "Dog"));
}

#[test]
fn contains_char_finds_a_character() {
    assert!(contains_char("a$b", '$'));
    assert!(contains_char("$", '$'));
    assert!(contains_char("ab$", '$'));
    assert!(!contains_char("ab", '$'));
    assert!(!contains_char("", '$'));
    for s in SAMPLES {
        assert_eq!(contains_char(s, '\n'), s.contains('\n'));
    }
}

#[test]
fn contains_whitespace_finds_white_space() {
    for s in SAMPLES {
        assert_eq!(contains_whitespace(s), s.chars().any(|c| c.is_whitespace()));
    }
    assert!(!contains_whitespace("dog"));
    assert!(contains_whitespace("a dog"));
    assert!(contains_whitespace("a\tdog"));
}

#[test]
fn first_char_of_a_text() {
    assert_eq!(first_char("!done"), Some('!'));
    assert_eq!(first_char("\u{00e9}t\u{00e9}"), Some('\u{00e9}'));
    assert_eq!(first_char(""), None);
}

#[test]
fn trim_takes_white_space_from_both_ends() {
    assert_eq!(trim_str("  dog  "), "dog");
    assert_eq!(trim_str("dog"), "dog");
    assert_eq!(trim_str(" a canine \n"), "a canine");
    assert_eq!(trim_str("\t\r\n"), "");
    assert_eq!(trim_str(""), "");
    assert_eq!(trim_str(" x"), "x");
    assert_eq!(trim_str("x "), "x");
    for s in SAMPLES {
        assert_eq!(trim_str(s), s.trim());
    }
}

#[test]
fn split_gives_the_fields_between_separators() {
    assert_eq!(split_str("a$b$c", '$'), strings(&["a", "b", "c"]));
    assert_eq!(split_str("abc", '$'), strings(&["abc"]));
    assert_eq!(split_str("", '$'), strings(&[""]));
    assert_eq!(split_str("$", '$'), strings(&["", ""]));
    assert_eq!(split_str("$a$", '$'), strings(&["", "a", ""]));
    assert_eq!(split_str("a$$b", '$'), strings(&["a", "", "b"]));
    for s in SAMPLES {
        for sep in ['$', '\n', ' '] {
            let want: Vec<String> = s.split(sep).map(|p| p.to_owned()).collect();
            assert_eq!(split_str(s, sep), want);
        }
    }
}

#[test]
fn join_puts_the_separator_between_parts() {
    assert_eq!(join_strings(&strings(&["a", "b", "c"]), '$'), "a$b$c");
    assert_eq!(join_strings(&strings(&["a"]), '$'), "a");
    assert_eq!(join_strings(&strings(&[]), '$'), "");
    assert_eq!(join_strings(&strings(&["", ""]), '$'), "$");
    assert_eq!(join_strings(&strings(&["", "a", ""]), '\n'), "\na\n");
}

#[test]
fn split_undoes_join() {
    let parts = strings(&["introduce", "dog", "known", "a canine"]);
    assert_eq!(split_str(&join_strings(&parts, '$'), '$'), parts);
    for s in SAMPLES {
        for sep in ['$', '\n'] {
            assert_eq!(join_strings(&split_str(s, sep), sep), s);
        }
    }
}
