use course_assets::sanitize::{clean_name, safe_path, shorten};
use course_assets::text::{
    chars_of, copy_strings, is_whitespace, matches_at, replace_all, string_of, strip, trim,
};

fn chars(s: &str) -> Vec<char> {
    s.chars().collect()
}

#[test]
fn colon_slash_and_question_mark() {
    assert_eq!(safe_path("Module 3: Intro / Setup?"), "Module 3 - Intro - Setup");
}

#[test]
fn sanitizing_again_changes_nothing() {
    for name in [
        "Module 3: Intro / Setup?",
        "  a/b*c:d\"e?  ",
        "plain",
        "",
        " : ",
        "a :/ b",
        "x &lt; y",
        "Tom &amp; Jerry: the / movie*",
    ] {
        let once = safe_path(name);
        assert_eq!(safe_path(&once), once);
    }
    let long = "word ".repeat(80);
    let once = safe_path(&long);
    assert_eq!(safe_path(&once), once);
}

#[test]
fn character_references_are_expanded() {
    assert_eq!(safe_path("Tom &amp; Jerry"), "Tom & Jerry");
    assert_eq!(safe_path("a &lt; b"), "a < b");
    assert_eq!(safe_path("1&colon; one"), "1 - one");
    assert_eq!(clean_name("Tom &amp; Jerry"), "Tom &amp; Jerry");
}

#[test]
fn each_rule_of_cleaning() {
    assert_eq!(clean_name("a: b"), "a - b");
    assert_eq!(clean_name("a / b"), "a - b");
    assert_eq!(clean_name("a/b"), "a - b");
    assert_eq!(clean_name("a:b"), "ab");
    assert_eq!(clean_name("what?"), "what");
    assert_eq!(clean_name("say \"hi\""), "say hi");
    assert_eq!(clean_name("a*b"), "a-b");
    assert_eq!(clean_name("  padded \t\n"), "padded");
    assert_eq!(clean_name("/"), "-");
    assert_eq!(clean_name("a :/ b"), "a  -  b");
    assert_eq!(clean_name(""), "");
    assert_eq!(clean_name(" ? "), "");
}

#[test]
fn long_names_are_cut_to_197_and_an_ellipsis() {
    let exact = "a".repeat(200);
    assert_eq!(clean_name(&exact), exact);
    let long = "b".repeat(201);
    let cut = clean_name(&long);
    assert_eq!(cut.chars().count(), 200);
    assert_eq!(cut, format!("{}...", "b".repeat(197)));
    let umlauts = "ä".repeat(250);
    assert_eq!(clean_name(&umlauts), format!("{}...", "ä".repeat(197)));
    assert_eq!(shorten(chars("short")), chars("short"));
}

#[test]
fn replacing_goes_from_the_left_without_overlap() {
    assert_eq!(replace_all(&chars("aaa"), &chars("aa"), &chars("b")), chars("ba"));
    assert_eq!(replace_all(&chars("abcabc"), &chars("bc"), &chars("")), chars("aa"));
    assert_eq!(replace_all(&chars("abc"), &chars("x"), &chars("y")), chars("abc"));
    assert_eq!(replace_all(&chars(""), &chars("x"), &chars("y")), chars(""));
    assert_eq!(replace_all(&chars("ab"), &chars("abc"), &chars("y")), chars("ab"));
    for (text, pat, rep) in [("a: b: c", ": ", " - "), ("////", "//", "/"), ("x / y", " / ", " - ")] {
        assert_eq!(
            replace_all(&chars(text), &chars(pat), &chars(rep)),
            chars(&text.replace(pat, rep))
        );
    }
}

#[test]
fn matching_at_an_index() {
    assert!(matches_at(&chars("hello"), 1, &chars("ell")));
    assert!(!matches_at(&chars("hello"), 2, &chars("ell")));
    assert!(!matches_at(&chars("hello"), 4, &chars("ox")));
    assert!(!matches_at(&chars("hello"), 9, &chars("h")));
    assert!(matches_at(&chars("hello"), 5, &chars("")));
}

#[test]
fn stripping_and_trimming() {
    assert_eq!(strip(&chars("a?b\"c:d")), chars("abcd"));
    assert_eq!(trim(&chars(" \u{a0}a b\u{3000}\n")), chars("a b"));
    assert_eq!(trim(&chars("   ")), chars(""));
    for text in ["", " ", "a", " a", "a ", "\t a \u{2003}b \r\n"] {
        assert_eq!(trim(&chars(text)), chars(text.trim()));
    }
}

#[test]
fn white_space_is_what_the_standard_library_says() {
    for n in 0..=0x10FFFFu32 {
        if let Some(c) = char::from_u32(n) {
            assert_eq!(is_whitespace(c), c.is_whitespace());
        }
    }
}

#[test]
fn cleaning_is_the_chain_of_replacements() {
    for name in [
        "Module 3: Intro / Setup?",
        "a: b / c/d*e?f\"g:h",
        " : / * ",
        ":: //  ** ",
        "a :/ b",
        "trailing: ",
        "/leading",
        "ünï / côdé: ok",
        "\u{a0} padded with no-break spaces \u{a0}",
    ] {
        let expected = name
            .replace(": ", " - ")
            .replace(" / ", " - ")
            .replace('/', " - ")
            .replace('*', "-")
            .replace(['?', '"', ':'], "")
            .trim()
            .to_owned();
        assert_eq!(clean_name(name), expected);
    }
}

#[test]
fn references_are_expanded_once_in_each_pass() {
    assert_eq!(safe_path("&amp;amp;"), "&amp;");
    assert_eq!(safe_path("&amp;"), "&");
    assert_eq!(safe_path("&"), "&");
}

#[test]
fn strings_and_their_characters() {
    assert_eq!(chars_of("añ€𝄞"), vec!['a', 'ñ', '€', '𝄞']);
    assert_eq!(chars_of(""), Vec::<char>::new());
    assert_eq!(string_of(&vec!['a', 'ñ', '€', '𝄞']), "añ€𝄞");
    assert_eq!(string_of(&Vec::new()), "");
    let list = vec!["a".to_string(), "".to_string(), "bc".to_string()];
    assert_eq!(copy_strings(&list), list);
}
