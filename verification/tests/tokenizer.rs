use walriust::text::{blank, chars_of, folds_to, separator, trim_bounds};
use walriust::tokenizer::tokenize;

fn words(text: &str) -> Vec<String> {
    tokenize(text)
}

#[test]
fn tokens_are_the_runs_between_separators() {
    assert_eq!(words("food boon tong kee 300.00"), vec!["food", "boon", "tong", "kee", "300.00"]);
    assert_eq!(words(" food mk 425 noted "), vec!["food", "mk", "425", "noted"]);
    assert_eq!(words("food 425  Note Note     \n  "), vec!["food", "425", "Note", "Note"]);
    assert_eq!(words("a\tb\nc\rd e"), vec!["a", "b", "c", "d", "e"]);
    assert_eq!(words("x"), vec!["x"]);
}

#[test]
fn no_tokens_in_an_empty_or_blank_text() {
    assert_eq!(words(""), Vec::<String>::new());
    assert_eq!(words(" "), Vec::<String>::new());
    assert_eq!(words(" \t \r\n\n "), Vec::<String>::new());
}

#[test]
fn tokens_keep_their_case_and_their_characters() {
    assert_eq!(words(" FooD  Caf\u{e9}  \u{4e2d}\u{6587} "), vec!["FooD", "Caf\u{e9}", "\u{4e2d}\u{6587}"]);
    assert_eq!(words("a\u{a0}b c"), vec!["a\u{a0}b", "c"]);
}

#[test]
fn separators_are_four() {
    for c in [' ', '\t', '\n', '\r'] {
        assert!(separator(c));
    }
    for c in ['a', '0', '.', '\u{a0}', '\u{0}', '_'] {
        assert!(!separator(c));
    }
}

#[test]
fn blanks_have_the_white_space_property() {
    for c in ['\t', '\n', '\u{b}', '\u{c}', '\r', ' ', '\u{85}', '\u{a0}', '\u{1680}', '\u{2000}',
        '\u{2005}', '\u{200a}', '\u{2028}', '\u{2029}', '\u{202f}', '\u{205f}', '\u{3000}']
    {
        assert!(blank(c));
        assert!(c.is_whitespace());
    }
    for c in ['a', '0', '\u{8}', '\u{e}', '\u{1f}', '\u{200b}', '\u{180e}', '\u{feff}', '\u{2060}'] {
        assert!(!blank(c));
        assert!(!c.is_whitespace());
    }
}

#[test]
fn blank_agrees_with_the_white_space_property_everywhere() {
    let mut code: u32 = 0;
    while code <= 0x10FFFF {
        if let Some(c) = char::from_u32(code) {
            assert_eq!(blank(c), c.is_whitespace());
        }
        code += 1;
    }
}

#[test]
fn folding_agrees_with_lowercase_on_the_letters() {
    let mut code: u32 = 0;
    while code <= 0x10FFFF {
        if let Some(c) = char::from_u32(code) {
            let lower: String = c.to_lowercase().collect();
            for letter in 'a'..='z' {
                assert_eq!(folds_to(c, letter), lower == letter.to_string());
            }
        }
        code += 1;
    }
}

#[test]
fn trim_bounds_cut_the_blanks_at_both_ends() {
    assert_eq!(trim_bounds(&chars_of("  ab c \n")), (2, 6));
    assert_eq!(trim_bounds(&chars_of("abc")), (0, 3));
    assert_eq!(trim_bounds(&chars_of("")), (0, 0));
    assert_eq!(trim_bounds(&chars_of("   ")), (3, 3));
    assert_eq!(trim_bounds(&chars_of("\u{a0}x")), (1, 2));
}

#[test]
fn chars_of_gives_each_character() {
    assert_eq!(chars_of("a\u{e9}\u{4e2d}"), vec!['a', '\u{e9}', '\u{4e2d}']);
    assert_eq!(chars_of(""), Vec::<char>::new());
}

#[test]
fn joined_tokens_split_into_the_same_tokens() {
    for text in ["food boon tong kee 300.00", " a  b\tc\n", "x", ""] {
        let tokens = tokenize(text);
        assert_eq!(tokenize(&tokens.join(" ")), tokens);
    }
}

#[test]
fn tokens_agree_with_splitting_at_the_separators() {
    let texts = [
        "food boon tong kee 300.00",
        "  \t food\r\nmk  425\tnoted \n",
        "one",
        "",
        " \r ",
        "a\u{a0}b \u{3000}c\u{b}d",
        "list all\tof\nit\r",
    ];
    for text in texts.iter() {
        let expected: Vec<String> = text
            .split(|c: char| c == ' ' || c == '\t' || c == '\n' || c == '\r')
            .filter(|part| !part.is_empty())
            .map(String::from)
            .collect();
        assert_eq!(tokenize(text), expected);
    }
}
