use stm_html::guard::is_unsafe;
use stm_html::text::{
    chars_of, contains_char, is_in_class, string_of, to_lower, to_lower_char, trim, trim_class,
    white_space, CharClass,
};
use stm_html::tokens::{clean, normalise, split_terms, tokenize};

fn strings(items: &[&str]) -> Vec<String> {
    items.iter().map(|s| s.to_string()).collect()
}

#[test]
fn tokenize_splits_on_everything_outside_the_allowed_set() {
    assert_eq!(tokenize("rust logger clap"), strings(&["rust", "logger", "clap"]));
    assert_eq!(tokenize("rust+actix,  C#/.NET"), strings(&["rust", "actix", "C#", ".NET"]));
    assert_eq!(tokenize("System.Text.Json"), strings(&["System.Text.Json"]));
    assert_eq!(tokenize("a\"b{c}d"), strings(&["a", "b", "c", "d"]));
}

#[test]
fn tokenize_gives_nothing_for_separators_alone() {
    assert_eq!(tokenize(""), Vec::<String>::new());
    assert_eq!(tokenize("  +  %% é "), Vec::<String>::new());
}

#[test]
fn tokenize_keeps_tokens_at_both_ends() {
    assert_eq!(tokenize("x"), strings(&["x"]));
    assert_eq!(tokenize(" x y"), strings(&["x", "y"]));
    assert_eq!(tokenize("x y "), strings(&["x", "y"]));
}

#[test]
fn normalise_lowers_and_drops_consecutive_repetitions() {
    assert_eq!(
        normalise(&strings(&["Rust", "rust", "RUST", "Clap", "rust"])),
        strings(&["rust", "clap", "rust"])
    );
    assert_eq!(normalise(&strings(&[])), Vec::<String>::new());
    assert_eq!(normalise(&strings(&["a"])), strings(&["a"]));
}

#[test]
fn clean_trims_dots_and_hyphens_in_whatever_order() {
    assert_eq!(clean(".net"), "net");
    assert_eq!(clean("-.net"), "net");
    assert_eq!(clean(".-net"), "net");
    assert_eq!(clean("a.-"), "a");
    assert_eq!(clean("a-."), "a");
    assert_eq!(clean("..system.xml.."), "system.xml");
    assert_eq!(clean("-x-"), "x");
    assert_eq!(clean(".-a-."), "a");
    assert_eq!(clean("-.a.-"), "a");
    assert_eq!(clean("-.-.a.b-c.-.-"), "a.b-c");
    assert_eq!(clean("a.b-c"), "a.b-c");
    assert_eq!(clean("_.a._"), "_.a._");
    assert_eq!(clean("#-a"), "#-a");
}

#[test]
fn clean_leaves_nothing_of_dots_and_hyphens_alone() {
    assert_eq!(clean("..."), "");
    assert_eq!(clean("---"), "");
    assert_eq!(clean(".-.-"), "");
    assert_eq!(clean("."), "");
    assert_eq!(clean(""), "");
}

#[test]
fn a_clean_term_neither_begins_nor_ends_with_a_dot_or_a_hyphen() {
    for token in ["-.net", "a.-", ".-.", "x", "-a.b-", "..--a--..", "-", "a-.-b"] {
        let term = clean(token);
        assert!(!term.starts_with(['.', '-']) && !term.ends_with(['.', '-']), "{:?}", token);
        assert_eq!(term, token.trim_matches(['.', '-']), "{:?}", token);
    }
}

#[test]
fn split_terms_does_all_of_it() {
    assert_eq!(split_terms("Rust rust .NET  C# -x-"), strings(&["rust", "net", "c#", "x"]));
    assert_eq!(split_terms("System.Text.Json"), strings(&["system.text.json"]));
    assert_eq!(split_terms("..."), strings(&[""]));
    assert_eq!(split_terms("-.net a.- -.-"), strings(&["net", "a", ""]));
}

#[test]
fn split_terms_gives_only_safe_terms() {
    for term in split_terms("a\"b \\ {c} d'e <f> é g%h ../.. x_y-z#1") {
        assert!(!is_unsafe(&term), "{:?}", term);
    }
}

#[test]
fn text_helpers_work_on_characters() {
    let chars = chars_of("héllo");
    assert_eq!(chars, vec!['h', 'é', 'l', 'l', 'o']);
    assert_eq!(string_of(&chars, 1, 4), "éll");
    assert_eq!(string_of(&chars, 2, 2), "");
    assert!(contains_char("a.b", '.'));
    assert!(!contains_char("ab", '.'));
    assert_eq!(to_lower("AbC-Z_09É"), "abc-z_09É");
    assert_eq!(to_lower_char('A'), 'a');
    assert_eq!(to_lower_char('Z'), 'z');
    assert_eq!(to_lower_char('@'), '@');
    assert_eq!(to_lower_char('['), '[');
}

#[test]
fn trimming_takes_a_class_of_characters_off_both_ends() {
    assert_eq!(trim_class("..a.b.", CharClass::Only('.')), "a.b");
    assert_eq!(trim_class("..", CharClass::Only('.')), "");
    assert_eq!(trim_class("-.a.-", CharClass::Only('.')), "-.a.-");
    assert_eq!(trim_class("xyaxy", CharClass::Either('x', 'y')), "a");
    assert_eq!(trim_class(" \t a b \n", CharClass::WhiteSpace), "a b");
    assert!(is_in_class(CharClass::Only('/'), '/') && !is_in_class(CharClass::Only('/'), '.'));
    assert!(is_in_class(CharClass::Either('.', '-'), '-'));
    assert!(!is_in_class(CharClass::Either('.', '-'), '_'));
    assert!(is_in_class(CharClass::WhiteSpace, '\u{3000}'));
    assert!(!is_in_class(CharClass::WhiteSpace, 'a'));
}

#[test]
fn white_space_is_what_the_standard_library_takes_it_for() {
    for code in 0u32..=0x10ffff {
        if let Some(c) = char::from_u32(code) {
            assert_eq!(white_space(c), c.is_whitespace(), "{:?}", c);
        }
    }
}

#[test]
fn trim_agrees_with_the_standard_one() {
    let samples = [
        "",
        " ",
        "  a  ",
        "\t\n a b \r\n",
        "\u{a0}x\u{3000}",
        "\u{2003}\u{2028} inner \u{85}space\u{1680}",
        "\u{200b}zero width is no space\u{200b}",
        "\u{feff}x",
        "no-space",
        " /rimutaka/ ",
    ];
    for sample in samples {
        assert_eq!(trim(sample), sample.trim(), "{:?}", sample);
    }
    for code in 0u32..=0x10ffff {
        if let Some(c) = char::from_u32(code) {
            let text: String = [c, 'a', ' ', 'b', c].iter().collect();
            assert_eq!(trim(&text), text.trim(), "{:?}", c);
        }
    }
}
