//! Token coercion: accepted tokens in any letter case with any surrounding
//! whitespace coerce to true; everything else, `"T"` included, to false.

use lift_cli::boolean::string_to_bool;

#[test]
fn accepts_plain_tokens() {
    assert!(string_to_bool("1"));
    assert!(string_to_bool("true"));
    assert!(string_to_bool("yes"));
}

#[test]
fn accepts_any_letter_case() {
    assert!(string_to_bool("TRUE"));
    assert!(string_to_bool("True"));
    assert!(string_to_bool("tRuE"));
    assert!(string_to_bool("YES"));
    assert!(string_to_bool("Yes"));
    assert!(string_to_bool("yEs"));
}

#[test]
fn accepts_surrounding_whitespace() {
    assert!(string_to_bool(" 1 "));
    assert!(string_to_bool("\ttrue\n"));
    assert!(string_to_bool("  Yes\r\n"));
    assert!(string_to_bool("\u{00A0}yes\u{2003}"));
}

#[test]
fn rejects_the_bare_t_token() {
    assert!(!string_to_bool("T"));
    assert!(!string_to_bool("t"));
    assert!(!string_to_bool(" T "));
}

#[test]
fn rejects_everything_else() {
    assert!(!string_to_bool(""));
    assert!(!string_to_bool(" "));
    assert!(!string_to_bool("no"));
    assert!(!string_to_bool("false"));
    assert!(!string_to_bool("0"));
    assert!(!string_to_bool("2"));
    assert!(!string_to_bool("truth"));
    assert!(!string_to_bool("yes!"));
    assert!(!string_to_bool("true true"));
    assert!(!string_to_bool("tru e"));
}
