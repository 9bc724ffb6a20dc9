use aee::confirm::{confirmation_prompt, is_affirmative, is_space_char};

#[test]
fn y_and_yes_consent() {
    assert!(is_affirmative("y"));
    assert!(is_affirmative("yes"));
}

#[test]
fn case_does_not_matter() {
    assert!(is_affirmative("Y"));
    assert!(is_affirmative("YES"));
    assert!(is_affirmative("Yes"));
    assert!(is_affirmative("yEs"));
    assert!(is_affirmative("yeS"));
}

#[test]
fn a_typed_line_ends_with_a_line_end() {
    assert!(is_affirmative("y\n"));
    assert!(is_affirmative("yes\r\n"));
    assert!(is_affirmative("  Yes \t\n"));
}

#[test]
fn empty_input_declines() {
    assert!(!is_affirmative(""));
    assert!(!is_affirmative("\n"));
    assert!(!is_affirmative("   "));
}

#[test]
fn everything_else_declines() {
    assert!(!is_affirmative("n"));
    assert!(!is_affirmative("no"));
    assert!(!is_affirmative("N\n"));
    assert!(!is_affirmative("ye"));
    assert!(!is_affirmative("yess"));
    assert!(!is_affirmative("yy"));
    assert!(!is_affirmative("y es"));
    assert!(!is_affirmative("yes please"));
    assert!(!is_affirmative("oui"));
    assert!(!is_affirmative("1"));
    assert!(!is_affirmative("true"));
    assert!(!is_affirmative("ｙ"));
}

#[test]
fn white_space_of_other_scripts_is_trimmed() {
    assert!(is_affirmative("\u{3000}yes\u{a0}"));
    assert!(is_affirmative("\u{2003}y\u{2028}"));
    assert!(!is_affirmative("\u{200b}y"));
}

#[test]
fn white_space_is_what_char_says_it_is() {
    let mut code: u32 = 0;
    while code <= 0x10FFFF {
        if let Some(c) = char::from_u32(code) {
            assert_eq!(is_space_char(c), c.is_whitespace(), "U+{code:04X}");
        }
        code += 1;
    }
}

#[test]
fn agrees_with_trimming_and_lowercasing() {
    let lines = [
        "y", "Y", "yes", "YES", "yEs", " y ", "yes\n", "\tYeS\r\n", "", "\n", "no", "n", "ye",
        "yess", "y e s", "K", "\u{212a}", "\u{3000}yes\u{a0}", "ＹＥＳ", "ｙ", "yes.", "\u{feff}y",
        "y\u{0}", "İ", "Ÿ",
    ];
    for line in lines {
        let expected = matches!(line.trim().to_lowercase().as_str(), "y" | "yes");
        assert_eq!(is_affirmative(line), expected, "{line:?}");
    }
}

#[test]
fn prompt_ends_with_the_default() {
    assert_eq!(confirmation_prompt("Proceed?"), "Proceed? (y/N): ");
    assert_eq!(confirmation_prompt(""), " (y/N): ");
}

fn by_trimming_and_lowercasing(line: &str) -> bool {
    matches!(line.trim().to_lowercase().as_str(), "y" | "yes")
}

fn every_char_in(make: fn(char) -> String) {
    let mut code: u32 = 0;
    while code <= 0x10FFFF {
        if let Some(c) = char::from_u32(code) {
            let line = make(c);
            assert_eq!(is_affirmative(&line), by_trimming_and_lowercasing(&line), "{line:?}");
        }
        code += 1;
    }
}

#[test]
fn every_single_character_is_judged_as_by_lowercasing() {
    every_char_in(|c| c.to_string());
}

#[test]
fn every_first_letter_is_judged_as_by_lowercasing() {
    every_char_in(|c| format!("{c}es"));
}

#[test]
fn every_second_letter_is_judged_as_by_lowercasing() {
    every_char_in(|c| format!("y{c}s"));
}

#[test]
fn every_third_letter_is_judged_as_by_lowercasing() {
    every_char_in(|c| format!("ye{c}"));
}

#[test]
fn every_character_around_an_answer_is_judged_as_by_trimming() {
    every_char_in(|c| format!("{c}yes{c}"));
    every_char_in(|c| format!("{c}y"));
}
