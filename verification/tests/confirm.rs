use fc::confirm::{is_whitespace, trim_bounds};
use fc::is_affirmative;

#[test]
fn y_confirms() {
    assert!(is_affirmative("y"));
    assert!(is_affirmative("Y"));
}

#[test]
fn white_space_around_the_answer_is_ignored() {
    assert!(is_affirmative("y\n"));
    assert!(is_affirmative("Y\r\n"));
    assert!(is_affirmative("  y  "));
    assert!(is_affirmative("\t Y \t"));
    assert!(is_affirmative("\u{a0}y\u{3000}"));
}

#[test]
fn empty_answer_declines() {
    assert!(!is_affirmative(""));
    assert!(!is_affirmative("\n"));
    assert!(!is_affirmative("   "));
}

#[test]
fn other_answers_decline() {
    assert!(!is_affirmative("n"));
    assert!(!is_affirmative("N"));
    assert!(!is_affirmative("yes"));
    assert!(!is_affirmative("Yes"));
    assert!(!is_affirmative("yy"));
    assert!(!is_affirmative("y y"));
    assert!(!is_affirmative("y."));
    assert!(!is_affirmative("ok"));
    assert!(!is_affirmative("ｙ"));
}

#[test]
fn answer_agrees_with_std_trim() {
    let samples = ["", "y", "Y", " y", "y ", "\ty\n", "yes", "n", " ", "yY", "y\u{2003}", "\u{85}Y", "\u{200b}y", "y\0"];
    for line in samples {
        let expected = line.trim() == "y" || line.trim() == "Y";
        assert_eq!(is_affirmative(line), expected, "answer {:?}", line);
    }
}

#[test]
fn white_space_agrees_with_std() {
    for code in 0..=0x10FFFFu32 {
        if let Some(c) = char::from_u32(code) {
            assert_eq!(is_whitespace(c), c.is_whitespace(), "U+{:04X}", code);
        }
    }
}

#[test]
fn trim_bounds_agree_with_std_trim() {
    let samples = ["", " ", "a", " a", "a ", "  a b  ", "\n\ta\r\n", "\u{2028}x\u{2029}", "   "];
    for text in samples {
        let chars: Vec<char> = text.chars().collect();
        let (from, to) = trim_bounds(&chars);
        let kept: String = chars[from..to].iter().collect();
        assert_eq!(kept, text.trim(), "trimming {:?}", text);
    }
}

#[test]
fn trim_bounds_of_blank_text_are_empty() {
    let chars: Vec<char> = "   ".chars().collect();
    let (from, to) = trim_bounds(&chars);
    assert_eq!(from, to);
}
