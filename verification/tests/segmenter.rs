use chat_translator::segment::segment;

#[test]
fn single_unit_without_terminal_punctuation() {
    let units = segment("Hello there");
    assert_eq!(units.len(), 1);
    assert_eq!(units[0].text, "Hello there");
    assert!(!units[0].trailing_space);
}

#[test]
fn empty_input_yields_no_units() {
    let units = segment("");
    assert_eq!(units.len(), 0);
}

#[test]
fn splits_at_terminal_punctuation_followed_by_whitespace() {
    let units = segment("Hello. How are you?");
    assert_eq!(units.len(), 2);
    assert_eq!(units[0].text, "Hello. ");
    assert!(units[0].trailing_space);
    assert_eq!(units[1].text, "How are you?");
    assert!(!units[1].trailing_space);
}

#[test]
fn punctuation_at_end_of_input_does_not_split() {
    let units = segment("Hi.");
    assert_eq!(units.len(), 1);
    assert_eq!(units[0].text, "Hi.");
    assert!(!units[0].trailing_space);
}

#[test]
fn punctuation_without_whitespace_does_not_split() {
    let units = segment("a.b. c");
    assert_eq!(units.len(), 2);
    assert_eq!(units[0].text, "a.b. ");
    assert_eq!(units[1].text, "c");
}

#[test]
fn punctuation_run_and_whitespace_run_stay_with_the_unit() {
    let units = segment("Hi!!  there");
    assert_eq!(units.len(), 2);
    assert_eq!(units[0].text, "Hi!!  ");
    assert!(units[0].trailing_space);
    assert_eq!(units[1].text, "there");
}

#[test]
fn leading_punctuation_cannot_end_a_unit() {
    // A unit takes at least one character before its boundary, so a
    // boundary can never match at a unit's first character.
    let units = segment(". x");
    assert_eq!(units.len(), 1);
    assert_eq!(units[0].text, ". x");
}

#[test]
fn second_leading_punctuation_character_can_end_a_unit() {
    let units = segment(".. x");
    assert_eq!(units.len(), 2);
    assert_eq!(units[0].text, ".. ");
    assert_eq!(units[1].text, "x");
}

#[test]
fn all_terminal_characters_split() {
    let units = segment("a? b! c; d| e. f");
    let texts: Vec<&str> = units.iter().map(|u| u.text.as_str()).collect();
    assert_eq!(texts, vec!["a? ", "b! ", "c; ", "d| ", "e. ", "f"]);
}

#[test]
fn concatenation_rebuilds_input() {
    let inputs = [
        "Hello. How are you?",
        "a.b. c",
        "Hi!!  there",
        ". x",
        ".. x",
        "tail...",
        "one; two| three",
        "line one.\nline two. end",
        "héllo wörld. ¿qué tal?",
        "   ",
        "...",
    ];
    for input in inputs.iter() {
        let mut joined = String::new();
        for u in segment(input) {
            joined.push_str(&u.text);
        }
        assert_eq!(&joined, input);
    }
}

#[test]
fn newline_counts_as_whitespace_after_punctuation() {
    let units = segment("one.\ntwo");
    assert_eq!(units.len(), 2);
    assert_eq!(units[0].text, "one.\n");
    assert!(units[0].trailing_space);
    assert_eq!(units[1].text, "two");
}
