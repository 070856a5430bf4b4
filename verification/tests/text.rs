use wikilinks::text::{ascii_alphanumeric, chars_of, push_text, substitute, text_of};

#[test]
fn ascii_alphanumeric_is_letters_and_digits_of_ascii() {
    for c in ['a', 'z', 'A', 'Z', '0', '9', 'm', 'Q', '5'] {
        assert!(ascii_alphanumeric(c), "{:?}", c);
    }
    for c in ['_', '-', ' ', '.', '/', '@', '[', '`', '{', 'é', 'Ω', '٣', '\u{212A}'] {
        assert!(!ascii_alphanumeric(c), "{:?}", c);
    }
}

#[test]
fn chars_of_lists_the_characters() {
    assert_eq!(chars_of("aé日"), vec!['a', 'é', '日']);
    assert_eq!(chars_of(""), Vec::<char>::new());
}

#[test]
fn text_of_takes_a_range_of_characters() {
    let chars = chars_of("héllo wörld");
    assert_eq!(text_of(&chars, 0, 5), "héllo");
    assert_eq!(text_of(&chars, 6, 11), "wörld");
    assert_eq!(text_of(&chars, 3, 3), "");
    assert_eq!(text_of(&chars, 0, chars.len()), "héllo wörld");
}

#[test]
fn substitute_replaces_every_occurrence() {
    assert_eq!(substitute("a b  c", ' ', '_'), "a_b__c");
    assert_eq!(substitute("a/b/c.md", '/', '_'), "a_b_c.md");
    assert_eq!(substitute("none", 'x', 'y'), "none");
    assert_eq!(substitute("", 'x', 'y'), "");
}

#[test]
fn push_text_appends() {
    let mut out = String::from("ab");
    push_text(&mut out, "cd");
    push_text(&mut out, "");
    push_text(&mut out, "é");
    assert_eq!(out, "abcdé");
}
