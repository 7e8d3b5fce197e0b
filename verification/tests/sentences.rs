use speakstream::ss::sentence::{get_second_to_last_char, truncate, SentenceAccumulator};
use speakstream::text;

#[test]
fn test_truncate_shorter() {
    let s = "hello";
    assert_eq!(truncate(s, 10), "hello");
}

#[test]
fn test_truncate_longer() {
    let s = "hello world";
    assert_eq!(truncate(s, 5), "hello...");
}

#[test]
fn truncate_counts_characters() {
    assert_eq!(truncate("äöüß", 4), "äöüß");
    assert_eq!(truncate("äöüß", 3), "äöü...");
    assert_eq!(truncate("abc", 0), "...");
    assert_eq!(truncate("", 0), "");
}

#[test]
fn test_get_second_to_last_char() {
    assert_eq!(get_second_to_last_char("abc"), Some('b'));
    assert_eq!(get_second_to_last_char("a"), None);
}

#[test]
fn second_to_last_of_short_texts() {
    assert_eq!(get_second_to_last_char(""), None);
    assert_eq!(get_second_to_last_char("é!"), Some('é'));
}

#[test]
fn test_sentence_accumulator() {
    let mut acc = SentenceAccumulator::new();
    let sentences = acc.add_token("Hello there world! ");
    assert_eq!(sentences, vec!["Hello there world!"]);

    let remaining = acc.complete_sentence();
    assert!(remaining.is_none());

    acc.add_token("This is the last");
    assert!(acc.complete_sentence().is_some());
}

#[test]
fn short_sentences_wait_for_more() {
    let mut acc = SentenceAccumulator::new();
    assert!(acc.add_token("Hi. How are you? ").len() == 1);
    assert!(acc.complete_sentence().is_none());
    assert!(acc.add_token("Oh no. ").is_empty());
    assert_eq!(acc.complete_sentence(), Some("Oh no.".to_string()));
    // Fifteen bytes are not enough, sixteen are.
    assert!(acc.add_token("abcdefghijklm. ").is_empty());
    acc.clear_buffer();
    assert_eq!(acc.add_token("abcdefghijklmn. "), vec!["abcdefghijklmn."]);
}

#[test]
fn sentence_ends_are_dot_question_mark_and_exclamation_mark() {
    for end in ['.', '?', '!'] {
        let mut acc = SentenceAccumulator::new();
        let token = format!("A sentence with an end{} ", end);
        assert_eq!(acc.add_token(&token), vec![format!("A sentence with an end{}", end)]);
    }
    for end in [',', ';', ':', '…'] {
        let mut acc = SentenceAccumulator::new();
        let token = format!("A sentence with no end{} ", end);
        assert!(acc.add_token(&token).is_empty());
    }
}

#[test]
fn long_buffers_are_cut_at_white_space() {
    let mut acc = SentenceAccumulator::new();
    let word = "a".repeat(200);
    assert!(acc.add_token(&word).is_empty());
    // 200 bytes and a space are 201.
    assert_eq!(acc.add_token(" "), vec![word]);
    let word = "b".repeat(199);
    assert!(acc.add_token(&word).is_empty());
    assert!(acc.add_token(" ").is_empty());
    assert_eq!(acc.complete_sentence(), Some(word));
}

#[test]
fn very_long_buffers_are_cut_anywhere() {
    let mut acc = SentenceAccumulator::new();
    assert!(acc.add_token(&"c".repeat(300)).is_empty());
    assert_eq!(acc.add_token("c"), vec!["c".repeat(301)]);
    // Bytes are counted, not characters.
    assert!(acc.add_token(&"é".repeat(150)).is_empty());
    assert_eq!(acc.add_token("é"), vec!["é".repeat(151)]);
    assert_eq!(acc.add_token(&"d".repeat(700)).len(), 2);
    assert_eq!(acc.complete_sentence(), Some("d".repeat(98)));
}

#[test]
fn blank_pieces_are_not_spoken() {
    let mut acc = SentenceAccumulator::new();
    assert!(acc.add_token(&" ".repeat(500)).is_empty());
    assert!(acc.complete_sentence().is_none());
    let mut list = vec!["before".to_string()];
    acc.flush_buffer(&mut list);
    assert_eq!(list, vec!["before"]);
    acc.add_token("  word  ");
    assert!(!acc.should_flush());
    acc.flush_buffer(&mut list);
    assert_eq!(list, vec!["before", "word"]);
    assert!(acc.complete_sentence().is_none());
}

#[test]
fn tokens_make_no_difference() {
    let text = "The first sentence is here. The second one follows! And a third, with no end";
    let mut whole = SentenceAccumulator::new();
    let at_once = whole.add_token(text);
    let mut parts = SentenceAccumulator::new();
    let mut one_by_one = Vec::new();
    for c in text.chars() {
        one_by_one.extend(parts.add_token(&c.to_string()));
    }
    assert_eq!(at_once, one_by_one);
    assert_eq!(at_once, vec!["The first sentence is here.", "The second one follows!"]);
    assert_eq!(whole.complete_sentence(), Some("And a third, with no end".to_string()));
    assert_eq!(parts.complete_sentence(), Some("And a third, with no end".to_string()));
}

#[test]
fn no_text_is_lost() {
    let text = "Some words. ".repeat(60);
    let mut acc = SentenceAccumulator::new();
    let mut all: String = acc.add_token(&text).concat();
    all.extend(acc.complete_sentence());
    let without_blanks = |s: &str| s.chars().filter(|c| !c.is_whitespace()).collect::<String>();
    assert_eq!(without_blanks(&all), without_blanks(&text));
}

#[test]
fn white_space_is_what_unicode_says() {
    for u in 0..=0x10ffffu32 {
        if let Some(c) = char::from_u32(u) {
            assert_eq!(text::is_white_space(c), c.is_whitespace(), "{:x}", u);
        }
    }
}

#[test]
fn trim_takes_white_space_off_both_ends() {
    for s in ["", " ", "a", " a", "a ", "\u{3000}a b\t\n", "\u{200b}a"] {
        assert_eq!(text::trim(s), s.trim());
    }
}

#[test]
fn switches_are_read_leniently() {
    assert!(text::switch_is_on(Some("1")));
    assert!(text::switch_is_on(Some(" TRUE\n")));
    assert!(text::switch_is_on(Some("Yes")));
    assert!(!text::switch_is_on(Some("0")));
    assert!(!text::switch_is_on(Some("on")));
    assert!(!text::switch_is_on(Some("")));
    assert!(!text::switch_is_on(None));
}

#[test]
fn decimal_numbers() {
    for n in [0u64, 7, 10, 99, 100, 1_234_567, u64::MAX] {
        let mut out = String::from("n=");
        text::push_decimal(&mut out, n);
        assert_eq!(out, format!("n={}", n));
        let v = text::characters(&out);
        assert_eq!(text::parse_u64(&v, 2, v.len()), Some(n));
    }
    for s in ["", "+", "-1", "1 ", "18446744073709551616", "+7", "007", "x"] {
        let v = text::characters(s);
        assert_eq!(text::parse_u64(&v, 0, v.len()), s.parse::<u64>().ok(), "{}", s);
        assert_eq!(text::parse_u32(&v, 0, v.len()), s.parse::<u32>().ok(), "{}", s);
    }
    let v = text::characters("4294967296");
    assert_eq!(text::parse_u32(&v, 0, v.len()), None);
}
