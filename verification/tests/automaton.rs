use subseq_ascii_caseless::SubseqAsciiCaseless;

const PATTERN1: &str = "sqaicl";

/// Threads `accept` over every byte of `input`, starting from `start()`, and
/// returns whether the automaton ends in its accepting state.
fn matches(automaton: &SubseqAsciiCaseless<'_>, input: &str) -> bool {
    let mut state = automaton.start();
    for &byte in input.as_bytes() {
        state = automaton.accept(&state, byte);
    }
    automaton.is_match(&state)
}

#[test]
fn test_states() {
    let subseq = SubseqAsciiCaseless::new(PATTERN1);
    assert_eq!(subseq.start(), 0);
    assert_eq!(subseq.accept(&0, b'q'), 0);
    assert_eq!(subseq.accept(&0, b'S'), 1);
    assert_eq!(subseq.accept(&1, b'x'), 1);
    assert_eq!(subseq.accept(&1, b'q'), 2);
    assert_eq!(subseq.accept(&2, b'a'), 3);
    assert_eq!(subseq.accept(&3, b'I'), 4);
    assert_eq!(subseq.accept(&4, b'l'), 4);
    assert_eq!(subseq.accept(&4, b'C'), 5);
    assert_eq!(subseq.accept(&5, b'L'), 6);
}

#[test]
fn test_is_match() {
    let subseq = SubseqAsciiCaseless::new(PATTERN1);
    for i in 0..PATTERN1.len() {
        assert!(!subseq.is_match(&i));
    }
    assert!(subseq.is_match(&PATTERN1.len()));
}

#[test]
fn subsequence_matching_folds_case() {
    let subseq = SubseqAsciiCaseless::new("abc");
    assert!(matches(&subseq, "abc"));
    assert!(matches(&subseq, "ABC"));
    assert!(matches(&subseq, "AxByCz"));
    assert!(matches(&subseq, "xxaxxBxxc"));
    assert!(!matches(&subseq, "acb"));
    assert!(!matches(&subseq, "ab"));
    assert!(!matches(&subseq, ""));
}

#[test]
fn non_letter_bytes_pass_through_folding() {
    let subseq = SubseqAsciiCaseless::new("a-1");
    assert!(matches(&subseq, "A-1"));
    assert!(matches(&subseq, "xa?-!1"));
    assert!(!matches(&subseq, "a_1"));
}

#[test]
fn empty_pattern_matches_everything() {
    let subseq = SubseqAsciiCaseless::new("");
    assert!(matches(&subseq, ""));
    assert!(matches(&subseq, "anything"));
    assert!(subseq.is_match(&subseq.start()));
}

#[test]
fn states_are_monotonic_and_bounded() {
    let subseq = SubseqAsciiCaseless::new(PATTERN1);
    let input = "The Spanish Quarter is a calm place";
    let mut state = subseq.start();
    for &byte in input.as_bytes() {
        let next = subseq.accept(&state, byte);
        assert!(next >= state);
        assert!(next <= PATTERN1.len());
        state = next;
    }
}

#[test]
fn match_is_sticky() {
    let subseq = SubseqAsciiCaseless::new("ab");
    let mut state = subseq.start();
    assert!(!subseq.will_always_match(&state));
    for &byte in b"xaxbx" {
        state = subseq.accept(&state, byte);
    }
    assert!(subseq.is_match(&state));
    assert!(subseq.will_always_match(&state));
    for &byte in b"more bytes of any kind, A-Z included" {
        state = subseq.accept(&state, byte);
        assert!(subseq.is_match(&state));
        assert!(subseq.will_always_match(&state));
    }
}

#[test]
fn can_match_is_always_true() {
    let subseq = SubseqAsciiCaseless::new(PATTERN1);
    let mut state = subseq.start();
    assert!(subseq.can_match(&state));
    for &byte in b"zzsqzzaiclzz" {
        state = subseq.accept(&state, byte);
        assert!(subseq.can_match(&state));
    }
}

#[test]
fn uppercase_pattern_never_matches() {
    let subseq = SubseqAsciiCaseless::new_unchecked("A");
    assert!(!matches(&subseq, ""));
    assert!(!matches(&subseq, "a"));
    assert!(!matches(&subseq, "A"));
    assert!(!matches(&subseq, "aAaAaA"));

    let mixed = SubseqAsciiCaseless::new_unchecked("aBc");
    assert!(!matches(&mixed, "abc"));
    assert!(!matches(&mixed, "ABC"));
    assert!(!matches(&mixed, "aBcaBcaBc"));
}
