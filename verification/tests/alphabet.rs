use divvunspell::transducer::alphabet::{Alphabet, FlagKind, FlagOperation};

fn alphabet() -> Alphabet {
    let symbols = vec![
        String::new(),
        String::from("a"),
        String::from("b"),
        String::from("@P.CASE.UP@"),
    ];
    let ops: Vec<Option<FlagOperation>> = vec![
        None,
        None,
        None,
        Some(FlagOperation { kind: FlagKind::Positive, feature: 0, value: 1 }),
    ];
    Alphabet::new(symbols, ops)
}

#[test]
fn key_for_char_finds_the_first_matching_symbol() {
    let a = alphabet();
    assert_eq!(a.key_for_char('a'), Some(1));
    assert_eq!(a.key_for_char('b'), Some(2));
    assert_eq!(a.key_for_char('c'), None);
}

#[test]
fn encode_maps_each_character_or_fails() {
    let a = alphabet();
    assert_eq!(a.encode("ab"), Some(vec![1, 2]));
    assert_eq!(a.encode(""), Some(vec![]));
    assert_eq!(a.encode("ax"), None);
}

#[test]
fn decode_skips_epsilon_and_flag_diacritics() {
    let a = alphabet();
    assert_eq!(a.decode(&vec![1, 0, 3, 2]), "ab");
    assert_eq!(a.decode(&vec![]), "");
    // An out-of-range symbol contributes nothing.
    assert_eq!(a.decode(&vec![1, 9]), "a");
}

#[test]
fn string_of_resolves_in_range_symbols() {
    let a = alphabet();
    assert_eq!(a.string_of(1).map(|s| s.as_str()), Some("a"));
    assert_eq!(a.string_of(3).map(|s| s.as_str()), Some("@P.CASE.UP@"));
    assert!(a.string_of(4).is_none());
    assert!(a.is_flag(3));
    assert!(!a.is_flag(2));
    assert!(!a.is_flag(9));
}
