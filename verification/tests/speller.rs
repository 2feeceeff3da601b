use divvunspell::speller::{Speller, SpellerConfig};
use divvunspell::transducer::alphabet::{Alphabet, FlagKind, FlagOperation};
use divvunspell::transducer::index_table::IndexTable;
use divvunspell::transducer::transition_table::TransitionTable;
use divvunspell::transducer::Transducer;

const NO_SYM: u16 = 0xFFFF;
const NO_TGT: u32 = 0xFFFF_FFFF;
// Symbol numbering shared by both transducers: 0 is epsilon.
const A: u16 = 1;
const B: u16 = 2;

fn transition_table(records: &[(u16, u16, u32, u32)]) -> TransitionTable {
    let mut buf = Vec::new();
    for &(i, o, t, w) in records {
        buf.extend_from_slice(&i.to_le_bytes());
        buf.extend_from_slice(&o.to_le_bytes());
        buf.extend_from_slice(&t.to_le_bytes());
        buf.extend_from_slice(&w.to_le_bytes());
    }
    let len = buf.len();
    TransitionTable::new(buf, 0, len, records.len() as u32)
}

fn alphabet() -> Alphabet {
    let symbols = vec![String::new(), String::from("a"), String::from("b")];
    let ops: Vec<Option<FlagOperation>> = vec![None, None, None];
    Alphabet::new(symbols, ops)
}

fn empty_index_table() -> IndexTable {
    IndexTable::new(Vec::new(), 0, 0, 0)
}

/// A lexicon accepting "ab" at weight 0 and "bb" at weight 1.
fn lexicon() -> Transducer {
    let tt = transition_table(&[
        (A, A, 3, 0),                    // state 0: a -> state 3
        (B, B, 3, 1),                    // state 0: b -> state 3, weight 1
        (NO_SYM, NO_SYM, NO_TGT, 0),     // separator
        (B, B, 5, 0),                    // state 3: b -> state 5
        (NO_SYM, NO_SYM, NO_TGT, 0),     // separator
        (NO_SYM, 0, 0, 0),               // state 5: final, weight 0
    ]);
    Transducer::new(empty_index_table(), tt, alphabet())
}

/// A mutator scoring identity at 0 and an a/b substitution at 1.
fn mutator() -> Transducer {
    let tt = transition_table(&[
        (NO_SYM, 0, 0, 0),               // state 0: final, weight 0
        (A, A, 0, 0),                    // identity a
        (A, B, 0, 1),                    // substitute a -> b
        (B, B, 0, 0),                    // identity b
        (B, A, 0, 1),                    // substitute b -> a
    ]);
    Transducer::new(empty_index_table(), tt, alphabet())
}

fn speller() -> Speller {
    Speller::new(lexicon(), mutator())
}

fn config() -> SpellerConfig {
    SpellerConfig {
        max_weight: None,
        n_best: None,
        beam: None,
        pool_max: 128,
        pool_start: 128,
        seen_node_sample_rate: 15,
        with_caps: false,
    }
}

#[test]
fn empty_input_gives_no_suggestions() {
    let s = speller();
    let r = s.suggest_with_config("", &config());
    assert!(r.is_empty());
}

#[test]
fn exact_match_ranks_first_with_its_own_weight() {
    let s = speller();
    let r = s.suggest_with_config("ab", &config());
    assert!(!r.is_empty());
    assert_eq!(r[0].value, "ab");
    assert_eq!(r[0].weight, 0);
}

#[test]
fn suggestions_are_sorted_and_complete() {
    let s = speller();
    let r = s.suggest_with_config("ab", &config());
    let pairs: Vec<(&str, u32)> = r.iter().map(|x| (x.value.as_str(), x.weight)).collect();
    assert_eq!(pairs, vec![("ab", 0), ("bb", 2)]);
    for w in r.windows(2) {
        assert!(w[0].weight <= w[1].weight);
    }
}

#[test]
fn misspelled_input_is_corrected() {
    let s = speller();
    let r = s.suggest_with_config("bb", &config());
    let pairs: Vec<(&str, u32)> = r.iter().map(|x| (x.value.as_str(), x.weight)).collect();
    // Identity reaches "bb" at its intrinsic weight 1; one substitution
    // reaches "ab" at edit cost 1. "bb" is discovered first, and ties
    // keep discovery order.
    assert_eq!(pairs, vec![("bb", 1), ("ab", 1)]);
}

#[test]
fn exact_seen_node_tracking_drops_revisited_keys() {
    let s = speller();
    let mut cfg = config();
    cfg.seen_node_sample_rate = 0;
    let r = s.suggest_with_config("bb", &cfg);
    // Both candidate paths pass the same (lexicon, mutator, offset) key;
    // with exact tracking the later one is dropped.
    let pairs: Vec<(&str, u32)> = r.iter().map(|x| (x.value.as_str(), x.weight)).collect();
    assert_eq!(pairs, vec![("bb", 1)]);
}

#[test]
fn n_best_truncates() {
    let s = speller();
    let mut cfg = config();
    cfg.n_best = Some(1);
    let r = s.suggest_with_config("ab", &cfg);
    assert_eq!(r.len(), 1);
    assert_eq!(r[0].value, "ab");
    cfg.n_best = Some(0);
    assert!(s.suggest_with_config("ab", &cfg).is_empty());
}

#[test]
fn beam_zero_keeps_only_ties_with_the_best() {
    let s = speller();
    let mut cfg = config();
    cfg.beam = Some(0);
    let r = s.suggest_with_config("ab", &cfg);
    assert!(!r.is_empty());
    for x in &r {
        assert_eq!(x.weight, r[0].weight);
    }
    assert_eq!(r.len(), 1);
    assert_eq!(r[0].value, "ab");
}

#[test]
fn max_weight_zero_rejects_everything_but_exact_zero_cost_matches() {
    let s = speller();
    let mut cfg = config();
    cfg.max_weight = Some(0);
    // "ba" is not lexicon-accepted: every path costs at least 1.
    assert!(s.suggest_with_config("ba", &cfg).is_empty());
    // The exact zero-cost match survives.
    let r = s.suggest_with_config("ab", &cfg);
    assert_eq!(r.len(), 1);
    assert_eq!(r[0].value, "ab");
    assert_eq!(r[0].weight, 0);
}

#[test]
fn repeated_runs_are_deterministic() {
    let s = speller();
    let cfg = config();
    let first = s.suggest_with_config("bb", &cfg);
    for _ in 0..5 {
        let again = s.suggest_with_config("bb", &cfg);
        assert_eq!(again.len(), first.len());
        for (x, y) in first.iter().zip(again.iter()) {
            assert_eq!(x.value, y.value);
            assert_eq!(x.weight, y.weight);
        }
    }
}

#[test]
fn unknown_characters_give_no_suggestions() {
    let s = speller();
    assert!(s.suggest_with_config("xy", &config()).is_empty());
}

#[test]
fn with_caps_recases_all_caps_input() {
    let s = speller();
    let mut cfg = config();
    cfg.with_caps = true;
    let r = s.suggest_with_config("AB", &cfg);
    let pairs: Vec<(&str, u32)> = r.iter().map(|x| (x.value.as_str(), x.weight)).collect();
    assert_eq!(pairs, vec![("AB", 0), ("BB", 2)]);
}

#[test]
fn with_caps_recases_capitalized_input() {
    let s = speller();
    let mut cfg = config();
    cfg.with_caps = true;
    let r = s.suggest_with_config("Ab", &cfg);
    let pairs: Vec<(&str, u32)> = r.iter().map(|x| (x.value.as_str(), x.weight)).collect();
    assert_eq!(pairs, vec![("Ab", 0), ("Bb", 2)]);
}

#[test]
fn flag_diacritics_enforce_feature_constraints() {
    // The lexicon reaches "a" only through a flag transition requiring a
    // feature that nothing ever sets: every path is blocked.
    let symbols = vec![String::new(), String::from("a"), String::from("b"), String::from("@R.F@")];
    let ops: Vec<Option<FlagOperation>> = vec![
        None,
        None,
        None,
        Some(FlagOperation { kind: FlagKind::Require, feature: 1, value: 0 }),
    ];
    let lex_tt = transition_table(&[
        (3, 3, 2, 0),                    // state 0: require-flag -> state 2
        (NO_SYM, NO_SYM, NO_TGT, 0),     // separator
        (A, A, 4, 0),                    // state 2: a -> state 4
        (NO_SYM, NO_SYM, NO_TGT, 0),     // separator
        (NO_SYM, 0, 0, 0),               // state 4: final
    ]);
    let mut_tt = transition_table(&[
        (NO_SYM, 0, 0, 0),               // state 0: final
        (A, A, 0, 0),                    // identity a
    ]);
    let lex = Transducer::new(
        empty_index_table(),
        lex_tt,
        Alphabet::new(symbols.clone(), ops.clone()),
    );
    let m = Transducer::new(empty_index_table(), mut_tt, Alphabet::new(symbols, ops));
    let s = Speller::new(lex, m);
    assert!(s.suggest_with_config("a", &config()).is_empty());
}

#[test]
fn flag_diacritics_pass_once_the_feature_is_set() {
    // A positive flag sets the feature, so the following require-flag
    // passes and the form is accepted.
    let symbols = vec![
        String::new(),
        String::from("a"),
        String::from("b"),
        String::from("@P.F.V@"),
        String::from("@R.F@"),
    ];
    let ops: Vec<Option<FlagOperation>> = vec![
        None,
        None,
        None,
        Some(FlagOperation { kind: FlagKind::Positive, feature: 1, value: 1 }),
        Some(FlagOperation { kind: FlagKind::Require, feature: 1, value: 0 }),
    ];
    let lex_tt = transition_table(&[
        (3, 3, 2, 0),                    // state 0: positive-flag -> state 2
        (NO_SYM, NO_SYM, NO_TGT, 0),     // separator
        (4, 4, 4, 0),                    // state 2: require-flag -> state 4
        (NO_SYM, NO_SYM, NO_TGT, 0),     // separator
        (A, A, 6, 0),                    // state 4: a -> state 6
        (NO_SYM, NO_SYM, NO_TGT, 0),     // separator
        (NO_SYM, 0, 0, 0),               // state 6: final
    ]);
    let mut_tt = transition_table(&[
        (NO_SYM, 0, 0, 0),               // state 0: final
        (A, A, 0, 0),                    // identity a
    ]);
    let lex = Transducer::new(
        empty_index_table(),
        lex_tt,
        Alphabet::new(symbols.clone(), ops.clone()),
    );
    let m = Transducer::new(empty_index_table(), mut_tt, Alphabet::new(symbols, ops));
    let s = Speller::new(lex, m);
    let r = s.suggest_with_config("a", &config());
    let pairs: Vec<(&str, u32)> = r.iter().map(|x| (x.value.as_str(), x.weight)).collect();
    assert_eq!(pairs, vec![("a", 0)]);
}

#[test]
fn transducer_capabilities() {
    let lex = lexicon();
    assert_eq!(lex.final_weight(5), Some(0));
    assert_eq!(lex.final_weight(0), None);
    assert!(lex.is_final(5));
    let out0 = lex.outgoing(0);
    assert_eq!(out0.len(), 2);
    assert_eq!(out0[0].input, A);
    assert_eq!(out0[0].target, 3);
    assert_eq!(out0[1].input, B);
    assert_eq!(out0[1].weight, 1);
    // A final state's own record is skipped when enumerating transitions.
    let m = mutator();
    assert_eq!(m.outgoing(0).len(), 4);
}

#[test]
fn index_target_checks_the_entry_symbol() {
    // An index table whose entry at position s + symbol points into the
    // transition table only when that entry is tagged with the symbol.
    let mut buf = Vec::new();
    for &(sym, tgt) in &[(NO_SYM, NO_TGT), (A, 7u32), (NO_SYM, 9u32)] {
        buf.extend_from_slice(&sym.to_le_bytes());
        buf.extend_from_slice(&0u16.to_le_bytes());
        buf.extend_from_slice(&tgt.to_le_bytes());
    }
    let len = buf.len();
    let it = IndexTable::new(buf, 0, len, 3);
    let t = Transducer::new(it, transition_table(&[]), alphabet());
    assert_eq!(t.index_target(0, A), Some(7));
    assert_eq!(t.index_target(0, B), None);
    assert_eq!(t.index_target(1, A), None);
    assert_eq!(t.index_target(5, A), None);
}
