use divvunspell::accuracy::{position_of, AccuracyResult, Summary, Time};
use divvunspell::speller::suggestion::Suggestion;

fn result(
    input: &str,
    expected: &str,
    suggestions: Vec<(&str, u32)>,
    secs: u64,
    nanos: u32,
) -> AccuracyResult {
    let suggestions: Vec<Suggestion> = suggestions
        .into_iter()
        .map(|(v, w)| Suggestion::new(String::from(v), w))
        .collect();
    let expected_owned = String::from(expected);
    let position = position_of(&suggestions, &expected_owned);
    AccuracyResult {
        input: String::from(input),
        expected: expected_owned,
        suggestions,
        position,
        time: Time { secs, subsec_nanos: nanos },
    }
}

#[test]
fn position_of_finds_the_first_match() {
    let suggestions = vec![
        Suggestion::new(String::from("one"), 1),
        Suggestion::new(String::from("two"), 2),
        Suggestion::new(String::from("two"), 3),
    ];
    assert_eq!(position_of(&suggestions, &String::from("one")), Some(0));
    assert_eq!(position_of(&suggestions, &String::from("two")), Some(1));
    assert_eq!(position_of(&suggestions, &String::from("three")), None);
}

#[test]
fn summary_counts_every_class() {
    let results = vec![
        // Expected form first: any, first, top five.
        result("ab", "ab", vec![("ab", 0), ("bb", 2)], 0, 500),
        // Expected form second: any, top five.
        result("bb", "ab", vec![("bb", 1), ("ab", 1)], 2, 0),
        // Expected form at position five: any only.
        result(
            "x",
            "f",
            vec![("a", 1), ("b", 2), ("c", 3), ("d", 4), ("e", 5), ("f", 6)],
            1,
            0,
        ),
        // Nothing suggested.
        result("zz", "ab", vec![], 0, 100),
        // Only wrong suggestions.
        result("ba", "zz", vec![("ab", 1)], 3, 7),
    ];
    let summary = Summary::new(&results);
    assert_eq!(summary.total_words, 5);
    assert_eq!(summary.any_position, 3);
    assert_eq!(summary.first_position, 1);
    assert_eq!(summary.top_five, 2);
    assert_eq!(summary.no_suggestions, 1);
    assert_eq!(summary.only_wrong, 1);
    assert_eq!(summary.slowest_lookup, Time { secs: 3, subsec_nanos: 7 });
    assert_eq!(summary.fastest_lookup, Time { secs: 0, subsec_nanos: 100 });
    assert_eq!(summary.average_time, Time::default());
    assert_eq!(summary.average_time_95pc, Time::default());
}

#[test]
fn summary_of_one_result() {
    let results = vec![result("ab", "ab", vec![("ab", 0)], 1, 2)];
    let summary = Summary::new(&results);
    assert_eq!(summary.total_words, 1);
    assert_eq!(summary.any_position, 1);
    assert_eq!(summary.first_position, 1);
    assert_eq!(summary.top_five, 1);
    assert_eq!(summary.no_suggestions, 0);
    assert_eq!(summary.only_wrong, 0);
    assert_eq!(summary.slowest_lookup, Time { secs: 1, subsec_nanos: 2 });
    assert_eq!(summary.fastest_lookup, Time { secs: 1, subsec_nanos: 2 });
}
