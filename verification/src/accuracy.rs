//! Accuracy statistics over suggestion results: how often the expected
//! form appears first, in the top five, anywhere, or not at all.

use vstd::prelude::*;

use crate::speller::suggestion::Suggestion;

verus! {

/// A duration or timestamp in whole seconds plus nanoseconds.
#[derive(Clone, Copy, Debug, PartialEq, Eq, Structural)]
pub struct Time {
    pub secs: u64,
    pub subsec_nanos: u32,
}

/// `a` is no longer than `b`.
pub open spec fn time_le(a: Time, b: Time) -> bool {
    a.secs < b.secs || (a.secs == b.secs && a.subsec_nanos <= b.subsec_nanos)
}

impl Time {
    /// Compare two times.
    pub fn le(&self, other: &Time) -> (r: bool)
        ensures
            r == time_le(*self, *other),
    {
        self.secs < other.secs || (self.secs == other.secs && self.subsec_nanos
            <= other.subsec_nanos)
    }
}

impl Default for Time {
    fn default() -> (t: Time)
        ensures
            t.secs == 0,
            t.subsec_nanos == 0,
    {
        Time { secs: 0, subsec_nanos: 0 }
    }
}

/// One word's lookup outcome: the misspelled input, the expected
/// correction, the suggestions returned, the position of the expected
/// correction among them (if any), and how long the lookup took.
#[derive(Debug)]
pub struct AccuracyResult {
    pub input: String,
    pub expected: String,
    pub suggestions: Vec<Suggestion>,
    pub position: Option<usize>,
    pub time: Time,
}

/// The outcome classes a result is counted under.
#[derive(Clone, Copy, Debug, PartialEq, Eq, Structural)]
pub enum ResultClass {
    AnyPosition,
    FirstPosition,
    TopFive,
    NoSuggestions,
    OnlyWrong,
}

/// Whether a result falls in a class: the expected form appeared
/// somewhere, first, within the top five; or it did not appear because
/// nothing was suggested, or only wrong forms were.
pub open spec fn matches_class(r: AccuracyResult, c: ResultClass) -> bool {
    match c {
        ResultClass::AnyPosition => r.position is Some,
        ResultClass::FirstPosition => r.position == Some(0usize),
        ResultClass::TopFive => match r.position {
            Some(p) => p < 5,
            None => false,
        },
        ResultClass::NoSuggestions => r.position is None && r.suggestions@.len() == 0,
        ResultClass::OnlyWrong => r.position is None && r.suggestions@.len() > 0,
    }
}

/// How many results of `s` fall in class `c`.
pub open spec fn count_class(s: Seq<AccuracyResult>, c: ResultClass) -> int
    decreases s.len(),
{
    if s.len() == 0 {
        0
    } else {
        count_class(s.drop_last(), c) + if matches_class(s.last(), c) {
            1int
        } else {
            0int
        }
    }
}

/// A class never counts more results than there are.
pub proof fn lemma_count_class_bounds(s: Seq<AccuracyResult>, c: ResultClass)
    ensures
        0 <= count_class(s, c) <= s.len(),
    decreases s.len(),
{
    if s.len() > 0 {
        lemma_count_class_bounds(s.drop_last(), c);
    }
}

/// Aggregate counts over a batch of results, and the extremes of the
/// lookup times. The two average fields are left at zero.
#[derive(Clone, Copy, Debug)]
pub struct Summary {
    pub total_words: u32,
    pub first_position: u32,
    pub top_five: u32,
    pub any_position: u32,
    pub no_suggestions: u32,
    pub only_wrong: u32,
    pub slowest_lookup: Time,
    pub fastest_lookup: Time,
    pub average_time: Time,
    pub average_time_95pc: Time,
}

impl Default for Summary {
    fn default() -> (s: Summary)
        ensures
            s.total_words == 0,
            s.first_position == 0,
            s.top_five == 0,
            s.any_position == 0,
            s.no_suggestions == 0,
            s.only_wrong == 0,
            s.slowest_lookup == (Time { secs: 0, subsec_nanos: 0 }),
            s.fastest_lookup == (Time { secs: 0, subsec_nanos: 0 }),
            s.average_time == (Time { secs: 0, subsec_nanos: 0 }),
            s.average_time_95pc == (Time { secs: 0, subsec_nanos: 0 }),
    {
        Summary {
            total_words: 0,
            first_position: 0,
            top_five: 0,
            any_position: 0,
            no_suggestions: 0,
            only_wrong: 0,
            slowest_lookup: Time { secs: 0, subsec_nanos: 0 },
            fastest_lookup: Time { secs: 0, subsec_nanos: 0 },
            average_time: Time { secs: 0, subsec_nanos: 0 },
            average_time_95pc: Time { secs: 0, subsec_nanos: 0 },
        }
    }
}

impl Summary {
    /// Count every result into its classes and record the slowest and
    /// fastest lookup times.
    pub fn new(results: &Vec<AccuracyResult>) -> (s: Summary)
        requires
            1 <= results@.len() <= u32::MAX,
        ensures
            s.total_words == results@.len(),
            s.any_position == count_class(results@, ResultClass::AnyPosition),
            s.first_position == count_class(results@, ResultClass::FirstPosition),
            s.top_five == count_class(results@, ResultClass::TopFive),
            s.no_suggestions == count_class(results@, ResultClass::NoSuggestions),
            s.only_wrong == count_class(results@, ResultClass::OnlyWrong),
            forall|m: int|
                0 <= m < results@.len() ==> time_le(
                    (#[trigger] results@[m]).time,
                    s.slowest_lookup,
                ),
            exists|m: int| 0 <= m < results@.len() && s.slowest_lookup == results@[m].time,
            forall|m: int|
                0 <= m < results@.len() ==> time_le(
                    s.fastest_lookup,
                    (#[trigger] results@[m]).time,
                ),
            exists|m: int| 0 <= m < results@.len() && s.fastest_lookup == results@[m].time,
            s.average_time == (Time { secs: 0, subsec_nanos: 0 }),
            s.average_time_95pc == (Time { secs: 0, subsec_nanos: 0 }),
    {
        let n = results.len();
        let mut summary = Summary::default();
        let mut slowest: Time = results[0].time;
        let mut fastest: Time = results[0].time;
        let mut i: usize = 0;
        while i < n
            invariant
                i <= n == results@.len(),
                n <= u32::MAX,
                n >= 1,
                summary.total_words == i,
                summary.any_position == count_class(
                    results@.take(i as int),
                    ResultClass::AnyPosition,
                ),
                summary.first_position == count_class(
                    results@.take(i as int),
                    ResultClass::FirstPosition,
                ),
                summary.top_five == count_class(results@.take(i as int), ResultClass::TopFive),
                summary.no_suggestions == count_class(
                    results@.take(i as int),
                    ResultClass::NoSuggestions,
                ),
                summary.only_wrong == count_class(
                    results@.take(i as int),
                    ResultClass::OnlyWrong,
                ),
                forall|m: int|
                    0 <= m < i ==> time_le((#[trigger] results@[m]).time, slowest),
                exists|m: int| 0 <= m < results@.len() && slowest == results@[m].time,
                forall|m: int|
                    0 <= m < i ==> time_le(fastest, (#[trigger] results@[m]).time),
                exists|m: int| 0 <= m < results@.len() && fastest == results@[m].time,
                summary.average_time == (Time { secs: 0, subsec_nanos: 0 }),
                summary.average_time_95pc == (Time { secs: 0, subsec_nanos: 0 }),
            decreases n - i,
        {
            proof {
                assert(results@.take(i + 1).drop_last() =~= results@.take(i as int));
                assert(results@.take(i + 1).last() == results@[i as int]);
                lemma_count_class_bounds(results@.take(i as int), ResultClass::AnyPosition);
                lemma_count_class_bounds(results@.take(i as int), ResultClass::FirstPosition);
                lemma_count_class_bounds(results@.take(i as int), ResultClass::TopFive);
                lemma_count_class_bounds(results@.take(i as int), ResultClass::NoSuggestions);
                lemma_count_class_bounds(results@.take(i as int), ResultClass::OnlyWrong);
            }
            summary.total_words = summary.total_words + 1;
            let result = &results[i];
            match result.position {
                Some(position) => {
                    summary.any_position = summary.any_position + 1;
                    if position == 0 {
                        summary.first_position = summary.first_position + 1;
                    }
                    if position < 5 {
                        summary.top_five = summary.top_five + 1;
                    }
                },
                None => {
                    if result.suggestions.len() == 0 {
                        summary.no_suggestions = summary.no_suggestions + 1;
                    } else {
                        summary.only_wrong = summary.only_wrong + 1;
                    }
                },
            }
            if slowest.le(&result.time) {
                slowest = result.time;
            }
            if result.time.le(&fastest) {
                fastest = result.time;
            }
            i += 1;
        }
        proof {
            assert(results@.take(n as int) =~= results@);
        }
        summary.slowest_lookup = slowest;
        summary.fastest_lookup = fastest;
        summary
    }
}

/// The position of the first suggestion whose value is `expected`.
pub fn position_of(suggestions: &Vec<Suggestion>, expected: &String) -> (r: Option<usize>)
    ensures
        match r {
            Some(p) => {
                &&& p < suggestions@.len()
                &&& suggestions@[p as int].value@ == expected@
                &&& forall|m: int|
                    0 <= m < p ==> (#[trigger] suggestions@[m]).value@ != expected@
            },
            None => forall|m: int|
                0 <= m < suggestions@.len() ==> (#[trigger] suggestions@[m]).value@
                    != expected@,
        },
{
    let n = suggestions.len();
    let mut i: usize = 0;
    while i < n
        invariant
            i <= n == suggestions@.len(),
            forall|m: int| 0 <= m < i ==> (#[trigger] suggestions@[m]).value@ != expected@,
        decreases n - i,
    {
        if suggestions[i].value.eq(expected) {
            return Some(i);
        }
        i += 1;
    }
    None
}

} // verus!
