use regexp2::class::CharClass;
use regexp2::dfa::DFA;
use regexp2::label::Transition;
use regexp2::matching::Match;

fn chars(s: &str) -> Vec<char> {
    s.chars().collect()
}

/// `a*`: one state, final, looping on `a`.
fn a_star() -> DFA<CharClass> {
    let mut d = DFA::new();
    d.final_states.insert(0);
    assert_eq!(d.add_transition(0, 0, Transition(CharClass::from_char('a'))), Some(()));
    d
}

/// `a|b`
fn a_or_b() -> DFA<CharClass> {
    let mut d = DFA::new();
    let f = d.add_state(true);
    d.add_transition(0, f, Transition(CharClass::from_char('a'))).unwrap();
    d.add_transition(0, f, Transition(CharClass::from_char('b'))).unwrap();
    d
}

/// `ab+c`
fn ab_plus_c() -> DFA<CharClass> {
    let mut d = DFA::new();
    let s1 = d.add_state(false);
    let s2 = d.add_state(false);
    let s3 = d.add_state(true);
    d.add_transition(0, s1, Transition(CharClass::from_char('a'))).unwrap();
    d.add_transition(s1, s2, Transition(CharClass::from_char('b'))).unwrap();
    d.add_transition(s2, s2, Transition(CharClass::from_char('b'))).unwrap();
    d.add_transition(s2, s3, Transition(CharClass::from_char('c'))).unwrap();
    d
}

/// `[0-9]+`
fn digits_plus() -> DFA<CharClass> {
    let mut d = DFA::new();
    let f = d.add_state(true);
    d.add_transition(0, f, Transition(CharClass::from_range('0', '9'))).unwrap();
    d.add_transition(f, f, Transition(CharClass::from_range('0', '9'))).unwrap();
    d
}

/// `a.c`
fn a_dot_c() -> DFA<CharClass> {
    let mut d = DFA::new();
    let s1 = d.add_state(false);
    let s2 = d.add_state(false);
    let s3 = d.add_state(true);
    d.add_transition(0, s1, Transition(CharClass::from_char('a'))).unwrap();
    d.add_transition(s1, s2, Transition(CharClass::all_but_newline())).unwrap();
    d.add_transition(s2, s3, Transition(CharClass::from_char('c'))).unwrap();
    d
}

fn parts(m: &Match<char>) -> (usize, usize, Vec<char>) {
    (m.start(), m.end(), m.span.clone())
}

#[test]
fn a_star_on_empty_input() {
    let d = a_star();
    assert!(d.is_match(&chars("")));
    let (m, _) = d.find(&chars("")).unwrap();
    assert_eq!(parts(&m), (0, 0, vec![]));
}

#[test]
fn a_star_longest_and_shortest() {
    let d = a_star();
    let (m, end) = d.find(&chars("aaa")).unwrap();
    assert_eq!(parts(&m), (0, 3, vec!['a', 'a', 'a']));
    assert_eq!(end, 0);
    let (m, _) = d.find_shortest(&chars("aaa")).unwrap();
    assert_eq!(parts(&m), (0, 0, vec![]));
}

#[test]
fn alternation_matches_either_side() {
    let d = a_or_b();
    assert!(d.is_match(&chars("a")));
    assert!(d.is_match(&chars("b")));
    assert!(!d.is_match(&chars("c")));
}

#[test]
fn plus_in_the_middle() {
    let d = ab_plus_c();
    let (m, end) = d.find(&chars("abbbc")).unwrap();
    assert_eq!(parts(&m), (0, 5, vec!['a', 'b', 'b', 'b', 'c']));
    assert_eq!(end, 3);
    assert!(d.find(&chars("ac")).is_none());
    assert!(!d.is_match(&chars("ac")));
}

#[test]
fn find_at_skips_symbols() {
    let d = digits_plus();
    let (m, _) = d.find_at(&chars("abc123def"), 3).unwrap();
    assert_eq!(parts(&m), (3, 6, vec!['1', '2', '3']));
    assert_eq!(m.range(), 3..6);
    assert!(d.find_at(&chars("abc123def"), 0).is_none());
}

#[test]
fn shortest_at_stops_at_first_final() {
    let d = digits_plus();
    let (m, s) = d.find_shortest_at(&chars("abc123def"), 3).unwrap();
    assert_eq!(parts(&m), (3, 4, vec!['1']));
    assert_eq!(s, 1);
}

#[test]
fn wildcard_excludes_newline() {
    let d = a_dot_c();
    assert!(d.is_match(&chars("abc")));
    assert!(!d.is_match(&chars("a\nc")));
}

#[test]
fn empty_input_matches_only_when_initial_is_final() {
    let d = a_or_b();
    assert!(!d.is_match(&chars("")));
    assert!(d.find(&chars("")).is_none());
    assert!(a_star().is_match(&chars("")));
}

#[test]
fn longest_match_keeps_span_at_last_final() {
    // `ab|abcd` without the `abc` match: run goes on past the final state.
    let mut d: DFA<char> = DFA::new();
    let s1 = d.add_state(false);
    let s2 = d.add_state(true);
    let s3 = d.add_state(false);
    d.add_transition(0, s1, Transition('a')).unwrap();
    d.add_transition(s1, s2, Transition('b')).unwrap();
    d.add_transition(s2, s3, Transition('c')).unwrap();
    let (m, end) = d.find(&chars("abcx")).unwrap();
    assert_eq!(parts(&m), (0, 2, vec!['a', 'b']));
    assert_eq!(end, s3);
}

#[test]
fn match_bounds_agree_with_span() {
    let d = digits_plus();
    for start in 0..10 {
        if let Some((m, _)) = d.find_at(&chars("a12b345"), start) {
            assert!(m.start() <= m.end());
            assert_eq!(m.end() - m.start(), m.span.len());
        }
    }
}

#[test]
fn start_past_the_end() {
    let d = a_star();
    let (m, s) = d.find_at(&chars("aa"), 5).unwrap();
    assert_eq!(parts(&m), (5, 5, vec![]));
    assert_eq!(s, 0);
    assert!(digits_plus().find_at(&chars("12"), 5).is_none());
}

#[test]
fn add_transition_refuses_missing_states() {
    let mut d: DFA<char> = DFA::new();
    assert_eq!(d.add_transition(0, 1, Transition('a')), None);
    assert_eq!(d.add_transition(1, 0, Transition('a')), None);
    let s = d.add_state(false);
    assert_eq!(s, 1);
    assert_eq!(d.total_states, 2);
    assert_eq!(d.add_transition(0, 1, Transition('a')), Some(()));
}

#[test]
fn same_label_replaces_target() {
    let mut d: DFA<char> = DFA::new();
    let s1 = d.add_state(false);
    let s2 = d.add_state(true);
    d.add_transition(0, s1, Transition('a')).unwrap();
    d.add_transition(0, s2, Transition('a')).unwrap();
    let row = d.transitions_on(0);
    assert_eq!(row.len(), 1);
    assert_eq!(row[0].1, s2);
    assert!(d.transitions_on(7).is_empty());
    assert!(d.is_final_state(s2));
    assert!(!d.is_final_state(s1));
}

#[test]
fn iterators_step_through_the_run() {
    let d = ab_plus_c();
    let input = chars("abbx");
    let mut it = d.iter_on(&input);
    assert_eq!(it.next(), Some((1, 'a', false)));
    assert_eq!(it.next(), Some((2, 'b', false)));
    assert_eq!(it.next(), Some((2, 'b', false)));
    assert_eq!(it.next(), None);
    assert_eq!(it.next(), None);
    let mut owned = ab_plus_c().into_iter_on(chars("abc"));
    assert_eq!(owned.next(), Some((1, 'a', false)));
    assert_eq!(owned.next(), Some((2, 'b', false)));
    assert_eq!(owned.next(), Some((3, 'c', true)));
    assert_eq!(owned.next(), None);
}

#[test]
fn match_accessors() {
    let m = Match::new(2, 4, vec!['x', 'y']);
    assert_eq!(m.start(), 2);
    assert_eq!(m.end(), 4);
    assert_eq!(m.range(), 2..4);
}

#[test]
fn default_is_a_fresh_dfa() {
    let d: DFA<char> = DFA::default();
    assert_eq!(d.initial_state, 0);
    assert_eq!(d.total_states, 1);
    assert!(d.final_states.is_empty());
    assert!(!d.is_match(&chars("")));
}

#[test]
fn is_match_needs_the_whole_input() {
    let mut d: DFA<char> = DFA::new();
    let f = d.add_state(true);
    d.add_transition(0, f, Transition('a')).unwrap();
    assert!(d.is_match(&chars("a")));
    assert!(!d.is_match(&chars("ab")));
    assert!(!a_or_b().is_match(&chars("ab")));
    assert!(a_star().is_match(&chars("aaa")));
    assert!(!a_star().is_match(&chars("aab")));
}
