use vstd::prelude::*;
use std::collections::HashSet;
use crate::label::{Label, Transition};
use crate::matching::Match;
use crate::table::{
    first_index, last_index, lemma_first_index, lemma_first_index_at, lemma_last_index, row_set,
    Table,
};

verus! {

broadcast use vstd::std_specs::hash::group_hash_axioms;

/// An entry of a row whose label lets `c` through.
pub open spec fn accepts_key<T: Label>(c: char) -> spec_fn((Transition<T>, usize)) -> bool {
    |e: (Transition<T>, usize)| e.0.0.accepts(c)
}

/// A search result as plain values: start, end, span, and the state the run
/// ended in.
pub open spec fn found_view(r: Option<(Match<char>, usize)>) -> Option<(usize, usize, Seq<char>, usize)> {
    match r {
        Some((m, s)) => Some((m.start, m.end, m.span@, s)),
        None => None,
    }
}

/// A deterministic finite automaton, or DFA.
#[derive(Debug)]
pub struct DFA<T> {
    /// A DFA has a single initial state.
    pub initial_state: usize,
    /// The number of states: there is a state labelled `i` for every
    /// `0 <= i < total_states`.
    pub total_states: usize,
    /// The accepting states.
    pub final_states: HashSet<usize>,
    /// The transitions between states.
    pub transition: Table<T>,
}

impl<T: Label> DFA<T> {
    /// Every state named anywhere is below `total_states`.
    pub open spec fn wf(&self) -> bool {
        &&& self.initial_state < self.total_states
        &&& forall|s: usize| #[trigger] self.final_states@.contains(s) ==> s < self.total_states
        &&& forall|s: int|
            #![trigger self.transition.row(s)]
            self.transition.row(s).len() > 0 ==> 0 <= s < self.total_states
        &&& forall|s: int, j: int|
            0 <= j < self.transition.row(s).len() ==> #[trigger] self.transition.row(s)[j].1
                < self.total_states
    }

    /// No two labels of one row let the same symbol through.
    pub open spec fn is_deterministic(&self) -> bool {
        forall|s: int, i: int, j: int, c: char|
            0 <= i < self.transition.row(s).len() && 0 <= j < self.transition.row(s).len()
                && #[trigger] self.transition.row(s)[i].0.0.accepts(c)
                && #[trigger] self.transition.row(s)[j].0.0.accepts(c) ==> i == j
    }

    pub open spec fn is_final(&self, s: usize) -> bool {
        self.final_states@.contains(s)
    }

    pub open spec fn final_p(&self) -> spec_fn(usize) -> bool {
        |s: usize| self.final_states@.contains(s)
    }

    /// The state that symbol `c` leads to from `s`: the target of the first
    /// transition of the row whose label lets `c` through.
    pub open spec fn step_to(&self, s: usize, c: char) -> Option<usize> {
        let row = self.transition.row(s as int);
        let k = first_index(row, accepts_key::<T>(c));
        if k >= 0 {
            Some(row[k].1)
        } else {
            None
        }
    }

    /// The states that a run from `s` over `input` passes through, one per
    /// symbol, until the input ends or no transition applies.
    pub open spec fn walk(&self, s: usize, input: Seq<char>) -> Seq<usize>
        decreases input.len(),
    {
        if input.len() == 0 {
            Seq::empty()
        } else {
            let p = self.walk(s, input.drop_last());
            if p.len() < input.len() - 1 {
                p
            } else {
                let cur = if p.len() == 0 {
                    s
                } else {
                    p.last()
                };
                match self.step_to(cur, input.last()) {
                    Some(t) => p.push(t),
                    None => p,
                }
            }
        }
    }

    /// The input is accepted: an empty input where the initial state is
    /// final; otherwise where the run reads every symbol and the state it
    /// ends in is final. A run that stops early does not accept.
    pub open spec fn accepts_input(&self, input: Seq<char>) -> bool {
        if input.len() == 0 {
            self.is_final(self.initial_state)
        } else {
            let w = self.walk(self.initial_state, input);
            w.len() == input.len() && self.is_final(w.last())
        }
    }

    /// The symbols from position `start` on (none where `start` is past the end).
    pub open spec fn rest_from(input: Seq<char>, start: usize) -> Seq<char> {
        if start <= input.len() {
            input.subrange(start as int, input.len() as int)
        } else {
            Seq::empty()
        }
    }

    /// What a search from `start` finds. Shortest: the empty match where the
    /// initial state is final, else the match up to the first final state of
    /// the run. Otherwise leftmost-longest: the match up to the last final
    /// state of the run, or the empty match where there is none and the
    /// initial state is final; with the state where the run stopped.
    pub open spec fn search(&self, input: Seq<char>, start: usize, shortest: bool) -> Option<
        (usize, usize, Seq<char>, usize),
    > {
        let rest = Self::rest_from(input, start);
        let w = self.walk(self.initial_state, rest);
        let init = self.initial_state;
        if shortest {
            if self.is_final(init) {
                Some((start, start, Seq::empty(), init))
            } else {
                let k = first_index(w, self.final_p());
                if k >= 0 {
                    Some((start, (start + k + 1) as usize, rest.take(k + 1), w[k]))
                } else {
                    None
                }
            }
        } else {
            let k = last_index(w, self.final_p());
            let end_state = if w.len() == 0 {
                init
            } else {
                w.last()
            };
            if k >= 0 {
                Some((start, (start + k + 1) as usize, rest.take(k + 1), end_state))
            } else if self.is_final(init) {
                Some((start, start, Seq::empty(), end_state))
            } else {
                None
            }
        }
    }

    /// In a deterministic DFA at most one transition lets a symbol through,
    /// so where transition `j` of a row lets `c` through, `c` leads to its
    /// target, whatever the order of the row.
    pub proof fn lemma_deterministic_step(&self, s: usize, c: char, j: int)
        requires
            self.is_deterministic(),
            0 <= j < self.transition.row(s as int).len(),
            self.transition.row(s as int)[j].0.0.accepts(c),
        ensures
            self.step_to(s, c) == Some(self.transition.row(s as int)[j].1),
    {
        let row = self.transition.row(s as int);
        lemma_first_index(row, accepts_key::<T>(c));
        let k = first_index(row, accepts_key::<T>(c));
        assert(accepts_key::<T>(c)(row[j]));
        assert(k >= 0);
        assert(row[k].0.0.accepts(c));
    }

    /// Setting the transition of `start` under `label` keeps a DFA
    /// deterministic where no label of the row but the one it replaces
    /// lets through a symbol that `label` lets through.
    pub proof fn lemma_set_keeps_deterministic(
        before: &Self,
        after: &Self,
        start: usize,
        label: Transition<T>,
        end: usize,
    )
        requires
            before.is_deterministic(),
            after.transition.row(start as int) == row_set(
                before.transition.row(start as int),
                label,
                end,
            ),
            forall|x: int| x != start ==> #[trigger] after.transition.row(x) == before.transition.row(x),
            forall|j: int, c: char|
                0 <= j < before.transition.row(start as int).len()
                    && #[trigger] before.transition.row(start as int)[j].0.0.accepts(c)
                    && label.0.accepts(c) ==> j == first_index(
                    before.transition.row(start as int),
                    crate::table::same_key(label.0),
                ),
        ensures
            after.is_deterministic(),
    {
        let row = before.transition.row(start as int);
        let k = first_index(row, crate::table::same_key(label.0));
        lemma_first_index(row, crate::table::same_key(label.0));
        let nrow = after.transition.row(start as int);
        assert forall|s: int, i: int, j: int, c: char|
            0 <= i < after.transition.row(s).len() && 0 <= j < after.transition.row(s).len()
                && #[trigger] after.transition.row(s)[i].0.0.accepts(c)
                && #[trigger] after.transition.row(s)[j].0.0.accepts(c) implies i == j by {
            if s != start {
                assert(after.transition.row(s) == before.transition.row(s));
                assert(before.transition.row(s)[i].0.0.accepts(c));
                assert(before.transition.row(s)[j].0.0.accepts(c));
            } else if k >= 0 {
                assert(nrow == row.update(k, (label, end)));
                if i != k && j != k {
                    assert(row[i].0.0.accepts(c) && row[j].0.0.accepts(c));
                } else if i == k && j != k {
                    assert(row[j].0.0.accepts(c));
                } else if j == k && i != k {
                    assert(row[i].0.0.accepts(c));
                }
            } else {
                assert(nrow == row.push((label, end)));
                if i < row.len() && j < row.len() {
                    assert(row[i].0.0.accepts(c) && row[j].0.0.accepts(c));
                } else if i < row.len() {
                    assert(row[i].0.0.accepts(c));
                } else if j < row.len() {
                    assert(row[j].0.0.accepts(c));
                }
            }
        }
    }

    proof fn lemma_wf_more_states(a: &Self, b: &Self)
        requires
            a.wf(),
            b.transition == a.transition,
            b.initial_state == a.initial_state,
            b.total_states >= a.total_states,
            forall|s: usize| #[trigger] b.final_states@.contains(s) ==> s < b.total_states,
        ensures
            b.wf(),
    {
        assert forall|s: int, j: int|
            0 <= j < b.transition.row(s).len() implies #[trigger] b.transition.row(s)[j].1
                < b.total_states by {
            assert(a.transition.row(s)[j].1 < a.total_states);
        }
    }

    pub proof fn lemma_walk_len(&self, s: usize, x: Seq<char>)
        ensures
            self.walk(s, x).len() <= x.len(),
        decreases x.len(),
    {
        if x.len() > 0 {
            self.lemma_walk_len(s, x.drop_last());
        }
    }

    /// Once a run has stopped, more input changes nothing.
    pub proof fn lemma_walk_stuck(&self, s: usize, x: Seq<char>, m: int, n: int)
        requires
            0 <= m <= n <= x.len(),
            self.walk(s, x.take(m)).len() < m,
        ensures
            self.walk(s, x.take(n)) == self.walk(s, x.take(m)),
        decreases n - m,
    {
        if n > m {
            self.lemma_walk_stuck(s, x, m, n - 1);
            assert(x.take(n).drop_last() == x.take(n - 1));
        }
    }

    /// The run over a prefix is a prefix of the run over the whole input.
    pub proof fn lemma_walk_prefix(&self, s: usize, x: Seq<char>, n: int)
        requires
            0 <= n <= x.len(),
        ensures
            self.walk(s, x.take(n)).len() <= self.walk(s, x).len(),
            forall|i: int|
                0 <= i < self.walk(s, x.take(n)).len() ==> #[trigger] self.walk(s, x.take(n))[i]
                    == self.walk(s, x)[i],
        decreases x.len(),
    {
        if n == x.len() {
            assert(x.take(n) == x);
        } else {
            self.lemma_walk_prefix(s, x.drop_last(), n);
            assert(x.drop_last().take(n) == x.take(n));
        }
    }

    /// A fresh DFA: one initial state, not final, and no transitions.
    pub fn new() -> (d: DFA<T>)
        ensures
            d.wf(),
            d.initial_state == 0,
            d.total_states == 1,
            d.final_states@ == Set::<usize>::empty(),
            forall|s: int| (#[trigger] d.transition.row(s)).len() == 0,
    {
        DFA {
            initial_state: 0,
            total_states: 1,
            final_states: HashSet::new(),
            transition: Table::new(),
        }
    }

    /// Adds a state, final where `is_final`, and returns its label.
    pub fn add_state(&mut self, is_final: bool) -> (label: usize)
        requires
            old(self).wf(),
            old(self).total_states < usize::MAX,
        ensures
            final(self).wf(),
            label == old(self).total_states,
            final(self).total_states == old(self).total_states + 1,
            final(self).initial_state == old(self).initial_state,
            final(self).final_states@ == (if is_final {
                old(self).final_states@.insert(label)
            } else {
                old(self).final_states@
            }),
            final(self).transition == old(self).transition,
    {
        let label = self.total_states;
        self.total_states = self.total_states + 1;
        if is_final {
            self.final_states.insert(label);
        }
        proof {
            assert forall|s: usize| #[trigger] self.final_states@.contains(s) implies s
                < self.total_states by {
                if s != label {
                    assert(old(self).final_states@.contains(s));
                }
            }
            Self::lemma_wf_more_states(&*old(self), &*self);
        }
        label
    }

    /// Adds the transition `start -> end` under `label`, replacing one with
    /// the same label; `None` where either state does not exist.
    pub fn add_transition(&mut self, start: usize, end: usize, label: Transition<T>) -> (r: Option<
        (),
    >)
        requires
            old(self).wf(),
        ensures
            final(self).wf(),
            r is None <==> (start >= old(self).total_states || end >= old(self).total_states),
            r is None ==> *final(self) == *old(self),
            r is Some ==> {
                &&& final(self).initial_state == old(self).initial_state
                &&& final(self).total_states == old(self).total_states
                &&& final(self).final_states@ == old(self).final_states@
                &&& final(self).transition.row(start as int) == row_set(
                    old(self).transition.row(start as int),
                    label,
                    end,
                )
                &&& forall|x: int|
                    x != start ==> #[trigger] final(self).transition.row(x)
                        == old(self).transition.row(x)
            },
    {
        if start >= self.total_states || end >= self.total_states {
            None
        } else {
            let ghost before = self.transition.row(start as int);
            let ghost k = first_index(before, crate::table::same_key(label.0));
            self.transition.set(start, label, end);
            proof {
                lemma_first_index(before, crate::table::same_key(label.0));
                let after = self.transition.row(start as int);
                assert forall|s: int|
                    #![trigger self.transition.row(s)]
                    self.transition.row(s).len() > 0 implies 0 <= s < self.total_states by {
                    if s != start {
                        assert(self.transition.row(s) == old(self).transition.row(s));
                    }
                }
                assert forall|s: int, j: int|
                    0 <= j < self.transition.row(s).len() implies #[trigger] self.transition.row(s)[j].1
                        < self.total_states by {
                    if s != start {
                        assert(self.transition.row(s) == old(self).transition.row(s));
                        assert(old(self).transition.row(s)[j].1 < old(self).total_states);
                    } else if k >= 0 {
                        assert(after == before.update(k, (label, end)));
                        if j != k {
                            assert(after[j] == before[j]);
                            assert(old(self).transition.row(s)[j].1 < old(self).total_states);
                        }
                    } else {
                        assert(after == before.push((label, end)));
                        if j < before.len() {
                            assert(after[j] == before[j]);
                            assert(old(self).transition.row(s)[j].1 < old(self).total_states);
                        }
                    }
                }
            }
            Some(())
        }
    }

    /// The transitions out of `state`.
    pub fn transitions_on(&self, state: usize) -> (out: &[(Transition<T>, usize)])
        ensures
            out@ == self.transition.row(state as int),
    {
        self.transition.get_row(state)
    }

    pub fn is_final_state(&self, state: usize) -> (r: bool)
        ensures
            r == self.is_final(state),
    {
        self.final_states.contains(&state)
    }

    /// The state that `c` leads to from `state`, if any.
    pub fn next_state(&self, state: usize, c: char) -> (r: Option<usize>)
        ensures
            r == self.step_to(state, c),
    {
        let row = self.transitions_on(state);
        let mut j: usize = 0;
        while j < row.len()
            invariant
                j <= row@.len(),
                row@ == self.transition.row(state as int),
                forall|i: int| 0 <= i < j ==> !accepts_key::<T>(c)(#[trigger] row@[i]),
            decreases row@.len() - j,
        {
            if row[j].0.0.matches(c) {
                proof {
                    lemma_first_index_at(row@, accepts_key::<T>(c), j as int);
                }
                return Some(row[j].1);
            }
            j = j + 1;
        }
        proof {
            lemma_first_index(row@, accepts_key::<T>(c));
        }
        None
    }

    /// A run over `input`, one step at a time.
    pub fn iter_on<'a>(&'a self, input: &'a [char]) -> (it: Iter<'a, T>)
        ensures
            it.dfa == self,
            it.input@ == input@,
            it.pos == 0,
            it.current == self.initial_state,
    {
        Iter { dfa: self, input, pos: 0, current: self.initial_state }
    }

    /// A run over `input` that owns the DFA, one step at a time.
    pub fn into_iter_on(self, input: Vec<char>) -> (it: IntoIter<T>)
        ensures
            it.dfa == self,
            it.input@ == input@,
            it.pos == 0,
            it.current == self.initial_state,
    {
        let current = self.initial_state;
        IntoIter { dfa: self, input, pos: 0, current }
    }

    /// Whether the DFA accepts `input`.
    pub fn is_match(&self, input: &[char]) -> (r: bool)
        ensures
            r == self.accepts_input(input@),
            input@.len() == 0 ==> (r <==> self.is_final(self.initial_state)),
    {
        if input.len() == 0 {
            return self.is_final_state(self.initial_state);
        }
        let ghost x = input@;
        let mut pos: usize = 0;
        let mut cur = self.initial_state;
        let mut last_final = false;
        let mut halted = false;
        while pos < input.len() && !halted
            invariant
                pos <= x.len(),
                x == input@,
                x.len() > 0,
                halted ==> self.walk(self.initial_state, x) == self.walk(
                    self.initial_state,
                    x.take(pos as int),
                ),
                halted || self.walk(self.initial_state, x.take(pos as int)).len() == pos,
                halted ==> pos < x.len(),
                !halted ==> cur == (if pos == 0 {
                    self.initial_state
                } else {
                    self.walk(self.initial_state, x.take(pos as int)).last()
                }),
                last_final == ({
                    let w = self.walk(self.initial_state, x.take(pos as int));
                    w.len() > 0 && self.is_final(w.last())
                }),
            decreases x.len() - pos + (if halted { 0int } else { 1int }),
        {
            let ghost w = self.walk(self.initial_state, x.take(pos as int));
            proof {
                assert(x.take(pos + 1).drop_last() == x.take(pos as int));
                assert(x.take(pos + 1).last() == x[pos as int]);
            }
            match self.next_state(cur, input[pos]) {
                Some(t) => {
                    assert(self.walk(self.initial_state, x.take(pos + 1)) == w.push(t));
                    last_final = self.is_final_state(t);
                    cur = t;
                    pos = pos + 1;
                },
                None => {
                    proof {
                        self.lemma_walk_stuck(self.initial_state, x, pos + 1, x.len() as int);
                        assert(x.take(x.len() as int) == x);
                    }
                    halted = true;
                },
            }
        }
        if halted {
            proof {
                self.lemma_walk_len(self.initial_state, x.take(pos as int));
            }
            return false;
        }
        assert(x.take(pos as int) == x);
        last_final
    }

    /// The symbols of `input` from `from` up to `to`.
    fn copy_span(input: &[char], from: usize, to: usize) -> (v: Vec<char>)
        requires
            from <= to <= input@.len(),
        ensures
            v@ == input@.subrange(from as int, to as int),
    {
        let mut v: Vec<char> = Vec::new();
        let mut i = from;
        while i < to
            invariant
                from <= i <= to,
                to <= input@.len(),
                v@ == input@.subrange(from as int, i as int),
            decreases to - i,
        {
            v.push(input[i]);
            assert(input@.subrange(from as int, i + 1) == input@.subrange(from as int, i as int).push(input@[i as int]));
            i = i + 1;
        }
        v
    }

    fn find_at_impl(&self, input: &[char], start: usize, shortest: bool) -> (r: Option<
        (Match<char>, usize),
    >)
        ensures
            found_view(r) == self.search(input@, start, shortest),
            r matches Some((m, _)) ==> m.wf(),
    {
        let init = self.initial_state;
        let init_final = self.is_final_state(init);
        if shortest && init_final {
            return Some((Match::new(start, start, Vec::new()), init));
        }
        let base: usize = if start <= input.len() {
            start
        } else {
            input.len()
        };
        let ghost x = Self::rest_from(input@, start);
        let ghost fp = self.final_p();
        proof {
            assert(x == input@.subrange(base as int, input@.len() as int));
        }
        let mut pos: usize = base;
        let mut cur = init;
        let mut best: Option<usize> = None;
        let mut halted = false;
        while pos < input.len() && !halted
            invariant
                base <= pos <= input@.len(),
                x == input@.subrange(base as int, input@.len() as int),
                base == (if start <= input@.len() { start } else { input@.len() as usize }),
                fp == self.final_p(),
                init == self.initial_state,
                init_final == self.is_final(init),
                !(shortest && init_final),
                halted ==> self.walk(init, x) == self.walk(init, x.take(pos - base)),
                halted || self.walk(init, x.take(pos - base)).len() == pos - base,
                !halted ==> cur == (if pos == base {
                    init
                } else {
                    self.walk(init, x.take(pos - base)).last()
                }),
                halted ==> cur == (if self.walk(init, x).len() == 0 {
                    init
                } else {
                    self.walk(init, x).last()
                }),
                shortest ==> first_index(self.walk(init, x.take(pos - base)), fp) == -1,
                !shortest ==> best == (if last_index(self.walk(init, x.take(pos - base)), fp) >= 0 {
                    Some((base + last_index(self.walk(init, x.take(pos - base)), fp) + 1) as usize)
                } else {
                    None::<usize>
                }),
            decreases input@.len() - pos + (if halted { 0int } else { 1int }),
        {
            let ghost k = pos - base;
            let ghost w = self.walk(init, x.take(k));
            proof {
                assert(x.take(k + 1).drop_last() == x.take(k));
                assert(x.take(k + 1).last() == input@[pos as int]);
            }
            match self.next_state(cur, input[pos]) {
                Some(t) => {
                    let ghost w2 = w.push(t);
                    assert(self.walk(init, x.take(k + 1)) == w2);
                    assert(w2.drop_last() == w);
                    let f = self.is_final_state(t);
                    cur = t;
                    pos = pos + 1;
                    if f {
                        if shortest {
                            proof {
                                lemma_first_index(w, fp);
                                assert forall|i: int| 0 <= i < k implies !fp(#[trigger] w2[i]) by {
                                    assert(w2[i] == w[i]);
                                }
                                self.lemma_walk_prefix(init, x, k + 1);
                                let wx = self.walk(init, x);
                                assert forall|i: int| 0 <= i < k implies !fp(#[trigger] wx[i]) by {
                                    assert(wx[i] == w2[i]);
                                }
                                assert(wx[k] == w2[k]);
                                lemma_first_index_at(wx, fp, k);
                                assert(x.take(k + 1) == input@.subrange(base as int, pos as int));
                            }
                            let span = Self::copy_span(input, base, pos);
                            return Some((Match::new(start, pos, span), t));
                        }
                        best = Some(pos);
                    } else {
                        proof {
                            if shortest {
                                lemma_first_index(w, fp);
                            }
                        }
                    }
                },
                None => {
                    proof {
                        self.lemma_walk_len(init, x.take(k));
                        self.lemma_walk_stuck(init, x, k + 1, x.len() as int);
                        assert(x.take(x.len() as int) == x);
                    }
                    halted = true;
                },
            }
        }
        let ghost w = self.walk(init, x);
        proof {
            if !halted {
                assert(x.take(pos - base) == x);
            }
            self.lemma_walk_len(init, x);
            lemma_first_index(w, fp);
            lemma_last_index(w, fp);
        }
        if shortest {
            return None;
        }
        match best {
            Some(end) => {
                proof {
                    let k = last_index(w, fp);
                    assert(x.take(k + 1) == input@.subrange(base as int, end as int));
                }
                let span = Self::copy_span(input, base, end);
                Some((Match::new(start, end, span), cur))
            },
            None => {
                if init_final {
                    Some((Match::new(start, start, Vec::new()), cur))
                } else {
                    None
                }
            },
        }
    }

    /// Leftmost-shortest search from the start of `input`.
    pub fn find_shortest(&self, input: &[char]) -> (r: Option<(Match<char>, usize)>)
        ensures
            found_view(r) == self.search(input@, 0, true),
            r matches Some((m, _)) ==> m.wf(),
    {
        self.find_shortest_at(input, 0)
    }

    /// Shortest search from position `start` of `input`.
    pub fn find_shortest_at(&self, input: &[char], start: usize) -> (r: Option<(Match<char>, usize)>)
        ensures
            found_view(r) == self.search(input@, start, true),
            r matches Some((m, _)) ==> m.wf(),
    {
        self.find_at_impl(input, start, true)
    }

    /// Leftmost-longest search from the start of `input`.
    pub fn find(&self, input: &[char]) -> (r: Option<(Match<char>, usize)>)
        ensures
            found_view(r) == self.search(input@, 0, false),
            r matches Some((m, _)) ==> m.wf(),
    {
        self.find_at(input, 0)
    }

    /// Leftmost-longest search from position `start` of `input`.
    pub fn find_at(&self, input: &[char], start: usize) -> (r: Option<(Match<char>, usize)>)
        ensures
            found_view(r) == self.search(input@, start, false),
            r matches Some((m, _)) ==> m.wf(),
    {
        self.find_at_impl(input, start, false)
    }
}

impl<T: Label> Default for DFA<T> {
    /// The fresh DFA of `DFA::new`.
    fn default() -> (d: DFA<T>)
        ensures
            d.wf(),
            d.initial_state == 0,
            d.total_states == 1,
            d.final_states@ == Set::<usize>::empty(),
            forall|s: int| (#[trigger] d.transition.row(s)).len() == 0,
    {
        DFA::new()
    }
}

/// The step of a run: reads the symbol at `pos` and follows its transition
/// from `current`. Where the input is spent or no transition applies, the
/// run ends: `None`, and `pos` moves to the end.
pub fn iter_on_next<T: Label>(dfa: &DFA<T>, input: &[char], pos: &mut usize, current: &mut usize) -> (r:
    Option<(usize, char, bool)>)
    requires
        *old(pos) <= input@.len(),
    ensures
        *final(pos) <= input@.len(),
        ({
            let p = *old(pos);
            if p < input@.len() && dfa.step_to(*old(current), input@[p as int]) is Some {
                let t = dfa.step_to(*old(current), input@[p as int])->0;
                &&& r == Some((t, input@[p as int], dfa.is_final(t)))
                &&& *final(pos) == p + 1
                &&& *final(current) == t
            } else {
                &&& r is None
                &&& *final(pos) == input@.len()
                &&& *final(current) == *old(current)
            }
        }),
{
    if *pos >= input.len() {
        return None;
    }
    let c = input[*pos];
    match dfa.next_state(*current, c) {
        Some(t) => {
            let f = dfa.is_final_state(t);
            *pos = *pos + 1;
            *current = t;
            Some((t, c, f))
        },
        None => {
            *pos = input.len();
            None
        },
    }
}

/// A run of a borrowed DFA over borrowed input, one step at a time.
#[derive(Debug)]
pub struct Iter<'a, T> {
    pub dfa: &'a DFA<T>,
    pub input: &'a [char],
    pub pos: usize,
    pub current: usize,
}

impl<'a, T: Label> Iter<'a, T> {
    /// The next step: the state reached, the symbol read, and whether the
    /// state is final; `None` once the run has ended.
    pub fn next(&mut self) -> (r: Option<(usize, char, bool)>)
        requires
            old(self).pos <= old(self).input@.len(),
        ensures
            final(self).pos <= final(self).input@.len(),
            final(self).dfa == old(self).dfa,
            final(self).input == old(self).input,
            ({
                let p = old(self).pos;
                let d = old(self).dfa;
                let inp = old(self).input@;
                if p < inp.len() && d.step_to(old(self).current, inp[p as int]) is Some {
                    let t = d.step_to(old(self).current, inp[p as int])->0;
                    &&& r == Some((t, inp[p as int], d.is_final(t)))
                    &&& final(self).pos == p + 1
                    &&& final(self).current == t
                } else {
                    &&& r is None
                    &&& final(self).pos == inp.len()
                    &&& final(self).current == old(self).current
                }
            }),
    {
        iter_on_next(self.dfa, self.input, &mut self.pos, &mut self.current)
    }
}

/// A run of an owned DFA over owned input, one step at a time.
#[derive(Debug)]
pub struct IntoIter<T> {
    pub dfa: DFA<T>,
    pub input: Vec<char>,
    pub pos: usize,
    pub current: usize,
}

impl<T: Label> IntoIter<T> {
    /// The next step, as for `Iter::next`.
    pub fn next(&mut self) -> (r: Option<(usize, char, bool)>)
        requires
            old(self).pos <= old(self).input@.len(),
        ensures
            final(self).pos <= final(self).input@.len(),
            final(self).dfa == old(self).dfa,
            final(self).input@ == old(self).input@,
            ({
                let p = old(self).pos;
                let d = old(self).dfa;
                let inp = old(self).input@;
                if p < inp.len() && d.step_to(old(self).current, inp[p as int]) is Some {
                    let t = d.step_to(old(self).current, inp[p as int])->0;
                    &&& r == Some((t, inp[p as int], d.is_final(t)))
                    &&& final(self).pos == p + 1
                    &&& final(self).current == t
                } else {
                    &&& r is None
                    &&& final(self).pos == inp.len()
                    &&& final(self).current == old(self).current
                }
            }),
    {
        iter_on_next(&self.dfa, self.input.as_slice(), &mut self.pos, &mut self.current)
    }
}

} // verus!
