use vstd::prelude::*;
use crate::class::CharClass;

verus! {

/// An edge of an NFA: labelled with a class, or an epsilon move (`None`).
#[derive(Debug)]
pub struct NfaEdge {
    pub from: usize,
    pub to: usize,
    pub label: Option<CharClass>,
}

/// A nondeterministic finite automaton with epsilon moves, over character
/// classes. Its states are `0..total_states`.
#[derive(Debug)]
pub struct NFA {
    pub start_state: usize,
    pub total_states: usize,
    /// Whether each state is accepting, one entry per state.
    pub final_states: Vec<bool>,
    pub edges: Vec<NfaEdge>,
}

pub open spec fn edge_wf(e: NfaEdge, total: usize) -> bool {
    &&& e.from < total
    &&& e.to < total
    &&& e.label matches Some(c) ==> c.wf()
}

/// The accepting flags `s`, kept where `keep`, all cleared otherwise.
pub open spec fn kept_finals(s: Seq<bool>, keep: bool) -> Seq<bool> {
    Seq::new(s.len(), |k: int| keep && s[k])
}

/// The edge `e` moved up by `off` states.
pub open spec fn edge_shifted(e: NfaEdge, f: NfaEdge, off: usize) -> bool {
    &&& f.from == e.from + off
    &&& f.to == e.to + off
    &&& f.label is Some == e.label is Some
    &&& (e.label matches Some(c) ==> f.label->0.ranges@ == c.ranges@)
}

/// `e` is an epsilon move from `from` to `to`.
pub open spec fn is_eps(e: NfaEdge, from: int, to: int) -> bool {
    e.from == from && e.to == to && e.label is None
}

/// The edges of `edges` from index `lo` on are epsilon moves to `to`, one
/// from each accepting state of `finals` moved up by `off`.
pub open spec fn links_finals(edges: Seq<NfaEdge>, lo: int, finals: Seq<bool>, off: int, to: int) -> bool {
    &&& forall|k: int|
        lo <= k < edges.len() ==> (#[trigger] edges[k]).label is None && edges[k].to == to && off
            <= edges[k].from < off + finals.len() && finals[edges[k].from - off]
    &&& forall|i: int|
        0 <= i < finals.len() && #[trigger] finals[i] ==> exists|k: int|
            lo <= k < edges.len() && is_eps(#[trigger] edges[k], off + i, to)
}

/// The edges of `src`, moved up by `off`, stand in `edges` from index `lo`.
pub open spec fn copies_edges(edges: Seq<NfaEdge>, lo: int, src: Seq<NfaEdge>, off: usize) -> bool {
    &&& lo + src.len() <= edges.len()
    &&& forall|i: int| 0 <= i < src.len() ==> edge_shifted(#[trigger] src[i], edges[lo + i], off)
}

impl NFA {
    pub open spec fn wf(&self) -> bool {
        &&& self.final_states@.len() == self.total_states
        &&& self.start_state < self.total_states
        &&& forall|i: int| 0 <= i < self.edges@.len() ==> edge_wf(#[trigger] self.edges@[i], self.total_states)
    }

    /// One initial state, not accepting, and no edges.
    pub fn new() -> (n: NFA)
        ensures
            n.wf(),
            n.total_states == 1,
            n.start_state == 0,
            n.final_states@ == seq![false],
            n.edges@.len() == 0,
    {
        NFA { start_state: 0, total_states: 1, final_states: vec![false], edges: Vec::new() }
    }

    /// The automaton of the empty word: one state, initial and accepting.
    pub fn new_epsilon() -> (n: NFA)
        ensures
            n.wf(),
            n.total_states == 1,
            n.start_state == 0,
            n.final_states@ == seq![true],
            n.edges@.len() == 0,
    {
        NFA { start_state: 0, total_states: 1, final_states: vec![true], edges: Vec::new() }
    }

    /// Adds a state and returns its label.
    pub fn add_state(&mut self, is_final: bool) -> (label: usize)
        requires
            old(self).wf(),
            old(self).total_states < usize::MAX,
        ensures
            final(self).wf(),
            label == old(self).total_states,
            final(self).total_states == old(self).total_states + 1,
            final(self).start_state == old(self).start_state,
            final(self).final_states@ == old(self).final_states@.push(is_final),
            final(self).edges@ == old(self).edges@,
    {
        let label = self.total_states;
        self.total_states = label + 1;
        self.final_states.push(is_final);
        proof {
            assert forall|i: int| 0 <= i < self.edges@.len() implies edge_wf(
                #[trigger] self.edges@[i],
                self.total_states,
            ) by {
                assert(edge_wf(old(self).edges@[i], old(self).total_states));
            }
        }
        label
    }

    /// Adds an edge `from -> to`; `None` where either state does not exist.
    pub fn add_transition(&mut self, from: usize, to: usize, label: Option<CharClass>) -> (r: Option<()>)
        requires
            old(self).wf(),
            label matches Some(c) ==> c.wf(),
        ensures
            final(self).wf(),
            r is None <==> (from >= old(self).total_states || to >= old(self).total_states),
            final(self).start_state == old(self).start_state,
            final(self).total_states == old(self).total_states,
            final(self).final_states@ == old(self).final_states@,
            r is None ==> final(self).edges@ == old(self).edges@,
            r is Some ==> final(self).edges@ == old(self).edges@.push(NfaEdge { from, to, label }),
    {
        if from >= self.total_states || to >= self.total_states {
            return None;
        }
        self.edges.push(NfaEdge { from, to, label });
        proof {
            assert forall|i: int| 0 <= i < self.edges@.len() implies edge_wf(
                #[trigger] self.edges@[i],
                self.total_states,
            ) by {
                if i < old(self).edges@.len() {
                    assert(self.edges@[i] == old(self).edges@[i]);
                }
            }
        }
        Some(())
    }

    /// Appends the states and edges of `src`, moved up by `off` states;
    /// the appended states are accepting where `keep_final` and they are in
    /// `src`.
    fn append_shifted(&mut self, src: &NFA, off: usize, keep_final: bool)
        requires
            old(self).wf(),
            src.wf(),
            off == old(self).total_states,
            off + src.total_states <= usize::MAX,
        ensures
            final(self).wf(),
            final(self).start_state == old(self).start_state,
            final(self).total_states == off + src.total_states,
            final(self).final_states@ == old(self).final_states@ + kept_finals(
                src.final_states@,
                keep_final,
            ),
            final(self).edges@.len() == old(self).edges@.len() + src.edges@.len(),
            forall|i: int| 0 <= i < old(self).edges@.len() ==> final(self).edges@[i] == old(self).edges@[i],
            forall|i: int|
                0 <= i < src.edges@.len() ==> edge_shifted(
                    src.edges@[i],
                    #[trigger] final(self).edges@[old(self).edges@.len() + i],
                    off,
                ),
    {
        let mut i: usize = 0;
        while i < src.final_states.len()
            invariant
                i <= src.final_states@.len(),
                src.wf(),
                off == old(self).total_states,
                off + src.total_states <= usize::MAX,
                self.start_state == old(self).start_state,
                self.edges@ == old(self).edges@,
                self.final_states@ == old(self).final_states@ + kept_finals(
                    src.final_states@.take(i as int),
                    keep_final,
                ),
            decreases src.final_states@.len() - i,
        {
            let ghost fb = self.final_states@;
            self.final_states.push(keep_final && src.final_states[i]);
            proof {
                assert(src.final_states@.take(i + 1) == src.final_states@.take(i as int).push(src.final_states@[i as int]));
                assert(kept_finals(src.final_states@.take(i + 1), keep_final) =~= kept_finals(
                    src.final_states@.take(i as int),
                    keep_final,
                ).push(keep_final && src.final_states@[i as int]));
                assert(self.final_states@ =~= old(self).final_states@ + kept_finals(
                    src.final_states@.take(i + 1),
                    keep_final,
                ));
            }
            i = i + 1;
        }
        assert(src.final_states@.take(i as int) == src.final_states@);
        self.total_states = off + src.total_states;
        let ghost fs = self.final_states@;
        let mut j: usize = 0;
        while j < src.edges.len()
            invariant
                j <= src.edges@.len(),
                src.wf(),
                off == old(self).total_states,
                self.total_states == off + src.total_states,
                self.start_state == old(self).start_state,
                self.start_state < off,
                self.final_states@ == fs,
                fs.len() == off + src.total_states,
                fs == old(self).final_states@ + kept_finals(src.final_states@, keep_final),
                self.edges@.len() == old(self).edges@.len() + j,
                forall|k: int| 0 <= k < old(self).edges@.len() ==> self.edges@[k] == old(self).edges@[k],
                forall|k: int|
                    0 <= k < j ==> edge_shifted(
                        src.edges@[k],
                        #[trigger] self.edges@[old(self).edges@.len() + k],
                        off,
                    ),
                forall|k: int| 0 <= k < self.edges@.len() ==> edge_wf(#[trigger] self.edges@[k], self.total_states),
                forall|k: int| 0 <= k < old(self).edges@.len() ==> edge_wf(#[trigger] old(self).edges@[k], old(self).total_states),
            decreases src.edges@.len() - j,
        {
            let e = &src.edges[j];
            assert(edge_wf(src.edges@[j as int], src.total_states));
            let label = match &e.label {
                Some(c) => Some(c.copy()),
                None => None,
            };
            let ghost before = self.edges@;
            self.edges.push(NfaEdge { from: e.from + off, to: e.to + off, label });
            proof {
                assert forall|k: int| 0 <= k < self.edges@.len() implies edge_wf(
                    #[trigger] self.edges@[k],
                    self.total_states,
                ) by {
                    if k < before.len() {
                        assert(self.edges@[k] == before[k]);
                    }
                }
                assert forall|k: int| 0 <= k < j + 1 implies edge_shifted(
                    src.edges@[k],
                    #[trigger] self.edges@[old(self).edges@.len() + k],
                    off,
                ) by {
                    if k < j {
                        assert(self.edges@[old(self).edges@.len() + k] == before[old(self).edges@.len() + k]);
                    }
                }
            }
            j = j + 1;
        }
    }
    /// Adds an epsilon move to `to` from each state `off + i` where state
    /// `i` of `src` is accepting.
    fn link_finals(&mut self, src: &NFA, off: usize, to: usize)
        requires
            old(self).wf(),
            src.wf(),
            off + src.total_states <= old(self).total_states,
            to < old(self).total_states,
        ensures
            final(self).wf(),
            final(self).start_state == old(self).start_state,
            final(self).total_states == old(self).total_states,
            final(self).final_states@ == old(self).final_states@,
            final(self).edges@.len() >= old(self).edges@.len(),
            forall|k: int| 0 <= k < old(self).edges@.len() ==> final(self).edges@[k] == old(self).edges@[k],
            links_finals(final(self).edges@, old(self).edges@.len() as int, src.final_states@, off as int, to as int),
    {
        let ghost e0 = self.edges@;
        let ghost fs = src.final_states@;
        let mut i: usize = 0;
        while i < src.final_states.len()
            invariant
                i <= src.final_states@.len(),
                fs == src.final_states@,
                e0 == old(self).edges@,
                src.wf(),
                self.wf(),
                off + src.total_states <= self.total_states,
                to < self.total_states,
                self.start_state == old(self).start_state,
                self.total_states == old(self).total_states,
                self.final_states@ == old(self).final_states@,
                self.edges@.len() >= e0.len(),
                forall|k: int| 0 <= k < e0.len() ==> self.edges@[k] == e0[k],
                forall|k: int|
                    e0.len() <= k < self.edges@.len() ==> (#[trigger] self.edges@[k]).label is None
                        && self.edges@[k].to == to && off <= self.edges@[k].from < off + i
                        && fs[self.edges@[k].from - off],
                forall|j: int|
                    0 <= j < i && #[trigger] fs[j] ==> exists|k: int|
                        e0.len() <= k < self.edges@.len() && is_eps(#[trigger] self.edges@[k], off + j, to as int),
            decreases src.final_states@.len() - i,
        {
            if src.final_states[i] {
                let ghost before = self.edges@;
                let _ = self.add_transition(off + i, to, None);
                proof {
                    let n = before.len() as int;
                    assert(self.edges@[n] == NfaEdge { from: (off + i) as usize, to, label: None });
                    assert forall|j: int| 0 <= j < i + 1 && #[trigger] fs[j] implies exists|k: int|
                        e0.len() <= k < self.edges@.len() && is_eps(#[trigger] self.edges@[k], off + j, to as int) by {
                        if j < i {
                            let k = choose|k: int|
                                e0.len() <= k < before.len() && is_eps(#[trigger] before[k], off + j, to as int);
                            assert(self.edges@[k] == before[k]);
                        } else {
                            assert(is_eps(self.edges@[n], off + j, to as int));
                        }
                    }
                    assert forall|k: int| 0 <= k < e0.len() implies self.edges@[k] == e0[k] by {
                        assert(self.edges@[k] == before[k]);
                    }
                    assert forall|k: int|
                        e0.len() <= k < self.edges@.len() implies (#[trigger] self.edges@[k]).label is None
                        && self.edges@[k].to == to && off <= self.edges@[k].from < off + i + 1
                        && fs[self.edges@[k].from - off] by {
                        if k < n {
                            assert(self.edges@[k] == before[k]);
                        }
                    }
                }
            }
            i = i + 1;
        }
    }

    /// `a*`: a fresh accepting start state, an epsilon move from it into
    /// `a`, and one back from each accepting state of `a`. `None` where the
    /// states would not fit in `usize`.
    pub fn kleene_star(a: &NFA) -> (r: Option<NFA>)
        requires
            a.wf(),
        ensures
            r is None <==> a.total_states == usize::MAX,
            r matches Some(n) ==> {
                &&& n.wf()
                &&& n.start_state == 0
                &&& n.total_states == a.total_states + 1
                &&& n.final_states@ == seq![true] + kept_finals(a.final_states@, false)
                &&& copies_edges(n.edges@, 0, a.edges@, 1)
                &&& is_eps(n.edges@[a.edges@.len() as int], 0, a.start_state + 1)
                &&& links_finals(n.edges@, a.edges@.len() + 1int, a.final_states@, 1, 0)
            },
    {
        if a.total_states == usize::MAX {
            return None;
        }
        let mut n = NFA::new_epsilon();
        n.append_shifted(a, 1, false);
        let ghost e1 = n.edges@;
        let _ = n.add_transition(0, a.start_state + 1, None);
        let ghost e2 = n.edges@;
        n.link_finals(a, 1, 0);
        proof {
            let la = a.edges@.len() as int;
            assert(e2[la] == n.edges@[la]);
            assert forall|i: int| 0 <= i < a.edges@.len() implies edge_shifted(
                #[trigger] a.edges@[i],
                n.edges@[0 + i],
                1,
            ) by {
                assert(n.edges@[i] == e2[i]);
                assert(e2[i] == e1[i]);
            }
        }
        Some(n)
    }

    /// `ab`: a fresh start state with an epsilon move into `a`, and one from
    /// each accepting state of `a` into `b`; only the accepting states of
    /// `b` accept. `None` where the states would not fit in `usize`.
    pub fn concatenation(a: &NFA, b: &NFA) -> (r: Option<NFA>)
        requires
            a.wf(),
            b.wf(),
        ensures
            r is None <==> a.total_states + b.total_states >= usize::MAX,
            r matches Some(n) ==> {
                &&& n.wf()
                &&& n.start_state == 0
                &&& n.total_states == a.total_states + b.total_states + 1
                &&& n.final_states@ == seq![false] + kept_finals(a.final_states@, false)
                    + kept_finals(b.final_states@, true)
                &&& copies_edges(n.edges@, 0, a.edges@, 1)
                &&& copies_edges(n.edges@, a.edges@.len() as int, b.edges@, (a.total_states + 1) as usize)
                &&& is_eps(
                    n.edges@[a.edges@.len() + b.edges@.len() + 0int],
                    0,
                    a.start_state + 1,
                )
                &&& links_finals(
                    n.edges@,
                    a.edges@.len() + b.edges@.len() + 1int,
                    a.final_states@,
                    1,
                    b.start_state + a.total_states + 1,
                )
            },
    {
        if a.total_states >= usize::MAX - b.total_states {
            return None;
        }
        let mut n = NFA::new();
        n.append_shifted(a, 1, false);
        let ghost e1 = n.edges@;
        let off = 1 + a.total_states;
        n.append_shifted(b, off, true);
        let ghost e2 = n.edges@;
        let _ = n.add_transition(0, a.start_state + 1, None);
        let ghost e3 = n.edges@;
        n.link_finals(a, 1, b.start_state + off);
        proof {
            let la = a.edges@.len() as int;
            let lb = b.edges@.len() as int;
            assert(e3[la + lb] == n.edges@[la + lb]);
            assert forall|i: int| 0 <= i < la implies edge_shifted(
                #[trigger] a.edges@[i],
                n.edges@[0 + i],
                1,
            ) by {
                assert(n.edges@[i] == e3[i]);
                assert(e3[i] == e2[i]);
                assert(e2[i] == e1[i]);
            }
            assert forall|i: int| 0 <= i < lb implies edge_shifted(
                #[trigger] b.edges@[i],
                n.edges@[la + i],
                off,
            ) by {
                assert(n.edges@[la + i] == e3[la + i]);
                assert(e3[la + i] == e2[la + i]);
            }
        }
        Some(n)
    }

    /// `a|b`: a fresh start state with epsilon moves into `a` and into `b`;
    /// the accepting states of both accept. `None` where the states would
    /// not fit in `usize`.
    pub fn union(a: &NFA, b: &NFA) -> (r: Option<NFA>)
        requires
            a.wf(),
            b.wf(),
        ensures
            r is None <==> a.total_states + b.total_states >= usize::MAX,
            r matches Some(n) ==> {
                &&& n.wf()
                &&& n.start_state == 0
                &&& n.total_states == a.total_states + b.total_states + 1
                &&& n.final_states@ == seq![false] + kept_finals(a.final_states@, true)
                    + kept_finals(b.final_states@, true)
                &&& n.edges@.len() == a.edges@.len() + b.edges@.len() + 2
                &&& copies_edges(n.edges@, 0, a.edges@, 1)
                &&& copies_edges(n.edges@, a.edges@.len() as int, b.edges@, (a.total_states + 1) as usize)
                &&& is_eps(
                    n.edges@[a.edges@.len() + b.edges@.len() + 0int],
                    0,
                    a.start_state + 1,
                )
                &&& is_eps(
                    n.edges@[a.edges@.len() + b.edges@.len() + 1int],
                    0,
                    b.start_state + a.total_states + 1,
                )
            },
    {
        if a.total_states >= usize::MAX - b.total_states {
            return None;
        }
        let mut n = NFA::new();
        n.append_shifted(a, 1, true);
        let ghost e1 = n.edges@;
        let off = 1 + a.total_states;
        n.append_shifted(b, off, true);
        let ghost e2 = n.edges@;
        let _ = n.add_transition(0, a.start_state + 1, None);
        let ghost e3 = n.edges@;
        let _ = n.add_transition(0, b.start_state + off, None);
        proof {
            let la = a.edges@.len() as int;
            let lb = b.edges@.len() as int;
            assert(e3[la + lb] == n.edges@[la + lb]);
            assert forall|i: int| 0 <= i < la implies edge_shifted(
                #[trigger] a.edges@[i],
                n.edges@[0 + i],
                1,
            ) by {
                assert(n.edges@[i] == e3[i]);
                assert(e3[i] == e2[i]);
                assert(e2[i] == e1[i]);
            }
            assert forall|i: int| 0 <= i < lb implies edge_shifted(
                #[trigger] b.edges@[i],
                n.edges@[la + i],
                off,
            ) by {
                assert(n.edges@[la + i] == e3[la + i]);
                assert(e3[la + i] == e2[la + i]);
            }
        }
        Some(n)
    }
}

} // verus!
