use vstd::prelude::*;
use crate::label::{Label, Transition};

verus! {

/// The first index of `s` whose element meets `p`, or -1 where none does.
pub open spec fn first_index<A>(s: Seq<A>, p: spec_fn(A) -> bool) -> int
    decreases s.len(),
{
    if s.len() == 0 {
        -1
    } else {
        let k = first_index(s.drop_last(), p);
        if k >= 0 {
            k
        } else if p(s.last()) {
            s.len() - 1
        } else {
            -1
        }
    }
}

/// The last index of `s` whose element meets `p`, or -1 where none does.
pub open spec fn last_index<A>(s: Seq<A>, p: spec_fn(A) -> bool) -> int
    decreases s.len(),
{
    if s.len() == 0 {
        -1
    } else if p(s.last()) {
        s.len() - 1
    } else {
        last_index(s.drop_last(), p)
    }
}

/// `first_index` is the least index that meets `p`.
pub proof fn lemma_first_index<A>(s: Seq<A>, p: spec_fn(A) -> bool)
    ensures
        -1 <= first_index(s, p) < s.len(),
        first_index(s, p) >= 0 ==> p(s[first_index(s, p)]),
        forall|i: int|
            0 <= i < s.len() && (first_index(s, p) < 0 || i < first_index(s, p)) ==> !p(
                #[trigger] s[i],
            ),
    decreases s.len(),
{
    if s.len() > 0 {
        lemma_first_index(s.drop_last(), p);
        assert forall|i: int| 0 <= i < s.len() - 1 implies s.drop_last()[i] == s[i] by {}
    }
}

/// `last_index` is the greatest index that meets `p`.
pub proof fn lemma_last_index<A>(s: Seq<A>, p: spec_fn(A) -> bool)
    ensures
        -1 <= last_index(s, p) < s.len(),
        last_index(s, p) >= 0 ==> p(s[last_index(s, p)]),
        forall|i: int| last_index(s, p) < i < s.len() ==> !p(#[trigger] s[i]),
    decreases s.len(),
{
    if s.len() > 0 {
        lemma_last_index(s.drop_last(), p);
        assert forall|i: int| 0 <= i < s.len() - 1 implies s.drop_last()[i] == s[i] by {}
    }
}

/// Where `p` meets `s[j]` and nothing before it, `j` is the first index.
pub proof fn lemma_first_index_at<A>(s: Seq<A>, p: spec_fn(A) -> bool, j: int)
    requires
        0 <= j < s.len(),
        p(s[j]),
        forall|i: int| 0 <= i < j ==> !p(#[trigger] s[i]),
    ensures
        first_index(s, p) == j,
{
    lemma_first_index(s, p);
}

/// An entry of a row whose label names the same edge as `key`.
pub open spec fn same_key<T: Label>(key: T) -> spec_fn((Transition<T>, usize)) -> bool {
    |e: (Transition<T>, usize)| e.0.0.same(&key)
}

/// The row after `key` was set to `v`: an entry with the same label is
/// replaced in place, otherwise the entry goes at the end.
pub open spec fn row_set<T: Label>(row: Seq<(Transition<T>, usize)>, key: Transition<T>, v: usize) -> Seq<
    (Transition<T>, usize),
> {
    let j = first_index(row, same_key(key.0));
    if j >= 0 {
        row.update(j, (key, v))
    } else {
        row.push((key, v))
    }
}

/// A two-level table: row key (a state) to label to target state.
#[derive(Debug)]
pub struct Table<T> {
    pub rows: Vec<Vec<(Transition<T>, usize)>>,
}

impl<T: Label> Table<T> {
    /// The entries of row `r`, empty where the row was never written.
    pub open spec fn row(&self, r: int) -> Seq<(Transition<T>, usize)> {
        if 0 <= r < self.rows@.len() {
            self.rows@[r]@
        } else {
            Seq::empty()
        }
    }

    /// An empty table.
    pub fn new() -> (t: Table<T>)
        ensures
            forall|r: int| (#[trigger] t.row(r)).len() == 0,
    {
        Table { rows: Vec::new() }
    }

    /// Sets the entry of row `r` under `key` to `v`.
    pub fn set(&mut self, r: usize, key: Transition<T>, v: usize)
        ensures
            forall|x: int| x != r ==> #[trigger] final(self).row(x) == old(self).row(x),
            final(self).row(r as int) == row_set(old(self).row(r as int), key, v),
    {
        while self.rows.len() <= r
            invariant
                forall|x: int| #[trigger] self.row(x) == old(self).row(x),
            decreases r + 1 - self.rows@.len(),
        {
            let ghost before = *self;
            self.rows.push(Vec::new());
            proof {
                assert forall|x: int| #[trigger] self.row(x) == old(self).row(x) by {
                    assert(self.row(x) == before.row(x));
                }
            }
        }
        let ghost mid = *self;
        let mut row: Vec<(Transition<T>, usize)> = Vec::new();
        std::mem::swap(&mut row, &mut self.rows[r]);
        let ghost orig = row@;
        assert(r < mid.rows@.len());
        assert(row == mid.rows@[r as int]);
        assert(orig == mid.row(r as int));
        assert(orig == old(self).row(r as int));
        let mut j: usize = 0;
        while j < row.len() && !row[j].0.0.same_label(&key.0)
            invariant
                j <= row@.len(),
                row@ == orig,
                forall|i: int| 0 <= i < j ==> !same_key(key.0)(#[trigger] orig[i]),
            decreases row@.len() - j,
        {
            j = j + 1;
        }
        if j < row.len() {
            proof {
                lemma_first_index_at(orig, same_key(key.0), j as int);
            }
            row[j] = (key, v);
        } else {
            proof {
                lemma_first_index(orig, same_key(key.0));
            }
            row.push((key, v));
        }
        std::mem::swap(&mut row, &mut self.rows[r]);
        proof {
            assert forall|x: int| x != r implies #[trigger] self.row(x) == old(self).row(x) by {
                assert(self.row(x) == mid.row(x));
            }
        }
    }

    /// The entries of row `r`.
    pub fn get_row(&self, r: usize) -> (out: &[(Transition<T>, usize)])
        ensures
            out@ == self.row(r as int),
    {
        if r < self.rows.len() {
            self.rows[r].as_slice()
        } else {
            &[]
        }
    }
}

} // verus!
