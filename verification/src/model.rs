use vstd::prelude::*;

verus! {

use crate::obeys_structural_eq;
use crate::sequence::{next_window, Sequence};
use crate::table::{
    spec_add, spec_most_frequent, spec_sample, sum_freqs, table_wf, Table,
};

/// What prediction returns for a context: the most frequent observation
/// of its table, or `None` for a context never observed.
pub open spec fn spec_predict<T>(
    m: Map<Seq<T>, Seq<(Option<T>, nat)>>,
    key: Seq<T>,
) -> Option<T> {
    if m.contains_key(key) {
        spec_most_frequent(m[key])
    } else {
        None
    }
}

/// What sampling returns for a context: the weighted selection from its
/// table, or `None` for a context never observed.
pub open spec fn spec_model_sample<T>(
    m: Map<Seq<T>, Seq<(Option<T>, nat)>>,
    key: Seq<T>,
    target: int,
) -> Option<T> {
    if m.contains_key(key) {
        spec_sample(m[key], target)
    } else {
        None
    }
}

/// A model based on Markov chains: a mapping from context windows to
/// frequency tables, together with the fixed order chosen at creation.
pub struct Model<T: Copy + Eq> {
    order: usize,
    tables: Vec<(Sequence<T>, Table<T>)>,
}

spec fn assoc_map<T: Copy + Eq>(s: Seq<(Sequence<T>, Table<T>)>) -> Map<
    Seq<T>,
    Seq<(Option<T>, nat)>,
>
    decreases s.len(),
{
    if s.len() == 0 {
        Map::empty()
    } else {
        assoc_map(s.drop_last()).insert(s.last().0@, s.last().1@)
    }
}

spec fn keys_distinct<T: Copy + Eq>(s: Seq<(Sequence<T>, Table<T>)>) -> bool {
    forall|a: int, b: int| 0 <= a < b < s.len() ==> s[a].0@ != s[b].0@
}

proof fn lemma_assoc_contains<T: Copy + Eq>(s: Seq<(Sequence<T>, Table<T>)>, key: Seq<T>)
    ensures
        assoc_map(s).contains_key(key) <==> exists|k: int|
            0 <= k < s.len() && s[k].0@ == key,
    decreases s.len(),
{
    if s.len() > 0 {
        let rest = s.drop_last();
        lemma_assoc_contains(rest, key);
        if assoc_map(s).contains_key(key) {
            if s.last().0@ == key {
                assert(s[s.len() - 1].0@ == key);
            } else {
                let k = choose|k: int| 0 <= k < rest.len() && rest[k].0@ == key;
                assert(s[k].0@ == key);
            }
        }
        if exists|k: int| 0 <= k < s.len() && s[k].0@ == key {
            let k = choose|k: int| 0 <= k < s.len() && s[k].0@ == key;
            if k < s.len() - 1 {
                assert(rest[k].0@ == key);
            }
        }
    }
}

proof fn lemma_assoc_index<T: Copy + Eq>(s: Seq<(Sequence<T>, Table<T>)>, i: int)
    requires
        keys_distinct(s),
        0 <= i < s.len(),
    ensures
        assoc_map(s).contains_key(s[i].0@),
        assoc_map(s)[s[i].0@] == s[i].1@,
    decreases s.len(),
{
    if i < s.len() - 1 {
        let rest = s.drop_last();
        assert(rest[i] == s[i]);
        lemma_assoc_index(rest, i);
        assert(s.last().0@ != s[i].0@);
    }
}

proof fn lemma_assoc_update<T: Copy + Eq>(
    s: Seq<(Sequence<T>, Table<T>)>,
    i: int,
    p: (Sequence<T>, Table<T>),
)
    requires
        keys_distinct(s),
        0 <= i < s.len(),
        p.0@ == s[i].0@,
    ensures
        assoc_map(s.update(i, p)) == assoc_map(s).insert(s[i].0@, p.1@),
    decreases s.len(),
{
    let t = s.update(i, p);
    if i == s.len() - 1 {
        assert(t.drop_last() =~= s.drop_last());
        assert(t.last() == p);
        assert(assoc_map(t) =~= assoc_map(s).insert(s[i].0@, p.1@));
    } else {
        let rest = s.drop_last();
        assert(t.drop_last() =~= rest.update(i, p));
        assert(t.last() == s.last());
        assert(rest[i] == s[i]);
        lemma_assoc_update(rest, i, p);
        assert(s.last().0@ != s[i].0@);
        assert(assoc_map(t) =~= assoc_map(s).insert(s[i].0@, p.1@));
    }
}

proof fn lemma_assoc_dom_len<T: Copy + Eq>(s: Seq<(Sequence<T>, Table<T>)>)
    requires
        keys_distinct(s),
    ensures
        assoc_map(s).dom().finite(),
        assoc_map(s).dom().len() == s.len(),
    decreases s.len(),
{
    if s.len() == 0 {
        assert(assoc_map(s).dom() =~= Set::<Seq<T>>::empty());
    } else {
        let rest = s.drop_last();
        lemma_assoc_dom_len(rest);
        lemma_assoc_contains(rest, s.last().0@);
        assert(!assoc_map(rest).contains_key(s.last().0@)) by {
            if exists|k: int| 0 <= k < rest.len() && rest[k].0@ == s.last().0@ {
                let k = choose|k: int| 0 <= k < rest.len() && rest[k].0@ == s.last().0@;
                assert(s[k].0@ == s[s.len() - 1].0@);
            }
        }
        assert(assoc_map(s).dom() =~= assoc_map(rest).dom().insert(s.last().0@));
        vstd::set::axiom_set_insert_len(assoc_map(rest).dom(), s.last().0@);
    }
}

impl<T: Copy + Eq> View for Model<T> {
    type V = Map<Seq<T>, Seq<(Option<T>, nat)>>;

    closed spec fn view(&self) -> Map<Seq<T>, Seq<(Option<T>, nat)>> {
        assoc_map(self.tables@)
    }
}

impl<T: Copy + Eq> Model<T> {
    /// The order fixed when the model was created.
    pub closed spec fn spec_order(&self) -> nat {
        self.order as nat
    }

    /// The model's invariant: one table per context, each well formed
    /// and holding at least one observation, and every context window
    /// no longer than the order.
    pub closed spec fn wf(&self) -> bool {
        &&& keys_distinct(self.tables@)
        &&& forall|k: int|
            0 <= k < self.tables@.len() ==> (#[trigger] self.tables@[k]).1.wf()
                && self.tables@[k].1.spec_total() >= 1 && self.tables@[k].0@.len()
                <= self.order
    }

    /// Every table of a well-formed model is a well-formed, non-empty
    /// table model, and its context is no longer than the order.
    pub proof fn lemma_wf_tables(&self, key: Seq<T>)
        requires
            self.wf(),
            self@.contains_key(key),
        ensures
            table_wf(self@[key]),
            sum_freqs(self@[key]) >= 1,
            key.len() <= self.spec_order(),
    {
        lemma_assoc_contains(self.tables@, key);
        let k = choose|k: int| 0 <= k < self.tables@.len() && self.tables@[k].0@ == key;
        lemma_assoc_index(self.tables@, k);
    }

    /// Creates an empty Markov model of the given order: no contexts
    /// recorded. A first-order model conditions on one prior symbol, a
    /// second-order model on two, and an order of zero collapses every
    /// context into one.
    pub fn empty(order: usize) -> (m: Model<T>)
        ensures
            m.wf(),
            m@ == Map::<Seq<T>, Seq<(Option<T>, nat)>>::empty(),
            m.spec_order() == order as nat,
    {
        let m = Model { order, tables: Vec::new() };
        proof {
            assert(m@ =~= Map::<Seq<T>, Seq<(Option<T>, nat)>>::empty());
        }
        m
    }

    fn find_table(&self, seq: &Sequence<T>) -> (r: Option<usize>)
        requires
            obeys_structural_eq::<T>(),
        ensures
            match r {
                Some(i) => i < self.tables@.len() && self.tables@[i as int].0@ == seq@,
                None => forall|k: int|
                    0 <= k < self.tables@.len() ==> self.tables@[k].0@ != seq@,
            },
    {
        let len = self.tables.len();
        let mut i: usize = 0;
        while i < len
            invariant
                obeys_structural_eq::<T>(),
                i <= len,
                len == self.tables@.len(),
                forall|k: int| 0 <= k < i ==> self.tables@[k].0@ != seq@,
            decreases len - i,
        {
            if self.tables[i].0 == *seq {
                return Some(i);
            }
            i = i + 1;
        }
        None
    }

    /// How many distinct contexts have been observed.
    pub fn context_count(&self) -> (r: usize)
        requires
            self.wf(),
        ensures
            r as nat == self@.dom().len(),
    {
        proof {
            lemma_assoc_dom_len(self.tables@);
        }
        self.tables.len()
    }

    /// Record one training observation: the table for `seq` -- created
    /// empty if this context was never seen -- gains one observation of
    /// `next_symbol`.
    pub fn add(&mut self, seq: &Sequence<T>, next_symbol: Option<T>)
        requires
            old(self).wf(),
            obeys_structural_eq::<T>(),
            seq@.len() <= old(self).spec_order(),
            old(self)@.contains_key(seq@) ==> sum_freqs(old(self)@[seq@]) < usize::MAX,
        ensures
            final(self).wf(),
            final(self).spec_order() == old(self).spec_order(),
            final(self)@ == old(self)@.insert(
                seq@,
                spec_add(
                    if old(self)@.contains_key(seq@) {
                        old(self)@[seq@]
                    } else {
                        Seq::empty()
                    },
                    next_symbol,
                ),
            ),
    {
        match self.find_table(seq) {
            Some(i) => {
                proof {
                    lemma_assoc_contains(self.tables@, seq@);
                    lemma_assoc_index(self.tables@, i as int);
                }
                self.tables[i].1.add(next_symbol);
                proof {
                    lemma_assoc_update(
                        old(self).tables@,
                        i as int,
                        self.tables@[i as int],
                    );
                    assert(self.tables@ =~= old(self).tables@.update(
                        i as int,
                        self.tables@[i as int],
                    ));
                }
            },
            None => {
                proof {
                    lemma_assoc_contains(self.tables@, seq@);
                }
                let mut t = Table::empty();
                t.add(next_symbol);
                let key = seq.clone();
                self.tables.push((key, t));
                proof {
                    assert(self.tables@.drop_last() =~= old(self).tables@);
                    assert(forall|k: int|
                        0 <= k < old(self).tables@.len() ==> self.tables@[k] == old(
                            self,
                        ).tables@[k]);
                }
            },
        }
    }

    /// The next context window: `seq` advanced by one symbol under this
    /// model's order. The model itself is untouched.
    pub fn advance_sequence(&self, seq: &Sequence<T>, next_symbol: T) -> (r: Sequence<T>)
        ensures
            r@ == next_window(seq@, next_symbol, self.spec_order()),
    {
        seq.with_next(next_symbol, self.order)
    }

    /// The most probable next observation for `seq`: the most frequent
    /// entry of its table, or `None` if the context was never observed
    /// (or the end-of-sequence marker ranks highest).
    pub fn predict(&self, seq: &Sequence<T>) -> (r: Option<T>)
        requires
            self.wf(),
            obeys_structural_eq::<T>(),
        ensures
            r == spec_predict(self@, seq@),
    {
        match self.find_table(seq) {
            Some(i) => {
                proof {
                    lemma_assoc_contains(self.tables@, seq@);
                    lemma_assoc_index(self.tables@, i as int);
                }
                self.tables[i].1.most_frequent()
            },
            None => {
                proof {
                    lemma_assoc_contains(self.tables@, seq@);
                }
                None
            },
        }
    }

    /// Weighted sampling for `seq`: walk its table spending `target`
    /// units of weight, or `None` if the context was never observed.
    /// The caller derives `target` from its random draw as
    /// `floor(x * total)` for `x` in `[0, 1)`; any such target selects
    /// an entry.
    pub fn sample(&self, seq: &Sequence<T>, target: usize) -> (r: Option<T>)
        requires
            self.wf(),
            obeys_structural_eq::<T>(),
        ensures
            r == spec_model_sample(self@, seq@, target as int),
    {
        match self.find_table(seq) {
            Some(i) => {
                proof {
                    lemma_assoc_contains(self.tables@, seq@);
                    lemma_assoc_index(self.tables@, i as int);
                }
                self.tables[i].1.sample(target)
            },
            None => {
                proof {
                    lemma_assoc_contains(self.tables@, seq@);
                }
                None
            },
        }
    }

    /// The frequency table recorded for `seq`, if any.
    pub fn table_for(&self, seq: &Sequence<T>) -> (r: Option<&Table<T>>)
        requires
            self.wf(),
            obeys_structural_eq::<T>(),
        ensures
            match r {
                Some(t) => self@.contains_key(seq@) && t@ == self@[seq@] && t.wf(),
                None => !self@.contains_key(seq@),
            },
    {
        match self.find_table(seq) {
            Some(i) => {
                proof {
                    lemma_assoc_contains(self.tables@, seq@);
                    lemma_assoc_index(self.tables@, i as int);
                }
                Some(&self.tables[i].1)
            },
            None => {
                proof {
                    lemma_assoc_contains(self.tables@, seq@);
                }
                None
            },
        }
    }
}

/// Law: prediction on an unseen context returns `None`, and after a
/// single training observation for that context, prediction returns
/// exactly that observation.
pub proof fn lemma_unseen_then_trained<T>(
    m: Map<Seq<T>, Seq<(Option<T>, nat)>>,
    key: Seq<T>,
    sym: Option<T>,
)
    requires
        !m.contains_key(key),
    ensures
        spec_predict(m, key) == None::<T>,
        spec_predict(
            m.insert(key, spec_add(Seq::<(Option<T>, nat)>::empty(), sym)),
            key,
        ) == sym,
{
    crate::table::lemma_single_observation::<T>(sym);
}

} // verus!
