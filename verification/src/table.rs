use vstd::prelude::*;

verus! {

use crate::obeys_structural_eq;
use vstd::std_specs::cmp::PartialEqSpec;

// The mathematical model of a frequency table is a sequence of entries,
// each pairing an observation -- `Some(symbol)` or `None` for the
// end-of-sequence marker -- with how often it has been observed.

/// The sum of all entry frequencies.
pub open spec fn sum_freqs<T>(s: Seq<(Option<T>, nat)>) -> nat
    decreases s.len(),
{
    if s.len() == 0 {
        0
    } else {
        s.first().1 + sum_freqs(s.drop_first())
    }
}

/// Entries are ordered by descending frequency.
pub open spec fn sorted_desc<T>(s: Seq<(Option<T>, nat)>) -> bool {
    forall|a: int, b: int| 0 <= a <= b < s.len() ==> s[a].1 >= s[b].1
}

/// No observation appears in two entries.
pub open spec fn distinct_symbols<T>(s: Seq<(Option<T>, nat)>) -> bool {
    forall|a: int, b: int| 0 <= a < b < s.len() ==> s[a].0 != s[b].0
}

/// Every entry has been observed at least once.
pub open spec fn freqs_positive<T>(s: Seq<(Option<T>, nat)>) -> bool {
    forall|k: int| 0 <= k < s.len() ==> s[k].1 >= 1
}

/// A well-formed table model: sorted by descending frequency, one entry
/// per distinct observation, every frequency positive.
pub open spec fn table_wf<T>(s: Seq<(Option<T>, nat)>) -> bool {
    sorted_desc(s) && distinct_symbols(s) && freqs_positive(s)
}

/// Some entry records this observation.
pub open spec fn has_symbol<T>(s: Seq<(Option<T>, nat)>, sym: Option<T>) -> bool {
    exists|k: int| 0 <= k < s.len() && s[k].0 == sym
}

/// The first position at or after `from` whose entry records `sym`,
/// or -1 if there is none.
pub open spec fn find_symbol<T>(s: Seq<(Option<T>, nat)>, sym: Option<T>, from: int) -> int
    decreases s.len() - from,
{
    if from < 0 || from >= s.len() {
        -1
    } else if s[from].0 == sym {
        from
    } else {
        find_symbol(s, sym, from + 1)
    }
}

/// The first position at or after `from` whose frequency is at most `f`,
/// or the length of `s` if there is none.
pub open spec fn first_not_above<T>(s: Seq<(Option<T>, nat)>, f: nat, from: int) -> int
    decreases s.len() - from,
{
    if from < 0 || from >= s.len() {
        s.len() as int
    } else if s[from].1 <= f {
        from
    } else {
        first_not_above(s, f, from + 1)
    }
}

/// The frequency recorded for an observation; zero if it has no entry.
pub open spec fn spec_frequency<T>(s: Seq<(Option<T>, nat)>, sym: Option<T>) -> nat {
    if has_symbol(s, sym) {
        s[find_symbol(s, sym, 0)].1
    } else {
        0
    }
}

/// The table model after one more observation of `sym`: a new entry of
/// frequency one is appended for a first observation; otherwise the
/// entry's frequency grows by one and the entry moves forward, past
/// exactly the entries whose frequency is now strictly lower, and in
/// front of none of equal rank.
pub open spec fn spec_add<T>(s: Seq<(Option<T>, nat)>, sym: Option<T>) -> Seq<(Option<T>, nat)> {
    if has_symbol(s, sym) {
        let i = find_symbol(s, sym, 0);
        let f = s[i].1;
        let j = first_not_above(s, f, 0);
        s.subrange(0, j).push((sym, (f + 1) as nat)) + s.subrange(j, i) + s.subrange(
            i + 1,
            s.len() as int,
        )
    } else {
        s.push((sym, 1))
    }
}

/// The observation of the highest-ranked entry; `None` for an empty
/// table. A `None` can also mean that the end-of-sequence marker ranks
/// highest: the two cases are deliberately not distinguished.
pub open spec fn spec_most_frequent<T>(s: Seq<(Option<T>, nat)>) -> Option<T> {
    if s.len() == 0 {
        None
    } else {
        s[0].0
    }
}

/// The entry selected by walking the table in order and spending
/// `target` units of weight, each entry absorbing its frequency; `None`
/// once `target` runs past the total weight.
pub open spec fn spec_pick<T>(s: Seq<(Option<T>, nat)>, target: int) -> Option<Option<T>>
    decreases s.len(),
{
    if s.len() == 0 {
        None
    } else if target < s.first().1 {
        Some(s.first().0)
    } else {
        spec_pick(s.drop_first(), target - s.first().1)
    }
}

/// What sampling returns: the selected entry's observation, where both
/// "ran past the end" and "the end-of-sequence marker was selected"
/// collapse to `None`.
pub open spec fn spec_sample<T>(s: Seq<(Option<T>, nat)>, target: int) -> Option<T> {
    match spec_pick(s, target) {
        Some(chosen) => chosen,
        None => None,
    }
}

/// The table model reached from the empty table by the given
/// observations, in order.
pub open spec fn table_after<T>(adds: Seq<Option<T>>) -> Seq<(Option<T>, nat)>
    decreases adds.len(),
{
    if adds.len() == 0 {
        Seq::empty()
    } else {
        spec_add(table_after(adds.drop_last()), adds.last())
    }
}

pub proof fn lemma_sum_concat<T>(a: Seq<(Option<T>, nat)>, b: Seq<(Option<T>, nat)>)
    ensures
        sum_freqs(a + b) == sum_freqs(a) + sum_freqs(b),
    decreases a.len(),
{
    if a.len() == 0 {
        assert(a + b =~= b);
    } else {
        assert((a + b).drop_first() =~= a.drop_first() + b);
        lemma_sum_concat(a.drop_first(), b);
    }
}

pub proof fn lemma_sum_singleton<T>(e: (Option<T>, nat))
    ensures
        sum_freqs(seq![e]) == e.1,
{
    assert(seq![e].drop_first() =~= Seq::<(Option<T>, nat)>::empty());
    assert(sum_freqs(Seq::<(Option<T>, nat)>::empty()) == 0);
}

/// No single frequency exceeds the sum of all of them.
pub proof fn lemma_freq_le_sum<T>(s: Seq<(Option<T>, nat)>, k: int)
    requires
        0 <= k < s.len(),
    ensures
        s[k].1 <= sum_freqs(s),
    decreases s.len(),
{
    if k > 0 {
        lemma_freq_le_sum(s.drop_first(), k - 1);
    }
}

pub proof fn lemma_find_symbol<T>(s: Seq<(Option<T>, nat)>, sym: Option<T>, from: int)
    requires
        0 <= from <= s.len(),
    ensures
        ({
            let r = find_symbol(s, sym, from);
            &&& (r == -1 ==> forall|k: int| from <= k < s.len() ==> s[k].0 != sym)
            &&& (r != -1 ==> from <= r < s.len() && s[r].0 == sym && (forall|k: int|
                from <= k < r ==> s[k].0 != sym))
        }),
    decreases s.len() - from,
{
    if from < s.len() && s[from].0 != sym {
        lemma_find_symbol(s, sym, from + 1);
    }
}

pub proof fn lemma_first_not_above<T>(s: Seq<(Option<T>, nat)>, f: nat, from: int)
    requires
        0 <= from <= s.len(),
    ensures
        ({
            let r = first_not_above(s, f, from);
            &&& from <= r <= s.len()
            &&& (forall|k: int| from <= k < r ==> s[k].1 > f)
            &&& (r < s.len() ==> s[r].1 <= f)
        }),
    decreases s.len() - from,
{
    if from < s.len() && s[from].1 > f {
        lemma_first_not_above(s, f, from + 1);
    }
}

/// Law: an incremented entry overtakes exactly the entries whose
/// frequency is strictly lower than its new one, and never an entry of
/// equal or higher rank; every other entry keeps its relative order.
/// With `i` the entry's old position, `f` its old frequency and `j` its
/// new position, the entries above `j` are untouched and all outrank the
/// new frequency, the overtaken entries slide down one place in their
/// old order, and the entries after `i` are untouched.
pub proof fn lemma_add_overtakes_only_lower<T>(s: Seq<(Option<T>, nat)>, sym: Option<T>)
    requires
        table_wf(s),
        has_symbol(s, sym),
    ensures
        ({
            let i = find_symbol(s, sym, 0);
            let f = s[i].1;
            let j = first_not_above(s, f, 0);
            let t = spec_add(s, sym);
            &&& 0 <= j <= i < s.len()
            &&& s[i].0 == sym
            &&& t.len() == s.len()
            &&& t[j] == (sym, (f + 1) as nat)
            &&& (forall|k: int| 0 <= k < j ==> t[k] == s[k] && s[k].1 >= f + 1)
            &&& (forall|k: int| j < k <= i ==> t[k] == s[k - 1])
            &&& (forall|k: int| j <= k < i ==> s[k].1 == f)
            &&& (forall|k: int| i < k < s.len() ==> t[k] == s[k])
        }),
{
    let i = find_symbol(s, sym, 0);
    lemma_find_symbol(s, sym, 0);
    let f = s[i].1;
    let j = first_not_above(s, f, 0);
    lemma_first_not_above(s, f, 0);
    assert(0 <= i < s.len());
    assert(j <= i) by {
        if j > i {
            assert(s[i].1 > f);
        }
    }
    let t = spec_add(s, sym);
    let front = s.subrange(0, j).push((sym, (f + 1) as nat));
    let middle = s.subrange(j, i);
    let back = s.subrange(i + 1, s.len() as int);
    assert(t == front + middle + back);
    assert(front.len() == j + 1);
    assert(t.len() == s.len());
    assert(forall|k: int| 0 <= k < j ==> t[k] == s[k] && s[k].1 >= f + 1);
    assert(t[j] == front[j]);
    assert(t[j] == (sym, (f + 1) as nat));
    assert(forall|k: int| j < k <= i ==> t[k] == middle[k - j - 1]);
    assert(forall|k: int| j <= k < i ==> s[k].1 == f) by {
        assert(forall|k: int| j <= k < i ==> s[k].1 >= s[i].1 && (j < s.len() && s[j].1
            >= s[k].1));
    }
    assert(forall|k: int| i < k < s.len() ==> t[k] == back[k - i - 1]);
}

/// Training keeps a table well formed, and one observation raises the
/// frequency sum by exactly one.
pub proof fn lemma_spec_add_wf<T>(s: Seq<(Option<T>, nat)>, sym: Option<T>)
    requires
        table_wf(s),
    ensures
        table_wf(spec_add(s, sym)),
        sum_freqs(spec_add(s, sym)) == sum_freqs(s) + 1,
        spec_add(s, sym).len() == if has_symbol(s, sym) {
            s.len()
        } else {
            s.len() + 1
        },
{
    let t = spec_add(s, sym);
    if !has_symbol(s, sym) {
        assert(t =~= s + seq![(sym, 1nat)]);
        lemma_sum_concat(s, seq![(sym, 1nat)]);
        lemma_sum_singleton((sym, 1nat));
        assert(forall|k: int| 0 <= k < s.len() ==> s[k].0 != sym);
        assert(forall|a: int, b: int| 0 <= a <= b < t.len() ==> t[a].1 >= t[b].1);
    } else {
        let i = find_symbol(s, sym, 0);
        let f = s[i].1;
        let j = first_not_above(s, f, 0);
        lemma_add_overtakes_only_lower(s, sym);
        lemma_find_symbol(s, sym, 0);
        lemma_first_not_above(s, f, 0);
        // sortedness, one region pair at a time
        assert forall|a: int, b: int| 0 <= a <= b < t.len() implies t[a].1 >= t[b].1 by {
            if a < j {
                assert(t[a] == s[a]);
            }
            if j < a && a <= i {
                assert(t[a] == s[a - 1]);
            }
            if i < a {
                assert(t[a] == s[a]);
            }
            if b < j {
                assert(t[b] == s[b]);
            }
            if j < b && b <= i {
                assert(t[b] == s[b - 1]);
            }
            if i < b {
                assert(t[b] == s[b]);
            }
        }
        // distinctness: positions map injectively back to old positions
        assert forall|a: int, b: int| 0 <= a < b < t.len() implies t[a].0 != t[b].0 by {
            let sa = if a == j {
                i
            } else if j < a && a <= i {
                a - 1
            } else {
                a
            };
            let sb = if b == j {
                i
            } else if j < b && b <= i {
                b - 1
            } else {
                b
            };
            assert(t[a].0 == s[sa].0);
            assert(t[b].0 == s[sb].0);
            assert(sa != sb);
            assert(s[sa].0 != s[sb].0);
        }
        assert(freqs_positive(t));
        // the sum: decompose both sequences around the moved entry
        let fa = s.subrange(0, j);
        let fm = s.subrange(j, i);
        let fe = s.subrange(i, i + 1);
        let fb = s.subrange(i + 1, s.len() as int);
        assert(s =~= fa + fm + fe + fb);
        lemma_sum_concat(fa + fm + fe, fb);
        lemma_sum_concat(fa + fm, fe);
        lemma_sum_concat(fa, fm);
        assert(fe =~= seq![s[i]]);
        lemma_sum_singleton(s[i]);
        let fr = fa.push((sym, (f + 1) as nat));
        assert(t == fr + fm + fb);
        lemma_sum_concat(fr + fm, fb);
        lemma_sum_concat(fr, fm);
        assert(fr =~= fa + seq![(sym, (f + 1) as nat)]);
        lemma_sum_concat(fa, seq![(sym, (f + 1) as nat)]);
        lemma_sum_singleton((sym, (f + 1) as nat));
    }
}

/// Law: the first observation added to an empty table makes a single
/// entry of frequency one, and that observation becomes the
/// most-frequent one.
pub proof fn lemma_single_observation<T>(sym: Option<T>)
    ensures
        spec_add(Seq::<(Option<T>, nat)>::empty(), sym) == seq![(sym, 1nat)],
        spec_most_frequent(spec_add(Seq::<(Option<T>, nat)>::empty(), sym)) == sym,
{
    assert(spec_add(Seq::<(Option<T>, nat)>::empty(), sym) =~= seq![(sym, 1nat)]);
}

/// Law: after any sequence of observations on an initially empty table,
/// the entry frequencies sum to the number of observations, and the
/// entries are sorted by descending frequency (the table stays well
/// formed).
pub proof fn lemma_training_counts_observations<T>(adds: Seq<Option<T>>)
    ensures
        table_wf(table_after(adds)),
        sum_freqs(table_after(adds)) == adds.len(),
    decreases adds.len(),
{
    if adds.len() == 0 {
        assert(sum_freqs(table_after(adds)) == 0);
    } else {
        lemma_training_counts_observations(adds.drop_last());
        lemma_spec_add_wf(table_after(adds.drop_last()), adds.last());
    }
}

/// Law: a weight of zero selects the highest-ranked entry of any
/// non-empty table whose frequencies are positive.
pub proof fn lemma_pick_zero<T>(s: Seq<(Option<T>, nat)>)
    requires
        s.len() > 0,
        freqs_positive(s),
    ensures
        spec_pick(s, 0) == Some(s[0].0),
        spec_sample(s, 0) == s[0].0,
{
    assert(s[0].1 >= 1);
}

/// Law: any weight below the frequency sum selects an entry; walking
/// the table cannot run past its end.
pub proof fn lemma_pick_within_total<T>(s: Seq<(Option<T>, nat)>, target: int)
    requires
        0 <= target < sum_freqs(s),
    ensures
        spec_pick(s, target) is Some,
    decreases s.len(),
{
    if s.len() > 0 && target >= s.first().1 {
        lemma_pick_within_total(s.drop_first(), target - s.first().1);
    }
}

proof fn lemma_option_eq_spec<T: Copy + Eq>(a: Option<T>, b: Option<T>)
    requires
        obeys_structural_eq::<T>(),
    ensures
        a.eq_spec(&b) <==> a == b,
{
    match (a, b) {
        (Some(x), Some(y)) => {
            assert(x.eq_spec(&y) <==> x == y);
        },
        _ => {},
    }
}

struct TableEntry<T: Copy + Eq> {
    frequency: usize,
    symbol: Option<T>,
}

impl<T: Copy + Eq> Clone for TableEntry<T> {
    fn clone(&self) -> (r: Self)
        ensures
            r == *self,
    {
        TableEntry { frequency: self.frequency, symbol: self.symbol }
    }
}

impl<T: Copy + Eq> Copy for TableEntry<T> {

}

/// A per-context frequency table: it records how often each observation
/// -- a successor symbol, or the end-of-sequence marker -- has followed
/// the owning context, and keeps its entries sorted by descending
/// frequency after every single increment.
pub struct Table<T: Copy + Eq> {
    total_symbols: usize,
    entries: Vec<TableEntry<T>>,
}

impl<T: Copy + Eq> View for Table<T> {
    type V = Seq<(Option<T>, nat)>;

    closed spec fn view(&self) -> Seq<(Option<T>, nat)> {
        Seq::new(
            self.entries@.len(),
            |k: int| (self.entries@[k].symbol, self.entries@[k].frequency as nat),
        )
    }
}

impl<T: Copy + Eq> Table<T> {
    /// The number of observations ever recorded.
    pub closed spec fn spec_total(&self) -> nat {
        self.total_symbols as nat
    }

    /// The table's invariant: a well-formed entry model whose
    /// frequencies sum to the recorded total.
    pub open spec fn wf(&self) -> bool {
        &&& table_wf(self@)
        &&& self.spec_total() == sum_freqs(self@)
        &&& self.spec_total() <= usize::MAX
    }

    /// A table with no entries and no observations.
    pub fn empty() -> (t: Table<T>)
        ensures
            t.wf(),
            t@ == Seq::<(Option<T>, nat)>::empty(),
            t.spec_total() == 0,
    {
        let t = Table { total_symbols: 0, entries: Vec::new() };
        proof {
            assert(t@ =~= Seq::<(Option<T>, nat)>::empty());
        }
        t
    }

    /// How many observations have been recorded in total.
    pub fn total_symbols(&self) -> (r: usize)
        ensures
            r as nat == self.spec_total(),
    {
        self.total_symbols
    }

    /// How many distinct observations have an entry.
    pub fn entry_count(&self) -> (r: usize)
        ensures
            r as nat == self@.len(),
    {
        self.entries.len()
    }

    fn find_entry(&self, symbol: &Option<T>) -> (r: Option<usize>)
        requires
            obeys_structural_eq::<T>(),
        ensures
            match r {
                Some(i) => i < self@.len() && self@[i as int].0 == *symbol && (forall|k: int|
                    0 <= k < i ==> self@[k].0 != *symbol),
                None => forall|k: int| 0 <= k < self@.len() ==> self@[k].0 != *symbol,
            },
    {
        let len = self.entries.len();
        let mut i: usize = 0;
        while i < len
            invariant
                obeys_structural_eq::<T>(),
                i <= len,
                len == self@.len(),
                forall|k: int| 0 <= k < i ==> self@[k].0 != *symbol,
            decreases len - i,
        {
            let hit = self.entries[i].symbol == *symbol;
            proof {
                lemma_option_eq_spec(self.entries@[i as int].symbol, *symbol);
            }
            if hit {
                return Some(i);
            }
            i = i + 1;
        }
        None
    }

    /// The frequency recorded for an observation; zero if it was never
    /// added.
    pub fn frequency(&self, symbol: &Option<T>) -> (r: usize)
        requires
            obeys_structural_eq::<T>(),
        ensures
            r as nat == spec_frequency(self@, *symbol),
    {
        match self.find_entry(symbol) {
            Some(i) => {
                proof {
                    lemma_find_symbol(self@, *symbol, 0);
                }
                self.entries[i].frequency
            },
            None => 0,
        }
    }

    /// Record one observation: a first-time observation gains a new
    /// entry of frequency one at the end; a known one has its entry's
    /// frequency raised by one and restored to its rank, moving past
    /// strictly lower frequencies only.
    pub fn add(&mut self, symbol: Option<T>)
        requires
            old(self).wf(),
            old(self).spec_total() < usize::MAX,
            obeys_structural_eq::<T>(),
        ensures
            final(self).wf(),
            final(self)@ == spec_add(old(self)@, symbol),
            final(self).spec_total() == old(self).spec_total() + 1,
    {
        proof {
            lemma_spec_add_wf(old(self)@, symbol);
        }
        match self.find_entry(&symbol) {
            Some(i) => {
                proof {
                    lemma_freq_le_sum(self@, i as int);
                    lemma_find_symbol(old(self)@, symbol, 0);
                }
                let f = self.entries[i].frequency;
                let mut e = self.entries[i];
                e.frequency = f + 1;
                self.entries[i] = e;
                proof {
                    assert(self@ =~= old(self)@.update(
                        i as int,
                        (old(self)@[i as int].0, (f + 1) as nat),
                    ));
                }
                self.sort_entry(i);
                proof {
                    self.lemma_sorted_matches_spec_add(old(self)@, symbol, i as int, f as nat);
                }
            },
            None => {
                self.entries.push(TableEntry { frequency: 1, symbol });
                proof {
                    assert(self@ =~= old(self)@.push((symbol, 1nat)));
                }
            },
        }
        self.total_symbols = self.total_symbols + 1;
    }

    /// After the increment and the re-sort, the entry model is exactly
    /// `spec_add` of the old one.
    proof fn lemma_sorted_matches_spec_add(
        &self,
        s: Seq<(Option<T>, nat)>,
        symbol: Option<T>,
        i: int,
        f: nat,
    )
        requires
            table_wf(s),
            0 <= i < s.len(),
            s[i].0 == symbol,
            s[i].1 == f,
            forall|k: int| 0 <= k < i ==> s[k].0 != symbol,
            exists|j: int|
                #[trigger] sorted_move(s.update(i, (s[i].0, (f + 1) as nat)), i, j, self@),
        ensures
            self@ == spec_add(s, symbol),
    {
        let s1 = s.update(i, (s[i].0, (f + 1) as nat));
        let j = choose|j: int| sorted_move(s1, i, j, self@);
        lemma_find_symbol(s, symbol, 0);
        assert(find_symbol(s, symbol, 0) == i);
        let jj = first_not_above(s, f, 0);
        lemma_first_not_above(s, f, 0);
        assert(jj <= i) by {
            if jj > i {
                assert(s[i].1 > f);
            }
        }
        // the stopping point of the swap loop is the first position whose
        // frequency does not exceed the old frequency
        assert(j == jj) by {
            if j < jj {
                assert(s1[j] == s[j]);
                assert(s[j].1 > f);
                assert(j < i);
                assert(s1[j].1 < s1[i].1);
            } else if j > jj {
                assert(s1[j - 1].1 >= s1[i].1);
                assert(j - 1 >= jj);
                assert(s[j - 1] == s1[j - 1]);
                assert(s[jj].1 <= f);
                assert(s[jj].1 >= s[j - 1].1);
            }
        }
        lemma_add_overtakes_only_lower(s, symbol);
        assert(self@ =~= spec_add(s, symbol)) by {
            assert(forall|k: int| 0 <= k < j ==> self@[k] == s1[k] && s1[k] == s[k]);
            assert(self@[j] == s1[i]);
            assert(forall|k: int| j < k <= i ==> self@[k] == s1[k - 1] && s1[k - 1] == s[k
                - 1]);
            assert(forall|k: int| i < k < s.len() ==> self@[k] == s1[k] && s1[k] == s[k]);
        }
    }

    fn sort_entry(&mut self, index: usize)
        requires
            index < old(self)@.len(),
            forall|a: int, b: int|
                0 <= a <= b < old(self)@.len() && a != index && b != index ==> old(
                    self,
                )@[a].1 >= old(self)@[b].1,
            forall|b: int|
                index <= b < old(self)@.len() ==> old(self)@[index as int].1 >= old(
                    self,
                )@[b].1,
        ensures
            final(self).spec_total() == old(self).spec_total(),
            exists|j: int| #[trigger] sorted_move(old(self)@, index as int, j, final(self)@),
    {
        let ghost s0 = self@;
        let mut j: usize = index;
        while j > 0 && self.entries[j - 1].frequency < self.entries[j].frequency
            invariant
                j <= index < s0.len(),
                self@.len() == s0.len(),
                self.spec_total() == old(self).spec_total(),
                forall|k: int| 0 <= k < j ==> self@[k] == s0[k],
                self@[j as int] == s0[index as int],
                forall|k: int| j < k <= index ==> self@[k] == s0[k - 1],
                forall|k: int| index < k < s0.len() ==> self@[k] == s0[k],
                forall|k: int| j <= k < index ==> s0[k].1 < s0[index as int].1,
            decreases j,
        {
            let lower = self.entries[j - 1];
            let upper = self.entries[j];
            let ghost prev = self@;
            self.entries[j - 1] = upper;
            self.entries[j] = lower;
            proof {
                assert(forall|k: int|
                    0 <= k < s0.len() && k != j - 1 && k != j ==> self@[k] == prev[k]);
                assert(self@[j as int - 1] == prev[j as int]);
                assert(self@[j as int] == prev[j as int - 1]);
                assert forall|k: int| j as int - 1 < k <= index as int implies self@[k] == s0[k
                    - 1] by {
                    if k == j as int {
                        assert(prev[j as int - 1] == s0[j as int - 1]);
                    } else {
                        assert(self@[k] == prev[k]);
                    }
                }
            }
            j = j - 1;
        }
        proof {
            assert(sorted_move(s0, index as int, j as int, self@));
        }
    }

    /// The highest-ranked observation, or `None` for an empty table (or
    /// when the end-of-sequence marker ranks highest).
    pub fn most_frequent(&self) -> (r: Option<T>)
        ensures
            r == spec_most_frequent(self@),
    {
        if self.entries.len() == 0 {
            None
        } else {
            self.entries[0].symbol
        }
    }

    /// Weighted selection: walk the entries in rank order, spending
    /// `target` units of weight; an entry absorbs its frequency. For any
    /// `target` below the total this selects an entry; past the total it
    /// returns `None`. The caller derives `target` from its random draw
    /// as `floor(x * total)` for `x` in `[0, 1)`.
    pub fn sample(&self, target: usize) -> (r: Option<T>)
        ensures
            r == spec_sample(self@, target as int),
    {
        let len = self.entries.len();
        let mut remaining = target;
        let mut i: usize = 0;
        proof {
            assert(self@.skip(0) =~= self@);
        }
        while i < len
            invariant
                i <= len,
                len == self@.len(),
                remaining <= target,
                spec_pick(self@, target as int) == spec_pick(
                    self@.skip(i as int),
                    remaining as int,
                ),
            decreases len - i,
        {
            let e = self.entries[i];
            if remaining < e.frequency {
                return e.symbol;
            }
            proof {
                assert(self@.skip(i as int).drop_first() =~= self@.skip(i + 1));
            }
            remaining = remaining - e.frequency;
            i = i + 1;
        }
        proof {
            assert(self@.skip(len as int) =~= Seq::<(Option<T>, nat)>::empty());
        }
        None
    }
}

/// The moved entry of `s0` at `index` has come to rest at `j`: the
/// entries before `j` are untouched, the moved entry sits at `j`, the
/// entries it passed -- all of strictly lower frequency -- have slid
/// down one place in their old order, and the rest are untouched.
spec fn sorted_move<T>(
    s0: Seq<(Option<T>, nat)>,
    index: int,
    j: int,
    s1: Seq<(Option<T>, nat)>,
) -> bool {
    &&& 0 <= j <= index < s0.len()
    &&& s1.len() == s0.len()
    &&& (forall|k: int| 0 <= k < j ==> s1[k] == s0[k])
    &&& s1[j] == s0[index]
    &&& (forall|k: int| j < k <= index ==> s1[k] == s0[k - 1])
    &&& (forall|k: int| index < k < s0.len() ==> s1[k] == s0[k])
    &&& (forall|k: int| j <= k < index ==> s0[k].1 < s0[index].1)
    &&& (j > 0 ==> s0[j - 1].1 >= s0[index].1)
}

} // verus!
