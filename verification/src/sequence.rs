use vstd::prelude::*;

verus! {

use crate::obeys_structural_eq;

/// The window that follows `s` once `x` has been observed, for a model of
/// the given order: the most recent symbols of `s`, at most `order - 1` of
/// them, followed by `x`. Its length is `min(s.len() + 1, order)`; an order
/// of zero collapses every window to the empty one.
pub open spec fn next_window<T>(s: Seq<T>, x: T, order: nat) -> Seq<T> {
    let grown = s.push(x);
    if grown.len() <= order {
        grown
    } else {
        grown.skip(grown.len() - order)
    }
}

/// The window reached by starting from the empty window and rolling it
/// forward through every symbol of `history` in turn.
pub open spec fn window_after<T>(history: Seq<T>, order: nat) -> Seq<T>
    decreases history.len(),
{
    if history.len() == 0 {
        Seq::empty()
    } else {
        next_window(window_after(history.drop_last(), order), history.last(), order)
    }
}

/// `s` is a suffix of `h`.
pub open spec fn is_suffix_of<T>(s: Seq<T>, h: Seq<T>) -> bool {
    s.len() <= h.len() && s == h.skip(h.len() - s.len())
}

/// An immutable, order-preserving window of the most recent symbols,
/// used as the key that addresses a frequency table inside a model.
pub struct Sequence<T: Copy + Eq> {
    symbols: Vec<T>,
}

impl<T: Copy + Eq> View for Sequence<T> {
    type V = Seq<T>;

    closed spec fn view(&self) -> Seq<T> {
        self.symbols@
    }
}

impl<T: Copy + Eq> Sequence<T> {
    /// The zero-length window: no history yet.
    pub fn empty() -> (r: Sequence<T>)
        ensures
            r@ == Seq::<T>::empty(),
    {
        Sequence { symbols: Vec::new() }
    }

    /// The symbols of the window, oldest first.
    pub fn symbols(&self) -> (r: &Vec<T>)
        ensures
            r@ == self@,
    {
        &self.symbols
    }

    /// A fresh window holding this window's trailing symbols followed by
    /// `next_symbol`, never longer than `order`; this window is untouched.
    pub fn with_next(&self, next_symbol: T, order: usize) -> (r: Sequence<T>)
        ensures
            r@ == next_window(self@, next_symbol, order as nat),
    {
        let len = self.symbols.len();
        if order == 0 {
            let r = Sequence { symbols: Vec::new() };
            proof {
                assert(r@ =~= next_window(self@, next_symbol, order as nat));
            }
            return r;
        }
        let start: usize = if len < order {
            0
        } else {
            len - (order - 1)
        };
        let mut symbols: Vec<T> = Vec::new();
        let mut i: usize = start;
        while i < len
            invariant
                start <= i <= len,
                len == self@.len(),
                symbols@ == self@.subrange(start as int, i as int),
            decreases len - i,
        {
            symbols.push(self.symbols[i]);
            proof {
                assert(symbols@ =~= self@.subrange(start as int, i + 1));
            }
            i = i + 1;
        }
        symbols.push(next_symbol);
        let r = Sequence { symbols };
        proof {
            assert(r@ =~= next_window(self@, next_symbol, order as nat));
        }
        r
    }
}

impl<T: Copy + Eq> Clone for Sequence<T> {
    fn clone(&self) -> (r: Self)
        ensures
            r@ == self@,
    {
        let len = self.symbols.len();
        let mut symbols: Vec<T> = Vec::new();
        let mut i: usize = 0;
        while i < len
            invariant
                i <= len,
                len == self@.len(),
                symbols@ == self@.subrange(0, i as int),
            decreases len - i,
        {
            symbols.push(self.symbols[i]);
            proof {
                assert(symbols@ =~= self@.subrange(0, i + 1));
            }
            i = i + 1;
        }
        proof {
            assert(symbols@ =~= self@);
        }
        Sequence { symbols }
    }
}

impl<T: Copy + Eq> PartialEq for Sequence<T> {
    fn eq(&self, other: &Sequence<T>) -> (r: bool) {
        let len = self.symbols.len();
        if len != other.symbols.len() {
            return false;
        }
        let mut i: usize = 0;
        while i < len
            invariant
                i <= len,
                len == self@.len(),
                len == other@.len(),
                obeys_structural_eq::<T>() ==> (forall|k: int|
                    0 <= k < i ==> self@[k] == other@[k]),
            decreases len - i,
        {
            if !(self.symbols[i] == other.symbols[i]) {
                return false;
            }
            i = i + 1;
        }
        proof {
            if obeys_structural_eq::<T>() {
                assert(self@ =~= other@);
            }
        }
        true
    }
}

impl<T: Copy + Eq> vstd::std_specs::cmp::PartialEqSpecImpl for Sequence<T> {
    open spec fn obeys_eq_spec() -> bool {
        obeys_structural_eq::<T>()
    }

    open spec fn eq_spec(&self, other: &Sequence<T>) -> bool {
        self@ == other@
    }
}

/// Law: however far a window is rolled forward through a history of
/// symbols, its length never exceeds the order, and its contents are
/// always a suffix of that history.
pub proof fn lemma_window_is_bounded_suffix<T>(history: Seq<T>, order: nat)
    ensures
        window_after(history, order).len() <= order,
        is_suffix_of(window_after(history, order), history),
    decreases history.len(),
{
    if history.len() == 0 {
        assert(window_after(history, order) =~= history.skip(0));
    } else {
        let prior = history.drop_last();
        let w = window_after(prior, order);
        lemma_window_is_bounded_suffix(prior, order);
        let grown = w.push(history.last());
        assert(grown =~= history.skip(history.len() - grown.len()));
        if grown.len() > order {
            assert(grown.skip(grown.len() - order) =~= history.skip(
                history.len() - order,
            ));
        }
    }
}

} // verus!
