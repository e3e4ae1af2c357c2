use vstd::prelude::*;

verus! {

use crate::model::{spec_predict, Model};
use crate::obeys_structural_eq;
use crate::sequence::{next_window, Sequence};
use crate::table::{spec_add, sum_freqs};

/// An Accumulator for updating a [`Model`] with training data: it owns
/// the model while training, feeds it one symbol at a time, and keeps
/// the current context window rolled forward as it goes.
pub struct Accumulator<T: Copy + Eq> {
    model: Model<T>,
    current_sequence: Sequence<T>,
}

impl<T: Copy + Eq> Accumulator<T> {
    /// The model as trained so far.
    pub closed spec fn spec_model(&self) -> Map<Seq<T>, Seq<(Option<T>, nat)>> {
        self.model@
    }

    /// The current context window.
    pub closed spec fn spec_context(&self) -> Seq<T> {
        self.current_sequence@
    }

    /// The order of the model being trained.
    pub closed spec fn spec_order(&self) -> nat {
        self.model.spec_order()
    }

    /// The invariant: the model is well formed and the context window
    /// never exceeds the order.
    pub closed spec fn wf(&self) -> bool {
        &&& self.model.wf()
        &&& self.spec_context().len() <= self.spec_order()
    }

    /// Creates an Accumulator to update the given model, starting at
    /// the beginning of a sequence.
    pub fn new(model: Model<T>) -> (a: Accumulator<T>)
        ensures
            a.spec_model() == model@,
            a.spec_context() == Seq::<T>::empty(),
            a.spec_order() == model.spec_order(),
            model.wf() ==> a.wf(),
    {
        Accumulator { model, current_sequence: Sequence::empty() }
    }

    /// Adds the next symbol of the current sequence: the model records
    /// one observation of it for the current context, and the context
    /// rolls forward by that symbol.
    pub fn add(&mut self, symbol: T)
        requires
            old(self).wf(),
            obeys_structural_eq::<T>(),
            old(self).spec_model().contains_key(old(self).spec_context()) ==> sum_freqs(
                old(self).spec_model()[old(self).spec_context()],
            ) < usize::MAX,
        ensures
            final(self).wf(),
            final(self).spec_order() == old(self).spec_order(),
            final(self).spec_model() == old(self).spec_model().insert(
                old(self).spec_context(),
                spec_add(
                    if old(self).spec_model().contains_key(old(self).spec_context()) {
                        old(self).spec_model()[old(self).spec_context()]
                    } else {
                        Seq::empty()
                    },
                    Some(symbol),
                ),
            ),
            final(self).spec_context() == next_window(
                old(self).spec_context(),
                symbol,
                old(self).spec_order(),
            ),
    {
        self.model.add(&self.current_sequence, Some(symbol));
        self.current_sequence = self.model.advance_sequence(&self.current_sequence, symbol);
    }

    /// Marks the end of the current sequence: the model records one
    /// observation of the end-of-sequence marker for the current
    /// context, and the context resets to the beginning.
    pub fn end(&mut self)
        requires
            old(self).wf(),
            obeys_structural_eq::<T>(),
            old(self).spec_model().contains_key(old(self).spec_context()) ==> sum_freqs(
                old(self).spec_model()[old(self).spec_context()],
            ) < usize::MAX,
        ensures
            final(self).wf(),
            final(self).spec_order() == old(self).spec_order(),
            final(self).spec_model() == old(self).spec_model().insert(
                old(self).spec_context(),
                spec_add(
                    if old(self).spec_model().contains_key(old(self).spec_context()) {
                        old(self).spec_model()[old(self).spec_context()]
                    } else {
                        Seq::empty()
                    },
                    None,
                ),
            ),
            final(self).spec_context() == Seq::<T>::empty(),
    {
        self.model.add(&self.current_sequence, None);
        self.current_sequence = Sequence::empty();
    }

    /// The most probable next symbol for the current context; `None`
    /// when the end of a sequence is reached (or the context was never
    /// observed).
    pub fn predict(&self) -> (r: Option<T>)
        requires
            self.wf(),
            obeys_structural_eq::<T>(),
        ensures
            r == spec_predict(self.spec_model(), self.spec_context()),
    {
        self.model.predict(&self.current_sequence)
    }

    /// A view of the model trained so far.
    pub fn model(&self) -> (r: &Model<T>)
        ensures
            r@ == self.spec_model(),
            r.spec_order() == self.spec_order(),
            self.wf() ==> r.wf(),
    {
        &self.model
    }

    /// Finishes training and hands the model back.
    pub fn into_model(self) -> (r: Model<T>)
        ensures
            r@ == self.spec_model(),
            r.spec_order() == self.spec_order(),
            self.wf() ==> r.wf(),
    {
        self.model
    }
}

} // verus!
