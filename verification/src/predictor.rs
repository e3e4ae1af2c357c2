use vstd::prelude::*;

verus! {

use crate::model::{spec_predict, Model};
use crate::obeys_structural_eq;
use crate::sequence::{next_window, Sequence};

/// A Predictor for finding the most probable future outcomes given past
/// history, based on a shared [`Model`].
///
/// Predictors never modify the underlying model.
pub struct Predictor<'a, T: Copy + Eq> {
    model: &'a Model<T>,
    current_sequence: Sequence<T>,
}

impl<'a, T: Copy + Eq> Predictor<'a, T> {
    /// The model predictions are based on.
    pub closed spec fn spec_model(&self) -> Map<Seq<T>, Seq<(Option<T>, nat)>> {
        self.model@
    }

    /// The current context window.
    pub closed spec fn spec_context(&self) -> Seq<T> {
        self.current_sequence@
    }

    /// The order of the underlying model.
    pub closed spec fn spec_order(&self) -> nat {
        self.model.spec_order()
    }

    /// The invariant: the model is well formed and the context window
    /// never exceeds the order.
    pub closed spec fn wf(&self) -> bool {
        &&& self.model.wf()
        &&& self.spec_context().len() <= self.spec_order()
    }

    /// Creates a Predictor which uses the given model, starting at the
    /// beginning of a sequence.
    pub fn new(model: &Model<T>) -> (p: Predictor<T>)
        ensures
            p.spec_model() == model@,
            p.spec_context() == Seq::<T>::empty(),
            p.spec_order() == model.spec_order(),
            model.wf() ==> p.wf(),
    {
        Predictor { model, current_sequence: Sequence::empty() }
    }

    /// Resets this Predictor so that the next symbol predicted will be
    /// the beginning of a sequence.
    pub fn end(&mut self)
        ensures
            final(self).spec_model() == old(self).spec_model(),
            final(self).spec_order() == old(self).spec_order(),
            final(self).spec_context() == Seq::<T>::empty(),
            old(self).wf() ==> final(self).wf(),
    {
        self.current_sequence = Sequence::empty();
    }

    /// Specifies a prior symbol upon which future predictions will be
    /// based: the context rolls forward by it, without querying the
    /// model.
    pub fn given(&mut self, symbol: T)
        ensures
            final(self).spec_model() == old(self).spec_model(),
            final(self).spec_order() == old(self).spec_order(),
            final(self).spec_context() == next_window(
                old(self).spec_context(),
                symbol,
                old(self).spec_order(),
            ),
            old(self).wf() ==> final(self).wf(),
    {
        self.current_sequence = self.model.advance_sequence(&self.current_sequence, symbol);
    }

    /// Predicts and returns the most probable next symbol for the
    /// current context, rolling the context forward by it when there is
    /// one; `None` -- leaving the context alone -- when the end of a
    /// sequence is reached (or the context was never observed).
    pub fn next(&mut self) -> (r: Option<T>)
        requires
            old(self).wf(),
            obeys_structural_eq::<T>(),
        ensures
            final(self).wf(),
            final(self).spec_model() == old(self).spec_model(),
            final(self).spec_order() == old(self).spec_order(),
            r == spec_predict(old(self).spec_model(), old(self).spec_context()),
            match r {
                Some(s) => final(self).spec_context() == next_window(
                    old(self).spec_context(),
                    s,
                    old(self).spec_order(),
                ),
                None => final(self).spec_context() == old(self).spec_context(),
            },
    {
        match self.model.predict(&self.current_sequence) {
            Some(s) => {
                self.current_sequence = self.model.advance_sequence(
                    &self.current_sequence,
                    s,
                );
                Some(s)
            },
            None => None,
        }
    }

    /// Predicts and returns the most probable next symbol for the
    /// current context without rolling the context forward; `None` when
    /// the end of a sequence is reached (or the context was never
    /// observed).
    pub fn predict(&self) -> (r: Option<T>)
        requires
            self.wf(),
            obeys_structural_eq::<T>(),
        ensures
            r == spec_predict(self.spec_model(), self.spec_context()),
    {
        self.model.predict(&self.current_sequence)
    }
}

} // verus!
