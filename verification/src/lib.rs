//! Variable-order Markov chain models over caller-supplied symbol types.
//!
//! A [`Model`] maps bounded windows of recent symbols ([`Sequence`]) to
//! per-context frequency tables ([`Table`]), and offers training (`add`),
//! most-probable-next-symbol prediction (`predict`) and weighted sampling
//! (`sample`). [`Accumulator`] feeds training data one symbol at a time;
//! [`Predictor`] walks the most probable continuation of a context.

use vstd::prelude::*;

mod accumulator;
mod model;
mod predictor;
mod sequence;
mod table;

pub use accumulator::Accumulator;
pub use model::Model;
pub use predictor::Predictor;
pub use sequence::Sequence;
pub use table::Table;

verus! {

use vstd::std_specs::cmp::PartialEqSpec;

/// The symbol type's `==` operator is known to decide logical equality.
///
/// Symbols only have to be cheap to copy and equality-comparable; this
/// predicate is how the contracts state the latter: the type's `PartialEq`
/// obeys its specification, and that specification coincides with
/// structural equality. It holds for the primitive types.
pub open spec fn obeys_structural_eq<T: PartialEqSpec>() -> bool {
    &&& T::obeys_eq_spec()
    &&& forall|a: T, b: T| #[trigger] a.eq_spec(&b) <==> a == b
}

} // verus!
