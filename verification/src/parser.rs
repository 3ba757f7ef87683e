//! The parser-combinator core: a grammar is assembled by chaining typed
//! steps over a shared item/error pair. Each step consumes items from a
//! [`Cursor`](crate::cursor::Cursor) and produces a composed output or the
//! first error, in strict left-to-right, depth-first order, with no
//! backtracking.
//!
//! The behaviour of a step is captured by the relation
//! [`ParserStep::outcome`]: `outcome(input, r, rest)` holds exactly of the
//! results `r` and leftover inputs `rest` that an execution of the step on
//! `input` may produce. The relation is relational rather than functional
//! because the predicates and extractors supplied by the grammar are
//! arbitrary closures, of which only their own contracts are known; each
//! step records the judgement of its closure as a ghost relation, which its
//! constructor ties to the closure's contract.

pub mod compose;
pub mod laws;
pub mod match_step;
pub mod optional_step;
pub mod take_step;
pub mod then_step;
pub mod transform_step;

use vstd::prelude::*;

use crate::cursor::Cursor;

pub use self::compose::{
    match_item,
    optional,
    optional_match_transform,
    optional_take_transform,
    take,
    then,
    transform,
};
pub use self::match_step::Match;
pub use self::optional_step::{Optional, OptionalMatchTransform, OptionalTakeTransform};
pub use self::take_step::Take;
pub use self::then_step::Then;
pub use self::transform_step::Transform;

verus! {

/// The root of every combinator chain: a step that consumes nothing and
/// produces `()`, fixing the item type `I` and error type `E` of the chain.
pub struct Parser<I, E: Clone> {
    _items: core::marker::PhantomData<(I, E)>,
}

impl<I, E: Clone> Parser<I, E> {
    /// An empty chain over items `I` and errors `E`.
    pub fn new() -> Self {
        Parser { _items: core::marker::PhantomData }
    }
}

/// A stage of a combinator chain: it fixes the item type the chain consumes,
/// the output it produces and the error it can raise.
pub trait ParserBase: Sized {
    type Output;

    type Item;

    type Error: Clone;
}

impl<I, E: Clone> ParserBase for Parser<I, E> {
    type Output = ();

    type Item = I;

    type Error = E;
}

/// An executable stage of a combinator chain.
pub trait ParserStep: ParserBase {
    /// The input/result/leftover relation of the step: every execution of
    /// the step on the items `input` returns a result `r` and leaves a
    /// leftover `rest` admitted by this relation.
    spec fn outcome(
        &self,
        input: Seq<Self::Item>,
        r: Result<Self::Output, Self::Error>,
        rest: Seq<Self::Item>,
    ) -> bool;

    /// Runs the step at the cursor's position, consuming the items the step
    /// commits to and returning the composed output or the first error.
    fn execute(&self, cursor: &mut Cursor<Self::Item>) -> (r: Result<Self::Output, Self::Error>)
        ensures
            self.outcome(old(cursor)@, r, final(cursor)@),
            final(cursor)@.len() <= old(cursor)@.len(),
            final(cursor)@ == old(cursor)@.skip(
                old(cursor)@.len() - final(cursor)@.len(),
            ),
    ;
}

impl<I, E: Clone> ParserStep for Parser<I, E> {
    open spec fn outcome(&self, input: Seq<I>, r: Result<(), E>, rest: Seq<I>) -> bool {
        &&& r == Ok::<(), E>(())
        &&& rest == input
    }

    fn execute(&self, cursor: &mut Cursor<I>) -> (r: Result<(), E>) {
        proof {
            assert(cursor@ == old(cursor)@.skip(0));
        }
        Ok(())
    }
}

} // verus!
