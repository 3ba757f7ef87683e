//! Free constructors for the combinator steps. A grammar is built by
//! nesting these around [`Parser::new`](super::Parser::new); each
//! constructor's contract records how the new step judges the items it will
//! consume, in terms of the supplied closure's own contract.

use vstd::prelude::*;

use super::match_step::Match;
use super::optional_step::{Optional, OptionalMatchTransform, OptionalTakeTransform};
use super::take_step::Take;
use super::then_step::Then;
use super::transform_step::Transform;
use super::{ParserBase, ParserStep};

verus! {

/// Chains a step that consumes one item and checks it against `matcher`,
/// contributing no value to the output; a missing item fails with a clone of
/// `missing`.
pub fn match_item<Parent: ParserBase, F: Fn(Parent::Item) -> Result<(), Parent::Error>>(
    parent: Parent,
    matcher: F,
    missing: Parent::Error,
) -> (r: Match<F, Parent>)
    requires
        forall|i: Parent::Item| call_requires(matcher, (i,)),
    ensures
        r.spec_parent() == parent,
        forall|oi: Option<Parent::Item>, v: Result<(), Parent::Error>|
            #[trigger] (r.spec_judge())(oi, v) <==> match oi {
                Some(i) => call_ensures(matcher, (i,), v),
                None => v matches Err(e) && cloned(missing, e),
            },
{
    let ghost judge = |oi: Option<Parent::Item>, v: Result<(), Parent::Error>|
        match oi {
            Some(i) => call_ensures(matcher, (i,), v),
            None => v matches Err(e) && cloned(missing, e),
        };
    Match { matcher, missing, parent, judge: Ghost(judge) }
}

/// Chains a step that consumes one item, from which `matcher` extracts a
/// value appended to the running output; a missing item fails with a clone
/// of `missing`.
pub fn take<Parent: ParserBase, I, F: Fn(Parent::Item) -> Result<I, Parent::Error>>(
    parent: Parent,
    matcher: F,
    missing: Parent::Error,
) -> (r: Take<I, F, Parent>)
    requires
        forall|i: Parent::Item| call_requires(matcher, (i,)),
    ensures
        r.spec_parent() == parent,
        forall|oi: Option<Parent::Item>, v: Result<I, Parent::Error>|
            #[trigger] (r.spec_judge())(oi, v) <==> match oi {
                Some(i) => call_ensures(matcher, (i,), v),
                None => v matches Err(e) && cloned(missing, e),
            },
{
    let ghost judge = |oi: Option<Parent::Item>, v: Result<I, Parent::Error>|
        match oi {
            Some(i) => call_ensures(matcher, (i,), v),
            None => v matches Err(e) && cloned(missing, e),
        };
    Take { matcher, missing, parent, judge: Ghost(judge) }
}

/// Chains a sub-step that runs over the input the parent leaves behind; the
/// two outputs are paired.
pub fn then<Parent: ParserBase, T: ParserStep<Item = Parent::Item, Error = Parent::Error>>(
    parent: Parent,
    parser: T,
) -> (r: Then<T, Parent>)
    ensures
        r.spec_parent() == parent,
        r.spec_sub() == parser,
{
    Then { parser, parent }
}

/// Chains a step that reshapes the output of everything composed so far
/// with the pure function `transformer`, consuming no items.
pub fn transform<Parent: ParserBase, I, F: Fn(Parent::Output) -> I>(
    parent: Parent,
    transformer: F,
) -> (r: Transform<I, F, Parent>)
    requires
        forall|po: Parent::Output| call_requires(transformer, (po,)),
    ensures
        r.spec_parent() == parent,
        forall|po: Parent::Output, o: I|
            #[trigger] (r.spec_trans())(po, o) <==> call_ensures(transformer, (po,), o),
{
    let ghost trans = |po: Parent::Output, o: I| call_ensures(transformer, (po,), o);
    Transform { transformer, parent, trans: Ghost(trans) }
}

/// Chains a step that peeks at the next item and, only if `test` commits,
/// runs the sub-step `parser` from that very item; otherwise nothing is
/// consumed and the optional output slot stays empty. `test` may answer
/// `bool`, or extract a value while deciding by answering `Option`.
pub fn optional<
    Parent: ParserBase,
    I,
    F: Fn(&Parent::Item) -> I,
    P: ParserStep<Item = Parent::Item, Error = Parent::Error>,
>(
    parent: Parent,
    test: F,
    parser: P,
) -> (r: Optional<I, F, P, Parent>)
    requires
        forall|i: Parent::Item| call_requires(test, (&i,)),
    ensures
        r.spec_parent() == parent,
        r.spec_sub() == parser,
        forall|i: Parent::Item, b: I|
            #[trigger] (r.spec_judge())(i, b) <==> call_ensures(test, (&i,), b),
{
    let ghost judge = |i: Parent::Item, b: I| call_ensures(test, (&i,), b);
    Optional { test, parser, parent, judge: Ghost(judge) }
}

/// Chains an optional step with a boolean test whose committed sub-output
/// is reshaped by `transform` before it fills the optional slot.
pub fn optional_match_transform<
    Parent: ParserBase,
    TO,
    F: Fn(&Parent::Item) -> bool,
    P: ParserStep<Item = Parent::Item, Error = Parent::Error>,
    T: Fn(P::Output) -> TO,
>(
    parent: Parent,
    test: F,
    parser: P,
    transform: T,
) -> (r: OptionalMatchTransform<TO, F, P, T, Parent>)
    requires
        forall|i: Parent::Item| call_requires(test, (&i,)),
        forall|x: P::Output| call_requires(transform, (x,)),
    ensures
        r.spec_parent() == parent,
        r.spec_sub() == parser,
        forall|i: Parent::Item, b: bool|
            #[trigger] (r.spec_judge())(i, b) <==> call_ensures(test, (&i,), b),
        forall|x: P::Output, to: TO|
            #[trigger] (r.spec_trans())(x, to) <==> call_ensures(transform, (x,), to),
{
    let ghost judge = |i: Parent::Item, b: bool| call_ensures(test, (&i,), b);
    let ghost trans = |x: P::Output, to: TO| call_ensures(transform, (x,), to);
    OptionalMatchTransform { test, parser, transform, parent, judge: Ghost(judge), trans: Ghost(trans) }
}

/// Chains an optional step whose test extracts a value while deciding; the
/// extracted value and the committed sub-output are reshaped together by
/// `transform` before they fill the optional slot.
pub fn optional_take_transform<
    Parent: ParserBase,
    J,
    TO,
    F: Fn(&Parent::Item) -> Option<J>,
    P: ParserStep<Item = Parent::Item, Error = Parent::Error>,
    T: Fn(J, P::Output) -> TO,
>(
    parent: Parent,
    test: F,
    parser: P,
    transform: T,
) -> (r: OptionalTakeTransform<J, TO, F, P, T, Parent>)
    requires
        forall|i: Parent::Item| call_requires(test, (&i,)),
        forall|j: J, x: P::Output| call_requires(transform, (j, x)),
    ensures
        r.spec_parent() == parent,
        r.spec_sub() == parser,
        forall|i: Parent::Item, tb: Option<J>|
            #[trigger] (r.spec_judge())(i, tb) <==> call_ensures(test, (&i,), tb),
        forall|j: J, x: P::Output, to: TO|
            #[trigger] (r.spec_trans())(j, x, to) <==> call_ensures(transform, (j, x), to),
{
    let ghost judge = |i: Parent::Item, tb: Option<J>| call_ensures(test, (&i,), tb);
    let ghost trans = |j: J, x: P::Output, to: TO| call_ensures(transform, (j, x), to);
    OptionalTakeTransform { test, parser, transform, parent, judge: Ghost(judge), trans: Ghost(trans) }
}

} // verus!
