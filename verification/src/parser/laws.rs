//! Laws of the combinator core, proved over the steps' outcome relations.
//!
//! Each law quantifies over the closures a chain was built with, assuming
//! only what the chain's constructors recorded of them, and pins down the
//! result and the consumption of every admitted execution.

use vstd::prelude::*;

use super::match_step::Match;
use super::optional_step::Optional;
use super::take_step::Take;
use super::{Parser, ParserStep};

verus! {

/// A chain `match(p1).take(p2).take(p3)`, run against an input whose first
/// three items satisfy `p1`, `p2` and `p3` with values `v2` and `v3`,
/// returns exactly `Ok((((), v2), v3))` and consumes exactly those three
/// items.
pub proof fn lemma_match_take_take_success<It, E: Clone, F1, F2, F3, V2, V3>(
    step: Take<V3, F3, Take<V2, F2, Match<F1, Parser<It, E>>>>,
    input: Seq<It>,
    v2: V2,
    v3: V3,
    r: Result<(((), V2), V3), E>,
    rest: Seq<It>,
) where
    F1: Fn(It) -> Result<(), E>,
    F2: Fn(It) -> Result<V2, E>,
    F3: Fn(It) -> Result<V3, E>,

    requires
        step.outcome(input, r, rest),
        input.len() >= 3,
        forall|v: Result<(), E>|
            #[trigger] (step.spec_parent().spec_parent().spec_judge())(Some(input[0]), v) ==> v
                == Ok::<(), E>(()),
        forall|v: Result<V2, E>|
            #[trigger] (step.spec_parent().spec_judge())(Some(input[1]), v) ==> v == Ok::<V2, E>(
                v2,
            ),
        forall|v: Result<V3, E>|
            #[trigger] (step.spec_judge())(Some(input[2]), v) ==> v == Ok::<V3, E>(v3),
    ensures
        r == Ok::<(((), V2), V3), E>((((), v2), v3)),
        rest == input.skip(3),
{
    let m = step.spec_parent().spec_parent();
    let t2 = step.spec_parent();
    lemma_match_on_root_success(m, input, input.skip(1));
    assert(input.skip(1).len() > 0);
    assert(input.skip(1)[0] == input[1]);
    assert(input.skip(1).skip(1) =~= input.skip(2));
    assert(input.skip(2)[0] == input[2]);
    assert(input.skip(2).skip(1) =~= input.skip(3));
    // the inner take can only have returned Ok(((), v2)), leaving input.skip(2)
    assert(forall|r2: Result<((), V2), E>, rest2: Seq<It>|
        t2.outcome(input, r2, rest2) ==> r2 == Ok::<((), V2), E>((((), v2))) && rest2 == input.skip(
            2,
        )) by {
        assert forall|r2: Result<((), V2), E>, rest2: Seq<It>|
            t2.outcome(input, r2, rest2) implies r2 == Ok::<((), V2), E>((((), v2))) && rest2
            == input.skip(2) by {
            assert(forall|e: E, mid: Seq<It>|
                #[trigger] m.outcome(input, Err::<(), E>(e), mid) ==> false);
        }
    }
    assert(forall|e: E, mid: Seq<It>|
        #[trigger] t2.outcome(input, Err::<((), V2), E>(e), mid) ==> false);
}

/// The result of a `match` step standing directly on the root: it never
/// fails when its predicate accepts the first item, and it consumes exactly
/// that item.
proof fn lemma_match_on_root_success<It, E: Clone, F1>(
    m: Match<F1, Parser<It, E>>,
    input: Seq<It>,
    tail: Seq<It>,
) where F1: Fn(It) -> Result<(), E>
    requires
        input.len() >= 1,
        tail == input.skip(1),
        forall|v: Result<(), E>|
            #[trigger] (m.spec_judge())(Some(input[0]), v) ==> v == Ok::<(), E>(()),
    ensures
        forall|rm: Result<(), E>, restm: Seq<It>|
            #[trigger] m.outcome(input, rm, restm) ==> rm == Ok::<(), E>(()) && restm == tail,
{
    assert forall|rm: Result<(), E>, restm: Seq<It>| #[trigger]
        m.outcome(input, rm, restm) implies rm == Ok::<(), E>(()) && restm == tail by {
        let root = m.spec_parent();
        assert(forall|e: E, mid: Seq<It>| #[trigger] root.outcome(input, Err::<(), E>(e), mid)
            ==> false);
        assert(forall|po: (), mid: Seq<It>| #[trigger] root.outcome(input, Ok::<(), E>(po), mid)
            ==> mid == input);
    }
}

/// A chain `match(p1).take(p2).take(p3)`, run against an input whose first
/// item satisfies `p1` but whose second is rejected by `p2` with the error
/// `e2`, fails with exactly that error, consuming the two items and no
/// further ones.
pub proof fn lemma_match_take_take_failure<It, E: Clone, F1, F2, F3, V2, V3>(
    step: Take<V3, F3, Take<V2, F2, Match<F1, Parser<It, E>>>>,
    input: Seq<It>,
    e2: E,
    r: Result<(((), V2), V3), E>,
    rest: Seq<It>,
) where
    F1: Fn(It) -> Result<(), E>,
    F2: Fn(It) -> Result<V2, E>,
    F3: Fn(It) -> Result<V3, E>,

    requires
        step.outcome(input, r, rest),
        input.len() >= 2,
        forall|v: Result<(), E>|
            #[trigger] (step.spec_parent().spec_parent().spec_judge())(Some(input[0]), v) ==> v
                == Ok::<(), E>(()),
        forall|v: Result<V2, E>|
            #[trigger] (step.spec_parent().spec_judge())(Some(input[1]), v) ==> v == Err::<V2, E>(
                e2,
            ),
    ensures
        r == Err::<(((), V2), V3), E>(e2),
        rest == input.skip(2),
{
    let m = step.spec_parent().spec_parent();
    let t2 = step.spec_parent();
    lemma_match_on_root_success(m, input, input.skip(1));
    assert(input.skip(1).len() > 0);
    assert(input.skip(1)[0] == input[1]);
    assert(input.skip(1).skip(1) =~= input.skip(2));
    // the inner take can only have failed with e2, leaving input.skip(2)
    assert(forall|r2: Result<((), V2), E>, rest2: Seq<It>|
        t2.outcome(input, r2, rest2) ==> r2 == Err::<((), V2), E>(e2) && rest2 == input.skip(2)) by {
        assert forall|r2: Result<((), V2), E>, rest2: Seq<It>|
            t2.outcome(input, r2, rest2) implies r2 == Err::<((), V2), E>(e2) && rest2
            == input.skip(2) by {
            assert(forall|e: E, mid: Seq<It>|
                #[trigger] m.outcome(input, Err::<(), E>(e), mid) ==> false);
        }
    }
}

/// An `optional(test, sub)` step whose test declines the next item consumes
/// nothing and leaves the optional output slot empty: whatever follows it in
/// a chain sees the very same input, beginning with the peeked item.
pub proof fn lemma_optional_uncommitted<It, E: Clone, F, P>(
    step: Optional<bool, F, P, Parser<It, E>>,
    input: Seq<It>,
    r: Result<((), Option<P::Output>), E>,
    rest: Seq<It>,
) where F: Fn(&It) -> bool, P: ParserStep<Item = It, Error = E>
    requires
        step.outcome(input, r, rest),
        input.len() > 0,
        forall|b: bool| #[trigger] (step.spec_judge())(input[0], b) ==> !b,
    ensures
        r == Ok::<((), Option<P::Output>), E>(((), None)),
        rest == input,
{
    let root = step.spec_parent();
    assert(forall|e: E, mid: Seq<It>| #[trigger] root.outcome(input, Err::<(), E>(e), mid)
        ==> false);
    assert(forall|po: (), mid: Seq<It>| #[trigger] root.outcome(input, Ok::<(), E>(po), mid)
        ==> mid == input);
}

} // verus!
