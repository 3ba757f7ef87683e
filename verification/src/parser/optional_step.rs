//! The `optional` steps: after the parent has run, the next item is peeked
//! at without being consumed; a test inspects the peeked item and decides
//! whether to commit to a sub-step. If the test declines, no items are
//! consumed and the optional slot of the output is `None`; if it commits,
//! the sub-step runs from that very item. A variant of the test may extract
//! a value while deciding, and a further variant reshapes the committed
//! results with a transform function.

use vstd::prelude::*;

use crate::cursor::Cursor;
use super::{ParserBase, ParserStep};

verus! {

/// A step that runs `parent`, peeks at the next item, and runs the sub-step
/// `parser` only if `test` commits to it; the sub-output slot is `None`
/// otherwise. `test` either answers `bool` or extracts a value while
/// deciding (answering `Option`), which selects the output shape.
///
/// `judge` is the ghost record of the test's judgement: `judge(i, b)` admits
/// `b` as an answer of `test` on the peeked item `i`. The constructor ties
/// it to `test`'s contract.
#[verifier::reject_recursive_types(I)]
pub struct Optional<I, F, P, S: ParserBase> where F: Fn(&S::Item) -> I {
    pub(crate) test: F,
    pub(crate) parser: P,
    pub(crate) parent: S,
    pub(crate) judge: Ghost<spec_fn(S::Item, I) -> bool>,
}

impl<I, F, P, S: ParserBase> Optional<I, F, P, S> where F: Fn(&S::Item) -> I {
    #[verifier::type_invariant]
    pub(crate) open spec fn type_inv(self) -> bool {
        &&& forall|i: S::Item| call_requires(self.test, (&i,))
        &&& forall|i: S::Item, b: I| call_ensures(self.test, (&i,), b) ==> (self.judge@)(i, b)
    }

    /// The judgement the test passes on the peeked item.
    pub open(crate) spec fn spec_judge(&self) -> spec_fn(S::Item, I) -> bool {
        self.judge@
    }

    /// The sub-step run from the peeked item when the test commits.
    pub open(crate) spec fn spec_sub(&self) -> P {
        self.parser
    }

    /// The step composed before this one.
    pub open(crate) spec fn spec_parent(&self) -> S {
        self.parent
    }
}

impl<F, P, S> ParserBase for Optional<bool, F, P, S> where
    S: ParserBase,
    F: Fn(&S::Item) -> bool,
    P: ParserStep<Item = S::Item, Error = S::Error>,
 {
    type Output = (S::Output, Option<P::Output>);

    type Item = S::Item;

    type Error = S::Error;
}

impl<F, P, S> ParserStep for Optional<bool, F, P, S> where
    S: ParserStep,
    F: Fn(&S::Item) -> bool,
    P: ParserStep<Item = S::Item, Error = S::Error>,
 {
    open spec fn outcome(
        &self,
        input: Seq<S::Item>,
        r: Result<(S::Output, Option<P::Output>), S::Error>,
        rest: Seq<S::Item>,
    ) -> bool {
        ||| (exists|e: S::Error, mid: Seq<S::Item>|
            {
                &&& #[trigger] self.spec_parent().outcome(input, Err(e), mid)
                &&& r == Err::<(S::Output, Option<P::Output>), S::Error>(e)
                &&& rest == mid
            })
        ||| (exists|so: S::Output, mid: Seq<S::Item>|
            {
                &&& #[trigger] self.spec_parent().outcome(input, Ok(so), mid)
                &&& if mid.len() == 0 {
                    &&& rest == mid
                    &&& r == Ok::<(S::Output, Option<P::Output>), S::Error>((so, None))
                } else {
                    exists|b: bool|
                        {
                            &&& #[trigger] (self.spec_judge())(mid[0], b)
                            &&& if b {
                                match r {
                                    Ok(o) => o.0 == so && (o.1 matches Some(x)
                                        && self.spec_sub().outcome(
                                        mid,
                                        Ok::<P::Output, S::Error>(x),
                                        rest,
                                    )),
                                    Err(e) => self.spec_sub().outcome(
                                        mid,
                                        Err::<P::Output, S::Error>(e),
                                        rest,
                                    ),
                                }
                            } else {
                                &&& rest == mid
                                &&& r == Ok::<(S::Output, Option<P::Output>), S::Error>((so, None))
                            }
                        }
                }
            })
    }

    fn execute(&self, cursor: &mut Cursor<S::Item>) -> (r: Result<
        (S::Output, Option<P::Output>),
        S::Error,
    >) {
        proof {
            use_type_invariant(&*self);
            assert(cursor@ == old(cursor)@.skip(0));
        }
        let ghost input = old(cursor)@;
        let parent_result = self.parent.execute(cursor);
        let ghost mid = cursor@;
        match parent_result {
            Err(e) => {
                proof {
                    assert(self.spec_parent().outcome(input, Err::<S::Output, S::Error>(e), mid));
                    let n = choose|n: int|
                        0 <= n <= old(cursor)@.len() && mid == old(cursor)@.skip(n);
                    assert(cursor@ == old(cursor)@.skip(n));
                }
                Err(e)
            },
            Ok(so) => {
                proof {
                    assert(self.spec_parent().outcome(input, Ok::<S::Output, S::Error>(so), mid));
                }
                let committed = match cursor.peek() {
                    Some(it) => {
                        let b = (self.test)(it);
                        proof {
                            assert(call_ensures(self.test, (&mid[0],), b));
                            assert((self.spec_judge())(mid[0], b));
                        }
                        b
                    },
                    None => false,
                };
                if committed {
                    let sub_result = self.parser.execute(cursor);
                    proof {
                        let n = choose|n: int|
                            0 <= n <= old(cursor)@.len() && mid == old(cursor)@.skip(n);
                        let m = choose|m: int| 0 <= m <= mid.len() && cursor@ == mid.skip(m);
                        assert(cursor@ =~= old(cursor)@.skip(n + m));
                    }
                    match sub_result {
                        Ok(x) => {
                            proof {
                                assert(self.spec_sub().outcome(
                                    mid,
                                    Ok::<P::Output, S::Error>(x),
                                    cursor@,
                                ));
                            }
                            Ok((so, Some(x)))
                        },
                        Err(e) => {
                            proof {
                                assert(self.spec_sub().outcome(
                                    mid,
                                    Err::<P::Output, S::Error>(e),
                                    cursor@,
                                ));
                            }
                            Err(e)
                        },
                    }
                } else {
                    proof {
                        let n = choose|n: int|
                            0 <= n <= old(cursor)@.len() && mid == old(cursor)@.skip(n);
                        assert(cursor@ == old(cursor)@.skip(n));
                    }
                    Ok((so, None))
                }
            },
        }
    }
}

impl<J, F, P, S> ParserBase for Optional<Option<J>, F, P, S> where
    S: ParserBase,
    F: Fn(&S::Item) -> Option<J>,
    P: ParserStep<Item = S::Item, Error = S::Error>,
 {
    type Output = (S::Output, Option<(J, P::Output)>);

    type Item = S::Item;

    type Error = S::Error;
}

impl<J, F, P, S> ParserStep for Optional<Option<J>, F, P, S> where
    S: ParserStep,
    F: Fn(&S::Item) -> Option<J>,
    P: ParserStep<Item = S::Item, Error = S::Error>,
 {
    open spec fn outcome(
        &self,
        input: Seq<S::Item>,
        r: Result<(S::Output, Option<(J, P::Output)>), S::Error>,
        rest: Seq<S::Item>,
    ) -> bool {
        ||| (exists|e: S::Error, mid: Seq<S::Item>|
            {
                &&& #[trigger] self.spec_parent().outcome(input, Err(e), mid)
                &&& r == Err::<(S::Output, Option<(J, P::Output)>), S::Error>(e)
                &&& rest == mid
            })
        ||| (exists|so: S::Output, mid: Seq<S::Item>|
            {
                &&& #[trigger] self.spec_parent().outcome(input, Ok(so), mid)
                &&& if mid.len() == 0 {
                    &&& rest == mid
                    &&& r == Ok::<(S::Output, Option<(J, P::Output)>), S::Error>((so, None))
                } else {
                    exists|tb: Option<J>|
                        {
                            &&& #[trigger] (self.spec_judge())(mid[0], tb)
                            &&& match tb {
                                Some(j) => match r {
                                    Ok(o) => o.0 == so && (o.1 matches Some(p) && p.0 == j
                                        && self.spec_sub().outcome(
                                        mid,
                                        Ok::<P::Output, S::Error>(p.1),
                                        rest,
                                    )),
                                    Err(e) => self.spec_sub().outcome(
                                        mid,
                                        Err::<P::Output, S::Error>(e),
                                        rest,
                                    ),
                                },
                                None => {
                                    &&& rest == mid
                                    &&& r == Ok::<
                                        (S::Output, Option<(J, P::Output)>),
                                        S::Error,
                                    >((so, None))
                                },
                            }
                        }
                }
            })
    }

    fn execute(&self, cursor: &mut Cursor<S::Item>) -> (r: Result<
        (S::Output, Option<(J, P::Output)>),
        S::Error,
    >) {
        proof {
            use_type_invariant(&*self);
            assert(cursor@ == old(cursor)@.skip(0));
        }
        let ghost input = old(cursor)@;
        let parent_result = self.parent.execute(cursor);
        let ghost mid = cursor@;
        match parent_result {
            Err(e) => {
                proof {
                    assert(self.spec_parent().outcome(input, Err::<S::Output, S::Error>(e), mid));
                    let n = choose|n: int|
                        0 <= n <= old(cursor)@.len() && mid == old(cursor)@.skip(n);
                    assert(cursor@ == old(cursor)@.skip(n));
                }
                Err(e)
            },
            Ok(so) => {
                proof {
                    assert(self.spec_parent().outcome(input, Ok::<S::Output, S::Error>(so), mid));
                }
                let tested = match cursor.peek() {
                    Some(it) => {
                        let tb = (self.test)(it);
                        proof {
                            assert(call_ensures(self.test, (&mid[0],), tb));
                            assert((self.spec_judge())(mid[0], tb));
                        }
                        tb
                    },
                    None => None,
                };
                match tested {
                    Some(j) => {
                        let sub_result = self.parser.execute(cursor);
                        proof {
                            let n = choose|n: int| 0 <= n <= input.len() && mid == input.skip(n);
                            let m = choose|m: int| 0 <= m <= mid.len() && cursor@ == mid.skip(m);
                            assert(cursor@ =~= input.skip(n + m));
                        }
                        match sub_result {
                            Ok(x) => {
                                proof {
                                    assert(self.spec_sub().outcome(
                                        mid,
                                        Ok::<P::Output, S::Error>(x),
                                        cursor@,
                                    ));
                                }
                                Ok((so, Some((j, x))))
                            },
                            Err(e) => {
                                proof {
                                    assert(self.spec_sub().outcome(
                                        mid,
                                        Err::<P::Output, S::Error>(e),
                                        cursor@,
                                    ));
                                }
                                Err(e)
                            },
                        }
                    },
                    None => {
                        proof {
                            let n = choose|n: int|
                                0 <= n <= old(cursor)@.len() && mid == old(cursor)@.skip(n);
                            assert(cursor@ == old(cursor)@.skip(n));
                        }
                        Ok((so, None))
                    },
                }
            },
        }
    }
}


/// Like [`Optional`] with a boolean test, but a committed sub-output is
/// reshaped by the pure function `transform` before it fills the optional
/// slot.
///
/// `judge` records the test's judgement on the peeked item, and `trans` the
/// reshaping: `trans(x, to)` admits `to` as a result of `transform` on the
/// sub-output `x`. The constructor ties both to the closures' contracts.
#[verifier::reject_recursive_types(TO)]
pub struct OptionalMatchTransform<TO, F, P: ParserBase, T, S: ParserBase> where
    F: Fn(&S::Item) -> bool,
    T: Fn(P::Output) -> TO,
 {
    pub(crate) test: F,
    pub(crate) parser: P,
    pub(crate) transform: T,
    pub(crate) parent: S,
    pub(crate) judge: Ghost<spec_fn(S::Item, bool) -> bool>,
    pub(crate) trans: Ghost<spec_fn(P::Output, TO) -> bool>,
}

impl<TO, F, P: ParserBase, T, S: ParserBase> OptionalMatchTransform<TO, F, P, T, S> where
    F: Fn(&S::Item) -> bool,
    T: Fn(P::Output) -> TO,
 {
    #[verifier::type_invariant]
    pub(crate) open spec fn type_inv(self) -> bool {
        &&& forall|i: S::Item| call_requires(self.test, (&i,))
        &&& forall|i: S::Item, b: bool| call_ensures(self.test, (&i,), b) ==> (self.judge@)(i, b)
        &&& forall|x: P::Output| call_requires(self.transform, (x,))
        &&& forall|x: P::Output, to: TO|
            call_ensures(self.transform, (x,), to) ==> (self.trans@)(x, to)
    }

    /// The judgement the test passes on the peeked item.
    pub open(crate) spec fn spec_judge(&self) -> spec_fn(S::Item, bool) -> bool {
        self.judge@
    }

    /// The relation between a committed sub-output and the reshaped value.
    pub open(crate) spec fn spec_trans(&self) -> spec_fn(P::Output, TO) -> bool {
        self.trans@
    }

    /// The sub-step run from the peeked item when the test commits.
    pub open(crate) spec fn spec_sub(&self) -> P {
        self.parser
    }

    /// The step composed before this one.
    pub open(crate) spec fn spec_parent(&self) -> S {
        self.parent
    }
}

impl<TO, F, P, T, S> ParserBase for OptionalMatchTransform<TO, F, P, T, S> where
    S: ParserBase,
    F: Fn(&S::Item) -> bool,
    P: ParserStep<Item = S::Item, Error = S::Error>,
    T: Fn(P::Output) -> TO,
 {
    type Output = (S::Output, Option<TO>);

    type Item = S::Item;

    type Error = S::Error;
}

impl<TO, F, P, T, S> ParserStep for OptionalMatchTransform<TO, F, P, T, S> where
    S: ParserStep,
    F: Fn(&S::Item) -> bool,
    P: ParserStep<Item = S::Item, Error = S::Error>,
    T: Fn(P::Output) -> TO,
 {
    open spec fn outcome(
        &self,
        input: Seq<S::Item>,
        r: Result<(S::Output, Option<TO>), S::Error>,
        rest: Seq<S::Item>,
    ) -> bool {
        ||| (exists|e: S::Error, mid: Seq<S::Item>|
            {
                &&& #[trigger] self.spec_parent().outcome(input, Err(e), mid)
                &&& r == Err::<(S::Output, Option<TO>), S::Error>(e)
                &&& rest == mid
            })
        ||| (exists|so: S::Output, mid: Seq<S::Item>|
            {
                &&& #[trigger] self.spec_parent().outcome(input, Ok(so), mid)
                &&& if mid.len() == 0 {
                    &&& rest == mid
                    &&& r == Ok::<(S::Output, Option<TO>), S::Error>((so, None))
                } else {
                    exists|b: bool|
                        {
                            &&& #[trigger] (self.spec_judge())(mid[0], b)
                            &&& if b {
                                match r {
                                    Ok(o) => o.0 == so && (o.1 matches Some(to) && (exists|
                                        x: P::Output,
                                    |
                                        {
                                            &&& #[trigger] self.spec_sub().outcome(
                                                mid,
                                                Ok::<P::Output, S::Error>(x),
                                                rest,
                                            )
                                            &&& (self.spec_trans())(x, to)
                                        })),
                                    Err(e) => self.spec_sub().outcome(
                                        mid,
                                        Err::<P::Output, S::Error>(e),
                                        rest,
                                    ),
                                }
                            } else {
                                &&& rest == mid
                                &&& r == Ok::<(S::Output, Option<TO>), S::Error>((so, None))
                            }
                        }
                }
            })
    }

    fn execute(&self, cursor: &mut Cursor<S::Item>) -> (r: Result<
        (S::Output, Option<TO>),
        S::Error,
    >) {
        proof {
            use_type_invariant(&*self);
            assert(cursor@ == old(cursor)@.skip(0));
        }
        let ghost input = old(cursor)@;
        let parent_result = self.parent.execute(cursor);
        let ghost mid = cursor@;
        match parent_result {
            Err(e) => {
                proof {
                    assert(self.spec_parent().outcome(input, Err::<S::Output, S::Error>(e), mid));
                    let n = choose|n: int|
                        0 <= n <= old(cursor)@.len() && mid == old(cursor)@.skip(n);
                    assert(cursor@ == old(cursor)@.skip(n));
                }
                Err(e)
            },
            Ok(so) => {
                proof {
                    assert(self.spec_parent().outcome(input, Ok::<S::Output, S::Error>(so), mid));
                }
                let committed = match cursor.peek() {
                    Some(it) => {
                        let b = (self.test)(it);
                        proof {
                            assert(call_ensures(self.test, (&mid[0],), b));
                            assert((self.spec_judge())(mid[0], b));
                        }
                        b
                    },
                    None => false,
                };
                if committed {
                    let sub_result = self.parser.execute(cursor);
                    proof {
                        let n = choose|n: int|
                            0 <= n <= old(cursor)@.len() && mid == old(cursor)@.skip(n);
                        let m = choose|m: int| 0 <= m <= mid.len() && cursor@ == mid.skip(m);
                        assert(cursor@ =~= old(cursor)@.skip(n + m));
                    }
                    match sub_result {
                        Ok(x) => {
                            proof {
                                assert(self.spec_sub().outcome(
                                    mid,
                                    Ok::<P::Output, S::Error>(x),
                                    cursor@,
                                ));
                            }
                            let to = (self.transform)(x);
                            proof {
                                assert((self.spec_trans())(x, to));
                            }
                            Ok((so, Some(to)))
                        },
                        Err(e) => {
                            proof {
                                assert(self.spec_sub().outcome(
                                    mid,
                                    Err::<P::Output, S::Error>(e),
                                    cursor@,
                                ));
                            }
                            Err(e)
                        },
                    }
                } else {
                    proof {
                        let n = choose|n: int|
                            0 <= n <= old(cursor)@.len() && mid == old(cursor)@.skip(n);
                        assert(cursor@ == old(cursor)@.skip(n));
                    }
                    Ok((so, None))
                }
            },
        }
    }
}

/// Like [`Optional`] with an extracting test, but the extracted value and a
/// committed sub-output are reshaped together by the pure function
/// `transform` before they fill the optional slot.
///
/// `judge` records the test's judgement on the peeked item, and `trans` the
/// reshaping: `trans(j, x, to)` admits `to` as a result of `transform` on
/// the extracted value `j` and the sub-output `x`. The constructor ties both
/// to the closures' contracts.
#[verifier::reject_recursive_types(J)]
#[verifier::reject_recursive_types(TO)]
pub struct OptionalTakeTransform<J, TO, F, P: ParserBase, T, S: ParserBase> where
    F: Fn(&S::Item) -> Option<J>,
    T: Fn(J, P::Output) -> TO,
 {
    pub(crate) test: F,
    pub(crate) parser: P,
    pub(crate) transform: T,
    pub(crate) parent: S,
    pub(crate) judge: Ghost<spec_fn(S::Item, Option<J>) -> bool>,
    pub(crate) trans: Ghost<spec_fn(J, P::Output, TO) -> bool>,
}

impl<J, TO, F, P: ParserBase, T, S: ParserBase> OptionalTakeTransform<J, TO, F, P, T, S> where
    F: Fn(&S::Item) -> Option<J>,
    T: Fn(J, P::Output) -> TO,
 {
    #[verifier::type_invariant]
    pub(crate) open spec fn type_inv(self) -> bool {
        &&& forall|i: S::Item| call_requires(self.test, (&i,))
        &&& forall|i: S::Item, tb: Option<J>|
            call_ensures(self.test, (&i,), tb) ==> (self.judge@)(i, tb)
        &&& forall|j: J, x: P::Output| call_requires(self.transform, (j, x))
        &&& forall|j: J, x: P::Output, to: TO|
            call_ensures(self.transform, (j, x), to) ==> (self.trans@)(j, x, to)
    }

    /// The judgement the test passes on the peeked item.
    pub open(crate) spec fn spec_judge(&self) -> spec_fn(S::Item, Option<J>) -> bool {
        self.judge@
    }

    /// The relation between the extracted value, a committed sub-output and
    /// the reshaped value.
    pub open(crate) spec fn spec_trans(&self) -> spec_fn(J, P::Output, TO) -> bool {
        self.trans@
    }

    /// The sub-step run from the peeked item when the test commits.
    pub open(crate) spec fn spec_sub(&self) -> P {
        self.parser
    }

    /// The step composed before this one.
    pub open(crate) spec fn spec_parent(&self) -> S {
        self.parent
    }
}

impl<J, TO, F, P, T, S> ParserBase for OptionalTakeTransform<J, TO, F, P, T, S> where
    S: ParserBase,
    F: Fn(&S::Item) -> Option<J>,
    P: ParserStep<Item = S::Item, Error = S::Error>,
    T: Fn(J, P::Output) -> TO,
 {
    type Output = (S::Output, Option<TO>);

    type Item = S::Item;

    type Error = S::Error;
}

impl<J, TO, F, P, T, S> ParserStep for OptionalTakeTransform<J, TO, F, P, T, S> where
    S: ParserStep,
    F: Fn(&S::Item) -> Option<J>,
    P: ParserStep<Item = S::Item, Error = S::Error>,
    T: Fn(J, P::Output) -> TO,
 {
    open spec fn outcome(
        &self,
        input: Seq<S::Item>,
        r: Result<(S::Output, Option<TO>), S::Error>,
        rest: Seq<S::Item>,
    ) -> bool {
        ||| (exists|e: S::Error, mid: Seq<S::Item>|
            {
                &&& #[trigger] self.spec_parent().outcome(input, Err(e), mid)
                &&& r == Err::<(S::Output, Option<TO>), S::Error>(e)
                &&& rest == mid
            })
        ||| (exists|so: S::Output, mid: Seq<S::Item>|
            {
                &&& #[trigger] self.spec_parent().outcome(input, Ok(so), mid)
                &&& if mid.len() == 0 {
                    &&& rest == mid
                    &&& r == Ok::<(S::Output, Option<TO>), S::Error>((so, None))
                } else {
                    exists|tb: Option<J>|
                        {
                            &&& #[trigger] (self.spec_judge())(mid[0], tb)
                            &&& match tb {
                                Some(j) => match r {
                                    Ok(o) => o.0 == so && (o.1 matches Some(to) && (exists|
                                        x: P::Output,
                                    |
                                        {
                                            &&& #[trigger] self.spec_sub().outcome(
                                                mid,
                                                Ok::<P::Output, S::Error>(x),
                                                rest,
                                            )
                                            &&& (self.spec_trans())(j, x, to)
                                        })),
                                    Err(e) => self.spec_sub().outcome(
                                        mid,
                                        Err::<P::Output, S::Error>(e),
                                        rest,
                                    ),
                                },
                                None => {
                                    &&& rest == mid
                                    &&& r == Ok::<(S::Output, Option<TO>), S::Error>((so, None))
                                },
                            }
                        }
                }
            })
    }

    fn execute(&self, cursor: &mut Cursor<S::Item>) -> (r: Result<
        (S::Output, Option<TO>),
        S::Error,
    >) {
        proof {
            use_type_invariant(&*self);
            assert(cursor@ == old(cursor)@.skip(0));
        }
        let ghost input = old(cursor)@;
        let parent_result = self.parent.execute(cursor);
        let ghost mid = cursor@;
        match parent_result {
            Err(e) => {
                proof {
                    assert(self.spec_parent().outcome(input, Err::<S::Output, S::Error>(e), mid));
                    let n = choose|n: int|
                        0 <= n <= old(cursor)@.len() && mid == old(cursor)@.skip(n);
                    assert(cursor@ == old(cursor)@.skip(n));
                }
                Err(e)
            },
            Ok(so) => {
                proof {
                    assert(self.spec_parent().outcome(input, Ok::<S::Output, S::Error>(so), mid));
                }
                let tested = match cursor.peek() {
                    Some(it) => {
                        let tb = (self.test)(it);
                        proof {
                            assert(call_ensures(self.test, (&mid[0],), tb));
                            assert((self.spec_judge())(mid[0], tb));
                        }
                        tb
                    },
                    None => None,
                };
                match tested {
                    Some(j) => {
                        let sub_result = self.parser.execute(cursor);
                        proof {
                            let n = choose|n: int|
                                0 <= n <= old(cursor)@.len() && mid == old(cursor)@.skip(n);
                            let m = choose|m: int| 0 <= m <= mid.len() && cursor@ == mid.skip(m);
                            assert(cursor@ =~= old(cursor)@.skip(n + m));
                        }
                        match sub_result {
                            Ok(x) => {
                                proof {
                                    assert(self.spec_sub().outcome(
                                        mid,
                                        Ok::<P::Output, S::Error>(x),
                                        cursor@,
                                    ));
                                }
                                let to = (self.transform)(j, x);
                                proof {
                                    assert((self.spec_trans())(j, x, to));
                                }
                                Ok((so, Some(to)))
                            },
                            Err(e) => {
                                proof {
                                    assert(self.spec_sub().outcome(
                                        mid,
                                        Err::<P::Output, S::Error>(e),
                                        cursor@,
                                    ));
                                }
                                Err(e)
                            },
                        }
                    },
                    None => {
                        proof {
                            let n = choose|n: int|
                                0 <= n <= old(cursor)@.len() && mid == old(cursor)@.skip(n);
                            assert(cursor@ == old(cursor)@.skip(n));
                        }
                        Ok((so, None))
                    },
                }
            },
        }
    }
}

} // verus!
