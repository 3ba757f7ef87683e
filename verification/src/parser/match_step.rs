//! The `match` step: runs its parent and then consumes exactly one further
//! item, which a caller-supplied predicate must accept; it contributes no
//! value of its own to the output.

use vstd::prelude::*;

use crate::cursor::Cursor;
use super::{ParserBase, ParserStep};

verus! {

/// A step that runs `parent` and then consumes one item, which `matcher`
/// must accept; a missing item fails with a clone of `missing`.
///
/// `judge` is the ghost record of the step's judgement on the one item it
/// consumes: `judge(Some(i), r)` admits `r` as a verdict of `matcher` on the
/// item `i`, and `judge(None, r)` admits `r` as the failure raised when the
/// input is exhausted. The constructors tie it to `matcher`'s contract and
/// to `missing`.
pub struct Match<F, P: ParserBase> where F: Fn(P::Item) -> Result<(), P::Error> {
    pub(crate) matcher: F,
    pub(crate) missing: P::Error,
    pub(crate) parent: P,
    pub(crate) judge: Ghost<spec_fn(Option<P::Item>, Result<(), P::Error>) -> bool>,
}

impl<F, P: ParserBase> Match<F, P> where F: Fn(P::Item) -> Result<(), P::Error> {
    #[verifier::type_invariant]
    pub(crate) open spec fn type_inv(self) -> bool {
        &&& forall|i: P::Item| call_requires(self.matcher, (i,))
        &&& forall|i: P::Item, r: Result<(), P::Error>|
            call_ensures(self.matcher, (i,), r) ==> (self.judge@)(Some(i), r)
        &&& forall|e: P::Error| cloned(self.missing, e) ==> (self.judge@)(None, Err(e))
    }

    /// The judgement this step passes on the one item it consumes, or on the
    /// end of the input.
    pub open(crate) spec fn spec_judge(&self) -> spec_fn(Option<P::Item>, Result<(), P::Error>) -> bool {
        self.judge@
    }

    /// The step composed before this one.
    pub open(crate) spec fn spec_parent(&self) -> P {
        self.parent
    }
}

impl<F, P: ParserBase> ParserBase for Match<F, P> where F: Fn(P::Item) -> Result<(), P::Error> {
    type Output = P::Output;

    type Item = P::Item;

    type Error = P::Error;
}

impl<F, P: ParserStep> ParserStep for Match<F, P> where F: Fn(P::Item) -> Result<(), P::Error> {
    open spec fn outcome(
        &self,
        input: Seq<P::Item>,
        r: Result<P::Output, P::Error>,
        rest: Seq<P::Item>,
    ) -> bool {
        ||| (exists|e: P::Error, mid: Seq<P::Item>|
            {
                &&& #[trigger] self.spec_parent().outcome(input, Err(e), mid)
                &&& r == Err::<P::Output, P::Error>(e)
                &&& rest == mid
            })
        ||| (exists|po: P::Output, mid: Seq<P::Item>|
            {
                &&& #[trigger] self.spec_parent().outcome(input, Ok(po), mid)
                &&& if mid.len() == 0 {
                    &&& rest == mid
                    &&& r is Err
                    &&& (self.spec_judge())(None, Err(r->Err_0))
                } else {
                    &&& rest == mid.skip(1)
                    &&& match r {
                        Ok(o) => o == po && (exists|v: Result<(), P::Error>|
                            v is Ok && #[trigger] (self.spec_judge())(Some(mid[0]), v)),
                        Err(e) => (self.spec_judge())(Some(mid[0]), Err::<(), P::Error>(e)),
                    }
                }
            })
    }

    fn execute(&self, cursor: &mut Cursor<P::Item>) -> (r: Result<P::Output, P::Error>) {
        proof {
            use_type_invariant(&*self);
        }
        let ghost input = cursor@;
        let parent_result = self.parent.execute(cursor);
        let ghost mid = cursor@;
        match parent_result {
            Err(e) => {
                proof {
                    assert(self.spec_parent().outcome(input, Err::<P::Output, P::Error>(e), mid));
                }
                Err(e)
            },
            Ok(po) => {
                proof {
                    assert(self.spec_parent().outcome(input, Ok::<P::Output, P::Error>(po), mid));
                }
                let item = cursor.next();
                let checked = match item {
                    Some(it) => (self.matcher)(it),
                    None => Err(self.missing.clone()),
                };
                proof {
                    let n = choose|n: int| 0 <= n <= input.len() && mid == input.skip(n);
                    if mid.len() == 0 {
                        assert(cursor@ == input.skip(n));
                    } else {
                        assert(cursor@ =~= input.skip(n + 1));
                    }
                }
                match checked {
                    Ok(_) => {
                        proof {
                            assert((self.spec_judge())(Some(mid[0]), checked));
                        }
                        Ok(po)
                    },
                    Err(e) => {
                        proof {
                            if mid.len() == 0 {
                                assert(cloned(self.missing, e));
                                assert((self.judge@)(None, Err::<(), P::Error>(e)));
                            } else {
                                assert((self.judge@)(Some(mid[0]), Err::<(), P::Error>(e)));
                            }
                        }
                        Err(e)
                    },
                }
            },
        }
    }
}

} // verus!
