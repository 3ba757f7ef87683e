//! The `then` step: runs its parent to completion, then runs an
//! independently built sub-step over the remaining input; the two outputs
//! are paired. This is how nested grammars compose without flattening.

use vstd::prelude::*;

use crate::cursor::Cursor;
use super::{ParserBase, ParserStep};

verus! {

/// A step that runs `parent` and then the sub-step `parser` on whatever
/// input is left, pairing their outputs.
pub struct Then<T, P> where
    P: ParserBase,
    T: ParserStep<Item = P::Item, Error = P::Error>,
 {
    pub(crate) parser: T,
    pub(crate) parent: P,
}

impl<T, P> Then<T, P> where
    P: ParserBase,
    T: ParserStep<Item = P::Item, Error = P::Error>,
 {
    /// The sub-step run over the input the parent left behind.
    pub open(crate) spec fn spec_sub(&self) -> T {
        self.parser
    }

    /// The step composed before this one.
    pub open(crate) spec fn spec_parent(&self) -> P {
        self.parent
    }
}

impl<T, P> ParserBase for Then<T, P> where
    P: ParserBase,
    T: ParserStep<Item = P::Item, Error = P::Error>,
 {
    type Output = (P::Output, T::Output);

    type Item = P::Item;

    type Error = P::Error;
}

impl<T, P> ParserStep for Then<T, P> where
    P: ParserStep,
    T: ParserStep<Item = P::Item, Error = P::Error>,
 {
    open spec fn outcome(
        &self,
        input: Seq<P::Item>,
        r: Result<(P::Output, T::Output), P::Error>,
        rest: Seq<P::Item>,
    ) -> bool {
        ||| (exists|e: P::Error, mid: Seq<P::Item>|
            {
                &&& #[trigger] self.spec_parent().outcome(input, Err(e), mid)
                &&& r == Err::<(P::Output, T::Output), P::Error>(e)
                &&& rest == mid
            })
        ||| (exists|po: P::Output, mid: Seq<P::Item>|
            {
                &&& #[trigger] self.spec_parent().outcome(input, Ok(po), mid)
                &&& match r {
                    Ok(o) => o.0 == po && self.spec_sub().outcome(
                        mid,
                        Ok::<T::Output, P::Error>(o.1),
                        rest,
                    ),
                    Err(e) => self.spec_sub().outcome(mid, Err::<T::Output, P::Error>(e), rest),
                }
            })
    }

    fn execute(&self, cursor: &mut Cursor<P::Item>) -> (r: Result<
        (P::Output, T::Output),
        P::Error,
    >) {
        let ghost input = cursor@;
        let parent_result = self.parent.execute(cursor);
        let ghost mid = cursor@;
        match parent_result {
            Err(e) => {
                proof {
                    assert(self.spec_parent().outcome(
                        input,
                        Err::<P::Output, P::Error>(e),
                        mid,
                    ));
                }
                Err(e)
            },
            Ok(po) => {
                proof {
                    assert(self.spec_parent().outcome(input, Ok::<P::Output, P::Error>(po), mid));
                }
                let sub_result = self.parser.execute(cursor);
                proof {
                    let n = choose|n: int| 0 <= n <= input.len() && mid == input.skip(n);
                    let m = choose|m: int| 0 <= m <= mid.len() && cursor@ == mid.skip(m);
                    assert(cursor@ =~= input.skip(n + m));
                }
                match sub_result {
                    Ok(so) => {
                        proof {
                            assert(self.spec_sub().outcome(
                                mid,
                                Ok::<T::Output, P::Error>(so),
                                cursor@,
                            ));
                        }
                        Ok((po, so))
                    },
                    Err(e) => {
                        proof {
                            assert(self.spec_sub().outcome(
                                mid,
                                Err::<T::Output, P::Error>(e),
                                cursor@,
                            ));
                        }
                        Err(e)
                    },
                }
            },
        }
    }
}

} // verus!
