//! The `transform` step: applies a pure function to the complete output of
//! everything composed so far; it consumes no further items.

use vstd::prelude::*;

use crate::cursor::Cursor;
use super::{ParserBase, ParserStep};

verus! {

/// A step that runs `parent` and reshapes its output with `transformer`,
/// consuming no items of its own.
///
/// `trans` is the ghost record of the reshaping: `trans(po, o)` admits `o`
/// as a result of `transformer` on the parent output `po`. The constructor
/// ties it to `transformer`'s contract.
#[verifier::reject_recursive_types(I)]
pub struct Transform<I, F, P: ParserBase> where F: Fn(P::Output) -> I {
    pub(crate) transformer: F,
    pub(crate) parent: P,
    pub(crate) trans: Ghost<spec_fn(P::Output, I) -> bool>,
}

impl<I, F, P: ParserBase> Transform<I, F, P> where F: Fn(P::Output) -> I {
    #[verifier::type_invariant]
    pub(crate) open spec fn type_inv(self) -> bool {
        &&& forall|po: P::Output| call_requires(self.transformer, (po,))
        &&& forall|po: P::Output, o: I|
            call_ensures(self.transformer, (po,), o) ==> (self.trans@)(po, o)
    }

    /// The relation between the parent's output and this step's output.
    pub open(crate) spec fn spec_trans(&self) -> spec_fn(P::Output, I) -> bool {
        self.trans@
    }

    /// The step composed before this one.
    pub open(crate) spec fn spec_parent(&self) -> P {
        self.parent
    }
}

impl<I, F, P: ParserBase> ParserBase for Transform<I, F, P> where F: Fn(P::Output) -> I {
    type Output = I;

    type Item = P::Item;

    type Error = P::Error;
}

impl<I, F, P: ParserStep> ParserStep for Transform<I, F, P> where F: Fn(P::Output) -> I {
    open spec fn outcome(
        &self,
        input: Seq<P::Item>,
        r: Result<I, P::Error>,
        rest: Seq<P::Item>,
    ) -> bool {
        ||| (exists|e: P::Error|
            {
                &&& #[trigger] self.spec_parent().outcome(input, Err(e), rest)
                &&& r == Err::<I, P::Error>(e)
            })
        ||| (exists|po: P::Output|
            {
                &&& #[trigger] self.spec_parent().outcome(input, Ok(po), rest)
                &&& r matches Ok(o) && (self.spec_trans())(po, o)
            })
    }

    fn execute(&self, cursor: &mut Cursor<P::Item>) -> (r: Result<I, P::Error>) {
        proof {
            use_type_invariant(&*self);
        }
        let ghost input = cursor@;
        let parent_result = self.parent.execute(cursor);
        match parent_result {
            Err(e) => {
                proof {
                    assert(self.spec_parent().outcome(
                        input,
                        Err::<P::Output, P::Error>(e),
                        cursor@,
                    ));
                }
                Err(e)
            },
            Ok(po) => {
                proof {
                    assert(self.spec_parent().outcome(
                        input,
                        Ok::<P::Output, P::Error>(po),
                        cursor@,
                    ));
                }
                let out = (self.transformer)(po);
                Ok(out)
            },
        }
    }
}

} // verus!
