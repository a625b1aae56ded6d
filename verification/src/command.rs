//! Calls of the delegated tools, as values: the program and its arguments.

use vstd::prelude::*;
use crate::error::PoolError;
use crate::text::texts;

verus! {

/// One call of an outside tool.
#[derive(Debug, PartialEq, Eq)]
pub struct Invocation {
    pub program: String,
    pub args: Vec<String>,
}

/// What an `Invocation` stands for.
pub struct InvocationModel {
    pub program: Seq<char>,
    pub args: Seq<Seq<char>>,
}

impl DeepView for Invocation {
    type V = InvocationModel;

    open spec fn deep_view(&self) -> InvocationModel {
        InvocationModel { program: self.program@, args: self.args.deep_view() }
    }
}

impl View for Invocation {
    type V = InvocationModel;

    open spec fn view(&self) -> InvocationModel {
        self.deep_view()
    }
}

/// Appends copies of `more` to `args`.
pub fn push_all(args: &mut Vec<String>, more: &Vec<String>)
    ensures
        texts(final(args)@) == texts(old(args)@) + texts(more@),
{
    let ghost before = args@;
    let mut i: usize = 0;
    assert(texts(args@) =~= texts(before) + texts(more@.take(0)));
    while i < more.len()
        invariant
            0 <= i <= more@.len(),
            texts(args@) == texts(before) + texts(more@.take(i as int)),
        decreases more.len() - i,
    {
        let ghost earlier = args@;
        args.push(more[i].clone());
        i = i + 1;
        assert(texts(args@) =~= texts(earlier).push(more@[i - 1]@));
        assert(texts(more@.take(i as int)) =~= texts(more@.take(i - 1)).push(more@[i - 1]@));
        assert(texts(args@) =~= texts(before) + texts(more@.take(i as int)));
    }
    assert(more@.take(i as int) =~= more@);
}

/// What a tool's run amounts to: success where it exited with status zero,
/// otherwise an engine error that carries what the tool wrote to standard
/// error, as it stands.
pub fn engine_outcome(exited_zero: bool, diagnostic: String) -> (outcome: Result<(), PoolError>)
    ensures
        exited_zero ==> outcome is Ok,
        !exited_zero ==> outcome == Err::<(), PoolError>(PoolError::EngineError(diagnostic)),
{
    if exited_zero {
        Ok(())
    } else {
        Err(PoolError::EngineError(diagnostic))
    }
}

} // verus!
