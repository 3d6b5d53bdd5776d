//! A transaction: a series of steps, each of which, when it succeeds, leaves an action that
//! undoes it. When a step fails, the undo actions of the steps that succeeded are handed
//! back newest first, so that running them in that order undoes every change made so far.
//!
//! The steps and the undo actions themselves (file writes, service reloads) are performed by
//! the caller; the transaction decides what is kept and what is undone.
use vstd::prelude::*;

use crate::error::chain_view;

verus! {

/// The pending undo actions of the steps that have succeeded so far.
pub struct Transaction<U> {
    stack: Vec<U>,
}

/// What a failed step leaves: its error, and the undo actions to run, in order.
pub struct Rollback<U, E> {
    /// The error that the failed step reported.
    pub cause: E,
    /// The undo actions of the earlier steps, newest first.
    pub undo: Vec<U>,
}

impl<U> View for Transaction<U> {
    type V = Seq<U>;

    closed spec fn view(&self) -> Seq<U> {
        self.stack@
    }
}

impl<U> Transaction<U> {
    /// Create a new transaction with nothing to undo.
    pub fn new() -> (r: Transaction<U>)
        ensures
            r@ == Seq::<U>::empty(),
    {
        Transaction { stack: Vec::new() }
    }

    /// Record the outcome of a step that has just been carried out. If it succeeded, its undo
    /// action is kept. If it failed, every kept undo action is handed back, newest first, with
    /// the step's error, and the transaction is left with nothing to undo.
    pub fn do_or_rollback<E>(&mut self, outcome: Result<U, E>) -> (r: Result<(), Rollback<U, E>>)
        ensures
            match outcome {
                Ok(u) => r is Ok && final(self)@ == old(self)@.push(u),
                Err(e) => final(self)@ == Seq::<U>::empty() && (r matches Err(rb) && rb.cause == e
                    && rb.undo@ == old(self)@.reverse()),
            },
    {
        match outcome {
            Ok(callback) => {
                self.stack.push(callback);
                Ok(())
            },
            Err(e) => Err(Rollback { cause: e, undo: self.rollback() }),
        }
    }

    /// Take every kept undo action, newest first, leaving nothing to undo.
    fn rollback(&mut self) -> (r: Vec<U>)
        ensures
            r@ == old(self)@.reverse(),
            final(self)@ == Seq::<U>::empty(),
    {
        let mut out: Vec<U> = Vec::new();
        let ghost orig = self.stack@;
        while self.stack.len() > 0
            invariant
                self.stack@ == orig.take(self.stack@.len() as int),
                self.stack@.len() <= orig.len(),
                out@ == orig.skip(self.stack@.len() as int).reverse(),
            decreases self.stack@.len(),
        {
            let ghost n = self.stack@.len();
            let u = self.stack.pop().unwrap();
            proof {
                assert(u == orig[n - 1]);
                assert(orig.skip(n - 1).reverse() =~= orig.skip(n as int).reverse().push(u));
                assert(self.stack@ =~= orig.take(n - 1));
            }
            out.push(u);
        }
        assert(orig.skip(0) =~= orig);
        out
    }
}

/// What one undo action gave: a description of what it undid, or the messages of its error.
pub open spec fn outcome_view(o: Result<String, Vec<String>>) -> Result<Seq<char>, Seq<Seq<char>>> {
    match o {
        Ok(d) => Ok(d@),
        Err(c) => Err(chain_view(c@)),
    }
}

/// The outcomes of the undo actions, in the order they ran.
pub open spec fn outcomes_view(v: Seq<Result<String, Vec<String>>>) -> Seq<
    Result<Seq<char>, Seq<Seq<char>>>,
> {
    v.map_values(|o: Result<String, Vec<String>>| outcome_view(o))
}

/// Some undo action failed.
pub open spec fn some_undo_failed(outs: Seq<Result<Seq<char>, Seq<Seq<char>>>>) -> bool {
    exists|i: int| 0 <= i < outs.len() && #[trigger] outs[i] is Err
}

/// The error a rollback ends with: the failed step's messages, followed by those of every
/// undo action that failed, in the order the actions ran.
pub open spec fn rollback_error_spec(
    cause: Seq<Seq<char>>,
    outs: Seq<Result<Seq<char>, Seq<Seq<char>>>>,
) -> Seq<Seq<char>>
    decreases outs.len(),
{
    if outs.len() == 0 {
        cause
    } else {
        let prev = rollback_error_spec(cause, outs.drop_last());
        match outs.last() {
            Ok(_) => prev,
            Err(c) => prev + c,
        }
    }
}

/// The descriptions of the undo actions that succeeded, in the order they ran.
pub open spec fn rollback_report_spec(outs: Seq<Result<Seq<char>, Seq<Seq<char>>>>) -> Seq<
    Seq<char>,
>
    decreases outs.len(),
{
    if outs.len() == 0 {
        Seq::empty()
    } else {
        let prev = rollback_report_spec(outs.drop_last());
        match outs.last() {
            Ok(d) => prev.push(d),
            Err(_) => prev,
        }
    }
}

/// The error a rollback ends with, given the messages of the failed step's error and the
/// outcomes of the undo actions in the order they ran: `None` when every undo action
/// succeeded, so that the step's error stands as it is; otherwise that error's messages
/// followed by those of each failed undo action.
pub fn rollback_error(cause: Vec<String>, outcomes: &Vec<Result<String, Vec<String>>>) -> (r:
    Option<Vec<String>>)
    ensures
        match r {
            None => !some_undo_failed(outcomes_view(outcomes@)),
            Some(c) => some_undo_failed(outcomes_view(outcomes@)) && chain_view(c@)
                == rollback_error_spec(chain_view(cause@), outcomes_view(outcomes@)),
        },
{
    let ghost outs = outcomes_view(outcomes@);
    let ghost base = chain_view(cause@);
    let mut acc = cause;
    let mut failed = false;
    let n = outcomes.len();
    let mut i: usize = 0;
    assert(outs.take(0) =~= Seq::<Result<Seq<char>, Seq<Seq<char>>>>::empty());
    while i < n
        invariant
            n == outcomes@.len(),
            outs == outcomes_view(outcomes@),
            base == rollback_error_spec(base, outs.take(0)),
            i <= n,
            chain_view(acc@) == rollback_error_spec(base, outs.take(i as int)),
            failed == some_undo_failed(outs.take(i as int)),
        decreases n - i,
    {
        assert(outs.take(i + 1).drop_last() =~= outs.take(i as int));
        assert(outs.take(i + 1).last() == outcome_view(outcomes@[i as int]));
        match &outcomes[i] {
            Ok(_) => {
                assert forall|j: int| 0 <= j < i + 1 && #[trigger] outs.take(i + 1)[j] is Err
                    implies j < i && outs.take(i as int)[j] is Err by {}
                assert(some_undo_failed(outs.take(i + 1)) == some_undo_failed(outs.take(i as int)))
                    by {
                    if some_undo_failed(outs.take(i as int)) {
                        let j = choose|j: int|
                            0 <= j < i && #[trigger] outs.take(i as int)[j] is Err;
                        assert(outs.take(i + 1)[j] is Err);
                    }
                }
            },
            Err(c) => {
                let ghost before = chain_view(acc@);
                let m = c.len();
                let mut j: usize = 0;
                while j < m
                    invariant
                        m == c@.len(),
                        j <= m,
                        chain_view(acc@) == before + chain_view(c@).take(j as int),
                    decreases m - j,
                {
                    let ghost prev = acc@;
                    let item = c[j].clone();
                    assert(item@ == c@[j as int]@);
                    acc.push(item);
                    assert(acc@ == prev.push(item));
                    assert(chain_view(c@).take(j + 1) =~= chain_view(c@).take(j as int).push(
                        item@,
                    ));
                    assert(chain_view(acc@) =~= chain_view(prev).push(item@));
                    assert(chain_view(acc@) =~= before + chain_view(c@).take(j + 1));
                    j = j + 1;
                }
                assert(chain_view(c@).take(m as int) =~= chain_view(c@));
                assert(outs.take(i + 1)[i as int] is Err);
                failed = true;
            },
        }
        i = i + 1;
    }
    assert(outs.take(n as int) =~= outs);
    if failed {
        Some(acc)
    } else {
        None
    }
}

/// The descriptions of the undo actions that succeeded, in the order they ran, to be shown
/// to the user.
pub fn rollback_report(outcomes: &Vec<Result<String, Vec<String>>>) -> (r: Vec<String>)
    ensures
        chain_view(r@) == rollback_report_spec(outcomes_view(outcomes@)),
{
    let ghost outs = outcomes_view(outcomes@);
    let mut out: Vec<String> = Vec::new();
    let n = outcomes.len();
    let mut i: usize = 0;
    assert(chain_view(out@) =~= rollback_report_spec(outs.take(0)));
    while i < n
        invariant
            n == outcomes@.len(),
            outs == outcomes_view(outcomes@),
            i <= n,
            chain_view(out@) == rollback_report_spec(outs.take(i as int)),
        decreases n - i,
    {
        assert(outs.take(i + 1).drop_last() =~= outs.take(i as int));
        assert(outs.take(i + 1).last() == outcome_view(outcomes@[i as int]));
        match &outcomes[i] {
            Ok(d) => {
                out.push(d.clone());
                assert(chain_view(out@) =~= rollback_report_spec(outs.take(i + 1)));
            },
            Err(_) => {},
        }
        i = i + 1;
    }
    assert(outs.take(n as int) =~= outs);
    out
}

/// A rollback's error keeps the failed step's messages first, so the step's own message stays
/// on top, and only adds messages after them.
pub proof fn law_rollback_keeps_cause_on_top(
    cause: Seq<Seq<char>>,
    outs: Seq<Result<Seq<char>, Seq<Seq<char>>>>,
)
    ensures
        rollback_error_spec(cause, outs).len() >= cause.len(),
        rollback_error_spec(cause, outs).take(cause.len() as int) == cause,
    decreases outs.len(),
{
    if outs.len() > 0 {
        law_rollback_keeps_cause_on_top(cause, outs.drop_last());
        let prev = rollback_error_spec(cause, outs.drop_last());
        if let Err(c) = outs.last() {
            assert((prev + c).take(cause.len() as int) =~= prev.take(cause.len() as int));
        }
    } else {
        assert(cause.take(cause.len() as int) =~= cause);
    }
}

/// When every undo action succeeds, the rollback's error is the failed step's error.
pub proof fn law_rollback_clean_keeps_cause(
    cause: Seq<Seq<char>>,
    outs: Seq<Result<Seq<char>, Seq<Seq<char>>>>,
)
    requires
        !some_undo_failed(outs),
    ensures
        rollback_error_spec(cause, outs) == cause,
    decreases outs.len(),
{
    if outs.len() > 0 {
        assert(!some_undo_failed(outs.drop_last())) by {
            if some_undo_failed(outs.drop_last()) {
                let j = choose|j: int|
                    0 <= j < outs.drop_last().len() && #[trigger] outs.drop_last()[j] is Err;
                assert(outs[j] is Err);
            }
        }
        law_rollback_clean_keeps_cause(cause, outs.drop_last());
        assert(!(outs[outs.len() - 1] is Err));
    }
}

} // verus!
