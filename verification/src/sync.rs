//! Carrying a plan out against a store that can fail.
//!
//! The caller performs the pending operation on the real store and reports
//! how it went. A record that is missing when it should be removed is no
//! failure; anything else that goes wrong ends the work on this root, and
//! on this root only.

use crate::reg::{op_views, OpView, StoreOp};
use vstd::prelude::*;

verus! {

/// How the store answered an operation.
#[derive(Clone, Copy, Debug, PartialEq, Eq, Structural)]
pub enum Outcome {
    /// The operation was carried out.
    Done,
    /// The key that the operation names does not exist.
    NotFound,
    /// The store refused to open, create or remove a key.
    KeyFailed,
    /// The store refused to write a value.
    ValueFailed,
}

/// Why the work on a root was given up.
#[derive(Clone, Copy, Debug, PartialEq, Eq, Structural)]
pub enum Error {
    Key,
    Value,
}

/// Whether work goes on after `outcome`: after success, and after finding
/// nothing to remove.
pub open spec fn tolerated(op: OpView, outcome: Outcome) -> bool {
    outcome == Outcome::Done || (outcome == Outcome::NotFound && op is Remove)
}

/// The error that an outcome stands for, where it is not tolerated.
pub open spec fn error_of(outcome: Outcome) -> Error {
    if outcome == Outcome::ValueFailed {
        Error::Value
    } else {
        Error::Key
    }
}

/// The state of the work on one root.
#[derive(Debug)]
pub struct Progress {
    ops: Vec<StoreOp>,
    done: usize,
    error: Option<Error>,
}

impl Progress {
    /// The whole plan.
    pub closed spec fn plan(&self) -> Seq<OpView> {
        op_views(self.ops@)
    }

    /// How many operations of the plan are behind us.
    pub closed spec fn done(&self) -> nat {
        self.done as nat
    }

    /// The error that ended the work, if one did.
    pub closed spec fn error(&self) -> Option<Error> {
        self.error
    }

    /// The count of finished operations is within the plan, and an error
    /// leaves the failed operation unfinished.
    pub open spec fn wf(&self) -> bool {
        &&& self.done() <= self.plan().len()
        &&& self.error() is Some ==> self.done() < self.plan().len()
    }

    /// The operations that have taken effect: the plan up to where we are.
    pub open spec fn performed(&self) -> Seq<OpView> {
        self.plan().take(self.done() as int)
    }

    /// The operation to perform next, if work is still going on.
    pub open spec fn pending_op(&self) -> Option<OpView> {
        if self.error() is None && self.done() < self.plan().len() {
            Some(self.plan()[self.done() as int])
        } else {
            None
        }
    }

    /// Sets out on a plan.
    pub fn start(ops: Vec<StoreOp>) -> (r: Progress)
        ensures
            r.wf(),
            r.plan() == op_views(ops@),
            r.done() == 0,
            r.error() is None,
    {
        Progress { ops, done: 0, error: None }
    }

    /// The operation to perform next, or nothing once the plan is through
    /// or the work was given up.
    pub fn pending(&self) -> (r: Option<&StoreOp>)
        requires
            self.wf(),
        ensures
            match r {
                Some(op) => self.pending_op() == Some(op@),
                None => self.pending_op() is None,
            },
    {
        if self.error.is_none() && self.done < self.ops.len() {
            Some(&self.ops[self.done])
        } else {
            None
        }
    }

    /// Takes note of how the pending operation went. A tolerated outcome
    /// moves on to the next operation; any other ends the work with its
    /// error. Without a pending operation nothing changes.
    pub fn report(&mut self, outcome: Outcome)
        requires
            old(self).wf(),
        ensures
            final(self).wf(),
            final(self).plan() == old(self).plan(),
            match old(self).pending_op() {
                Some(op) => if tolerated(op, outcome) {
                    final(self).done() == old(self).done() + 1 && final(self).error() is None
                } else {
                    final(self).done() == old(self).done() && final(self).error() == Some(
                        error_of(outcome),
                    )
                },
                None => final(self).done() == old(self).done() && final(self).error() == old(
                    self,
                ).error(),
            },
    {
        if self.error.is_none() && self.done < self.ops.len() {
            let removes: bool = match &self.ops[self.done] {
                StoreOp::Remove { .. } => true,
                _ => false,
            };
            match outcome {
                Outcome::Done => {
                    self.done = self.done + 1;
                },
                Outcome::NotFound => {
                    if removes {
                        self.done = self.done + 1;
                    } else {
                        self.error = Some(Error::Key);
                    }
                },
                Outcome::KeyFailed => {
                    self.error = Some(Error::Key);
                },
                Outcome::ValueFailed => {
                    self.error = Some(Error::Value);
                },
            }
        }
    }

    /// How the work ended: well once the whole plan has taken effect, with
    /// the error that ended it otherwise; nothing while an operation is
    /// pending.
    pub fn result(&self) -> (r: Option<Result<(), Error>>)
        requires
            self.wf(),
        ensures
            match r {
                Some(Ok(())) => self.error() is None && self.performed() == self.plan(),
                Some(Err(e)) => self.error() == Some(e),
                None => self.pending_op() is Some,
            },
    {
        match self.error {
            Some(e) => Some(Err(e)),
            None => {
                if self.done < self.ops.len() {
                    None
                } else {
                    assert(self.plan().take(self.done() as int) =~= self.plan());
                    Some(Ok(()))
                }
            },
        }
    }
}

} // verus!
