//! Reading and driving a Git repository through the output of the `git`
//! program.

pub mod action_laws;
pub mod actions;
pub mod command;
pub mod diff;
pub mod discover;
pub mod history_laws;
pub mod laws;
pub mod log;
pub mod status;

use vstd::prelude::*;
use crate::error::{ErrorModel, StorageError};

verus! {

/// What one run of `git` gave: the text it printed, or why it failed.
pub enum GitReply {
    Output(String),
    Failed(StorageError),
}

/// The mathematical form of a reply.
pub enum GitReplyModel {
    Output(Seq<char>),
    Failed(ErrorModel),
}

impl DeepView for GitReply {
    type V = GitReplyModel;

    open spec fn deep_view(&self) -> GitReplyModel {
        match self {
            GitReply::Output(text) => GitReplyModel::Output(text@),
            GitReply::Failed(e) => GitReplyModel::Failed(e.deep_view()),
        }
    }
}

/// What an operation does next, given the replies so far: one more run of
/// `git` (`raw` runs take what was printed even when the program reports a
/// failure), or its result.
pub enum GitStep<T> {
    Run { args: Vec<String>, raw: bool },
    Done(Result<T, StorageError>),
}

/// The mathematical form of a step.
pub enum GitStepModel<T> {
    Run { args: Seq<Seq<char>>, raw: bool },
    Done(Result<T, ErrorModel>),
}

impl<T: DeepView> DeepView for GitStep<T> {
    type V = GitStepModel<T::V>;

    open spec fn deep_view(&self) -> GitStepModel<T::V> {
        match self {
            GitStep::Run { args, raw } => GitStepModel::Run { args: args.deep_view(), raw: *raw },
            GitStep::Done(Ok(v)) => GitStepModel::Done(Ok(v.deep_view())),
            GitStep::Done(Err(e)) => GitStepModel::Done(Err(e.deep_view())),
        }
    }
}

/// The strings of a list of literals.
pub(crate) fn arguments(parts: &[&str]) -> (out: Vec<String>)
    ensures
        out.deep_view() == Seq::new(parts@.len(), |i: int| parts@[i]@),
{
    let mut out: Vec<String> = Vec::new();
    let mut i: usize = 0;
    while i < parts.len()
        invariant
            i <= parts@.len(),
            out@.len() == i,
            forall|j: int| 0 <= j < i ==> out@[j]@ == parts@[j]@,
        decreases parts@.len() - i,
    {
        out.push(parts[i].to_string());
        i += 1;
    }
    out
}

} // verus!
