//! The command and query surface of the contract, as traits.

use vstd::prelude::*;

use crate::msg::{ContractError, IncompleteProjectsResponse, Response, TaskIdsResponse};
use crate::state::Gateway721Contract;

verus! {

/// The mutating operations of the task-queue and metadata workflow.
pub trait Gateway721Execute {
    /// State validity, preserved by every mutating operation.
    spec fn inv(&self) -> bool;

    /// Attaches a task request to a token.  Open to any caller.
    fn request(&mut self, sender: String, token_id: String, input: String) -> (r: Result<
        Response,
        ContractError,
    >)
        requires
            old(self).inv(),
        ensures
            final(self).inv(),
    ;

    /// Records the output of a pending task.  Operator only.
    fn response(
        &mut self,
        sender: String,
        token_id: String,
        task_id: String,
        output: String,
    ) -> (r: Result<Response, ContractError>)
        requires
            old(self).inv(),
        ensures
            final(self).inv(),
    ;

    /// Completes a token's metadata and removes it from the
    /// incomplete-metadata index.  Operator only.
    fn update(
        &mut self,
        sender: String,
        token_id: String,
        title: String,
        description: String,
    ) -> (r: Result<Response, ContractError>)
        requires
            old(self).inv(),
        ensures
            final(self).inv(),
    ;
}

/// The read-only projections over the contract state.
pub trait Gateway721Query {
    /// The ids of the token's tasks whose output is still absent.
    fn remains(&self, token_id: String) -> (r: Result<TaskIdsResponse, ContractError>);

    /// Snapshot of the incomplete-metadata index.
    fn incomplete_projects(&self) -> (r: Result<IncompleteProjectsResponse, ContractError>);
}

/// The whole contract surface.
pub trait Gateway721: Gateway721Execute + Gateway721Query {
}

impl Gateway721 for Gateway721Contract {
}

} // verus!
