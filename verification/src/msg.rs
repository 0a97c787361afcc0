//! Commands, queries, and the results they return.

use vstd::prelude::*;

use crate::state::{Extension, MetadataView, view_extension, view_opt_string};

verus! {

/// Failures surfaced to the caller.  Every error aborts the whole
/// operation: no state change and no attributes are observable.
#[derive(Clone, Copy, Debug, PartialEq, Eq, Structural)]
pub enum ContractError {
    /// No token with the given id has been minted.
    TokenNotFound,
    /// The token has no extension record, which the operation needs.
    InvalidExtension,
    /// No task with the given id awaits fulfillment.  A task whose
    /// output is already set counts as not found: outputs are written
    /// exactly once and re-fulfillment is rejected.
    TaskNotFound,
    /// The token has no extension record at metadata-completion time.
    InvalidFields,
    /// Both metadata fields are already set.
    AlreadyComplete,
    /// The caller is not the designated operator.
    Unauthorized,
    /// A mint hit an already-occupied id.  Ids are handed out
    /// sequentially, so this defensive error is never actually
    /// returned.
    AlreadyExists,
}

/// One audit log entry.
#[derive(Debug, PartialEq)]
pub struct Attribute {
    pub key: String,
    pub value: String,
}

impl View for Attribute {
    type V = (Seq<char>, Seq<char>);

    open spec fn view(&self) -> (Seq<char>, Seq<char>) {
        (self.key@, self.value@)
    }
}

/// What a successful command returns: its audit log entries.
#[derive(Debug, PartialEq)]
pub struct Response {
    pub attributes: Vec<Attribute>,
}

impl View for Response {
    type V = Seq<(Seq<char>, Seq<char>)>;

    open spec fn view(&self) -> Seq<(Seq<char>, Seq<char>)> {
        self.attributes@.map_values(|a: Attribute| a@)
    }
}

#[derive(Debug, PartialEq)]
pub struct InstantiateMsg {
    pub name: String,
    pub symbol: String,
}

/// The mutating command surface.  Ledger-native commands (transfer,
/// approval, burn, ownership) are not part of this library: the caller
/// forwards them to the ledger contract itself.
#[derive(Debug, PartialEq)]
pub enum ExecuteMsg {
    /// Open to any caller.  `token_id` is ignored: ids are assigned
    /// sequentially by the contract.
    Mint { token_id: String, owner: String, token_uri: Option<String>, extension: Extension },
    /// Appends a task to the token's task list.
    Request { token_id: String, input: String },
    /// Records the output of a pending task.  Operator only.
    Response { token_id: String, task_id: String, output: String },
    /// Completes the missing metadata fields.  Operator only.
    Update { token_id: String, title: String, description: String },
}

/// Mathematical model of an [`ExecuteMsg`].
pub enum ExecuteMsgView {
    Mint {
        token_id: Seq<char>,
        owner: Seq<char>,
        token_uri: Option<Seq<char>>,
        extension: Option<MetadataView>,
    },
    Request { token_id: Seq<char>, input: Seq<char> },
    Response { token_id: Seq<char>, task_id: Seq<char>, output: Seq<char> },
    Update { token_id: Seq<char>, title: Seq<char>, description: Seq<char> },
}

impl View for ExecuteMsg {
    type V = ExecuteMsgView;

    open spec fn view(&self) -> ExecuteMsgView {
        match self {
            ExecuteMsg::Mint { token_id, owner, token_uri, extension } => (ExecuteMsgView::Mint {
                token_id: token_id@,
                owner: owner@,
                token_uri: view_opt_string(*token_uri),
                extension: view_extension(*extension),
            }),
            ExecuteMsg::Request { token_id, input } => (ExecuteMsgView::Request {
                token_id: token_id@,
                input: input@,
            }),
            ExecuteMsg::Response { token_id, task_id, output } => (ExecuteMsgView::Response {
                token_id: token_id@,
                task_id: task_id@,
                output: output@,
            }),
            ExecuteMsg::Update { token_id, title, description } => (ExecuteMsgView::Update {
                token_id: token_id@,
                title: title@,
                description: description@,
            }),
        }
    }
}

/// The read-only query surface.  Ledger-native queries are forwarded
/// to the ledger contract by the caller.
#[derive(Debug, PartialEq)]
pub enum QueryMsg {
    Remains { token_id: String },
    IncompleteProjects {},
}

/// The ids of the token's tasks whose output is still absent.
#[derive(Debug, PartialEq)]
pub struct TaskIdsResponse {
    pub tids: Vec<String>,
}

impl View for TaskIdsResponse {
    type V = Seq<Seq<char>>;

    open spec fn view(&self) -> Seq<Seq<char>> {
        self.tids@.map_values(|t: String| t@)
    }
}

/// Snapshot of the incomplete-metadata index, in insertion order.
#[derive(Debug, PartialEq)]
pub struct IncompleteProjectsResponse {
    pub pids: Vec<String>,
}

impl View for IncompleteProjectsResponse {
    type V = Seq<Seq<char>>;

    open spec fn view(&self) -> Seq<Seq<char>> {
        self.pids@.map_values(|p: String| p@)
    }
}

/// The answer to a [`QueryMsg`].
#[derive(Debug, PartialEq)]
pub enum QueryAnswer {
    Remains(TaskIdsResponse),
    IncompleteProjects(IncompleteProjectsResponse),
}

} // verus!
