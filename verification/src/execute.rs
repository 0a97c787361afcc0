//! The mutating operations: instantiation, minting, task requests,
//! task responses, and metadata completion.
//!
//! Each operation has a spec-level transition function that maps the
//! old state and the arguments to the new state and the result; the
//! executable method's contract says that it performs exactly that
//! transition.

use vstd::prelude::*;

use crate::decimal::{dec_str, lemma_dec_str_injective, u64_to_string};
use crate::msg::{Attribute, ContractError, ExecuteMsg, ExecuteMsgView, InstantiateMsg, Response};
use crate::traits::Gateway721Execute;
use crate::state::{
    ContractView, Extension, Gateway721Contract, MetadataView, Task, TaskView, TokenInfo,
    TokenInfoView,
    find_task, has_task, has_token, lemma_remove_pid_push, lemma_remove_pid_spec,
    lemma_task_pos_unique, remove_pid, task_list_wf, task_pos, token_index, token_wf,
    view_extension, view_opt_string, view_tasks,
};

verus! {

/// Audit log entries at the spec level: key/value pairs.
pub type AttrsView = Seq<(Seq<char>, Seq<char>)>;

/// Relates an executable result to its spec-level model.
pub open spec fn result_matches(
    r: Result<Response, ContractError>,
    m: Result<AttrsView, ContractError>,
) -> bool {
    match (r, m) {
        (Result::Ok(resp), Result::Ok(attrs)) => resp@ == attrs,
        (Result::Err(e), Result::Err(f)) => e == f,
        _ => false,
    }
}

/// A caller-supplied extension record may have any subset of title and
/// description pre-filled, but its task list must be empty or absent.
pub open spec fn mint_allowed(ext: Option<MetadataView>) -> bool {
    ext matches Option::Some(m) ==> (m.tasks matches Option::Some(ts) ==> ts.len() == 0)
}

/// A token joins the incomplete-metadata index at mint time exactly
/// when it carries an extension record missing its title or its
/// description.
pub open spec fn needs_index(ext: Option<MetadataView>) -> bool {
    ext matches Option::Some(m) && (m.title is None || m.description is None)
}

/// Minting: the new token gets id `dec_str(count)`, is appended to the
/// ledger, and is registered in the incomplete-metadata index when its
/// metadata is incomplete.  Open to any caller; never fails.
pub open spec fn spec_mint(
    v: ContractView,
    sender: Seq<char>,
    owner: Seq<char>,
    token_uri: Option<Seq<char>>,
    ext: Option<MetadataView>,
) -> (ContractView, AttrsView) {
    let id = dec_str(v.tokens.len());
    let token = TokenInfoView { owner: owner, token_uri: token_uri, extension: ext };
    let v2 = ContractView {
        name: v.name,
        symbol: v.symbol,
        minter: v.minter,
        tokens: v.tokens.push(token),
        pids: if needs_index(ext) {
            v.pids.push(id)
        } else {
            v.pids
        },
    };
    (v2, seq![("action"@, "mint"@), ("minter"@, sender), ("owner"@, owner), ("token_id"@, id)])
}

/// A freshly minted id differs from every id already in the index.
pub proof fn lemma_fresh_id_not_indexed(v: ContractView)
    requires
        v.wf(),
    ensures
        forall|i: int| 0 <= i < v.pids.len() ==> v.pids[i] != dec_str(v.tokens.len()),
{
    assert forall|i: int| 0 <= i < v.pids.len() implies v.pids[i] != dec_str(v.tokens.len()) by {
        let k = choose|k: nat| k < v.tokens.len() && v.pids[i] == dec_str(k);
        if v.pids[i] == dec_str(v.tokens.len()) {
            lemma_dec_str_injective(k, v.tokens.len());
        }
    }
}

pub proof fn lemma_mint_preserves_wf(
    v: ContractView,
    sender: Seq<char>,
    owner: Seq<char>,
    token_uri: Option<Seq<char>>,
    ext: Option<MetadataView>,
)
    requires
        v.wf(),
        mint_allowed(ext),
    ensures
        spec_mint(v, sender, owner, token_uri, ext).0.wf(),
{
    let v2 = spec_mint(v, sender, owner, token_uri, ext).0;
    let n = v.tokens.len() as int;
    assert forall|k: int| 0 <= k < v2.tokens.len() implies token_wf(#[trigger] v2.tokens[k]) by {
        if k < n {
            assert(v2.tokens[k] == v.tokens[k]);
        }
    }
    lemma_fresh_id_not_indexed(v);
    if needs_index(ext) {
        assert forall|i: int| 0 <= i < v2.pids.len() implies exists|k: nat|
            k < v2.tokens.len() && #[trigger] v2.pids[i] == dec_str(k) by {
            if i < v.pids.len() {
                let k = choose|k: nat| k < v.tokens.len() && v.pids[i] == dec_str(k);
                assert(k < v2.tokens.len() && v2.pids[i] == dec_str(k));
            } else {
                assert(v2.pids[i] == dec_str(n as nat));
                assert((n as nat) < v2.tokens.len() && v2.pids[i] == dec_str(n as nat));
            }
        }
    } else {
        assert forall|i: int| 0 <= i < v2.pids.len() implies exists|k: nat|
            k < v2.tokens.len() && #[trigger] v2.pids[i] == dec_str(k) by {
            let k = choose|k: nat| k < v.tokens.len() && v.pids[i] == dec_str(k);
            assert(k < v2.tokens.len() && v2.pids[i] == dec_str(k));
        }
    }
}

/// A task request: appends a task whose id is the current length of
/// the token's task list, with the given input and no output yet.
/// Open to any caller; fails when the token does not exist or has no
/// extension record.
pub open spec fn spec_request(
    v: ContractView,
    sender: Seq<char>,
    token_id: Seq<char>,
    input: Seq<char>,
) -> (ContractView, Result<AttrsView, ContractError>) {
    if !has_token(v, token_id) {
        (v, Result::Err(ContractError::TokenNotFound))
    } else {
        let k = token_index(v, token_id) as int;
        let t = v.tokens[k];
        match t.extension {
            Option::None => (v, Result::Err(ContractError::InvalidExtension)),
            Option::Some(m) => {
                let ts = match m.tasks {
                    Option::Some(ts) => ts,
                    Option::None => Seq::<TaskView>::empty(),
                };
                let tid = dec_str(ts.len());
                let task = TaskView { tid: tid, input: input, output: Option::None };
                let m2 = MetadataView {
                    title: m.title,
                    description: m.description,
                    destination: m.destination,
                    code: m.code,
                    tasks: Option::Some(ts.push(task)),
                };
                let t2 = TokenInfoView {
                    owner: t.owner,
                    token_uri: t.token_uri,
                    extension: Option::Some(m2),
                };
                let v2 = ContractView {
                    name: v.name,
                    symbol: v.symbol,
                    minter: v.minter,
                    tokens: v.tokens.update(k, t2),
                    pids: v.pids,
                };
                (
                    v2,
                    Result::Ok(
                        seq![
                            ("action"@, "request"@),
                            ("requester"@, sender),
                            ("token_id"@, token_id),
                            ("task_id"@, tid),
                        ],
                    ),
                )
            },
        }
    }
}

/// A task response: sets the output of the pending task with the given
/// id.  Operator only; a task whose output is already set is reported
/// as not found, so outputs are written exactly once.
pub open spec fn spec_response(
    v: ContractView,
    sender: Seq<char>,
    token_id: Seq<char>,
    task_id: Seq<char>,
    output: Seq<char>,
) -> (ContractView, Result<AttrsView, ContractError>) {
    if sender != v.minter {
        (v, Result::Err(ContractError::Unauthorized))
    } else if !has_token(v, token_id) {
        (v, Result::Err(ContractError::TokenNotFound))
    } else {
        let k = token_index(v, token_id) as int;
        let t = v.tokens[k];
        match t.extension {
            Option::None => (v, Result::Err(ContractError::InvalidExtension)),
            Option::Some(m) => match m.tasks {
                Option::None => (v, Result::Err(ContractError::TaskNotFound)),
                Option::Some(ts) => if !has_task(ts, task_id) {
                    (v, Result::Err(ContractError::TaskNotFound))
                } else {
                    let j = task_pos(ts, task_id);
                    if ts[j].output is Some {
                        (v, Result::Err(ContractError::TaskNotFound))
                    } else {
                        let task2 = TaskView {
                            tid: ts[j].tid,
                            input: ts[j].input,
                            output: Option::Some(output),
                        };
                        let m2 = MetadataView {
                            title: m.title,
                            description: m.description,
                            destination: m.destination,
                            code: m.code,
                            tasks: Option::Some(ts.update(j, task2)),
                        };
                        let t2 = TokenInfoView {
                            owner: t.owner,
                            token_uri: t.token_uri,
                            extension: Option::Some(m2),
                        };
                        let v2 = ContractView {
                            name: v.name,
                            symbol: v.symbol,
                            minter: v.minter,
                            tokens: v.tokens.update(k, t2),
                            pids: v.pids,
                        };
                        (
                            v2,
                            Result::Ok(
                                seq![
                                    ("action"@, "response"@),
                                    ("token_id"@, token_id),
                                    ("task_id"@, task_id),
                                ],
                            ),
                        )
                    }
                },
            },
        }
    }
}

/// Metadata completion: fills whichever of title and description is
/// still unset, leaves set fields untouched, and removes the token
/// from the incomplete-metadata index.  Operator only; fails when both
/// fields are already set, so a token is completed exactly once.
pub open spec fn spec_update(
    v: ContractView,
    sender: Seq<char>,
    token_id: Seq<char>,
    title: Seq<char>,
    description: Seq<char>,
) -> (ContractView, Result<AttrsView, ContractError>) {
    if sender != v.minter {
        (v, Result::Err(ContractError::Unauthorized))
    } else if !has_token(v, token_id) {
        (v, Result::Err(ContractError::TokenNotFound))
    } else {
        let k = token_index(v, token_id) as int;
        let t = v.tokens[k];
        match t.extension {
            Option::None => (v, Result::Err(ContractError::InvalidFields)),
            Option::Some(m) => if m.title is Some && m.description is Some {
                (v, Result::Err(ContractError::AlreadyComplete))
            } else {
                let m2 = MetadataView {
                    title: if m.title is Some {
                        m.title
                    } else {
                        Option::Some(title)
                    },
                    description: if m.description is Some {
                        m.description
                    } else {
                        Option::Some(description)
                    },
                    destination: m.destination,
                    code: m.code,
                    tasks: m.tasks,
                };
                let t2 = TokenInfoView {
                    owner: t.owner,
                    token_uri: t.token_uri,
                    extension: Option::Some(m2),
                };
                let v2 = ContractView {
                    name: v.name,
                    symbol: v.symbol,
                    minter: v.minter,
                    tokens: v.tokens.update(k, t2),
                    pids: remove_pid(v.pids, token_id),
                };
                (v2, Result::Ok(seq![("action"@, "update"@), ("token_id"@, token_id)]))
            },
        }
    }
}

pub proof fn lemma_request_preserves_wf(
    v: ContractView,
    sender: Seq<char>,
    token_id: Seq<char>,
    input: Seq<char>,
)
    requires
        v.wf(),
    ensures
        spec_request(v, sender, token_id, input).0.wf(),
{
    let v2 = spec_request(v, sender, token_id, input).0;
    if has_token(v, token_id) {
        let k = token_index(v, token_id) as int;
        let t = v.tokens[k];
        if t.extension is Some {
            assert forall|l: int| 0 <= l < v2.tokens.len() implies token_wf(
                #[trigger] v2.tokens[l],
            ) by {
                if l != k {
                    assert(v2.tokens[l] == v.tokens[l]);
                }
            }
            assert forall|i: int| 0 <= i < v2.pids.len() implies exists|x: nat|
                x < v2.tokens.len() && #[trigger] v2.pids[i] == dec_str(x) by {
                let x = choose|x: nat| x < v.tokens.len() && v.pids[i] == dec_str(x);
                assert(x < v2.tokens.len() && v2.pids[i] == dec_str(x));
            }
        }
    }
}

pub proof fn lemma_response_preserves_wf(
    v: ContractView,
    sender: Seq<char>,
    token_id: Seq<char>,
    task_id: Seq<char>,
    output: Seq<char>,
)
    requires
        v.wf(),
    ensures
        spec_response(v, sender, token_id, task_id, output).0.wf(),
{
    let v2 = spec_response(v, sender, token_id, task_id, output).0;
    if spec_response(v, sender, token_id, task_id, output).1 is Ok {
        let k = token_index(v, token_id) as int;
        assert forall|l: int| 0 <= l < v2.tokens.len() implies token_wf(
            #[trigger] v2.tokens[l],
        ) by {
            if l != k {
                assert(v2.tokens[l] == v.tokens[l]);
            }
        }
        assert forall|i: int| 0 <= i < v2.pids.len() implies exists|x: nat|
            x < v2.tokens.len() && #[trigger] v2.pids[i] == dec_str(x) by {
            let x = choose|x: nat| x < v.tokens.len() && v.pids[i] == dec_str(x);
            assert(x < v2.tokens.len() && v2.pids[i] == dec_str(x));
        }
    }
}

pub proof fn lemma_update_preserves_wf(
    v: ContractView,
    sender: Seq<char>,
    token_id: Seq<char>,
    title: Seq<char>,
    description: Seq<char>,
)
    requires
        v.wf(),
    ensures
        spec_update(v, sender, token_id, title, description).0.wf(),
{
    let v2 = spec_update(v, sender, token_id, title, description).0;
    if spec_update(v, sender, token_id, title, description).1 is Ok {
        let k = token_index(v, token_id) as int;
        assert forall|l: int| 0 <= l < v2.tokens.len() implies token_wf(
            #[trigger] v2.tokens[l],
        ) by {
            if l != k {
                assert(v2.tokens[l] == v.tokens[l]);
            }
        }
        lemma_remove_pid_spec(v.pids, token_id);
        assert forall|i: int| 0 <= i < v2.pids.len() implies exists|x: nat|
            x < v2.tokens.len() && #[trigger] v2.pids[i] == dec_str(x) by {
            assert(v.pids.contains(v2.pids[i]));
            let l = choose|l: int| 0 <= l < v.pids.len() && v.pids[l] == v2.pids[i];
            let x = choose|x: nat| x < v.tokens.len() && v.pids[l] == dec_str(x);
            assert(x < v2.tokens.len() && v2.pids[i] == dec_str(x));
        }
    }
}

impl Gateway721Contract {
    /// Sets the contract up with no tokens, an empty incomplete-metadata
    /// index, and the instantiating caller as the sole operator.
    pub fn instantiate(msg: InstantiateMsg, sender: String) -> (c: Gateway721Contract)
        ensures
            c@ == (ContractView {
                name: msg.name@,
                symbol: msg.symbol@,
                minter: sender@,
                tokens: Seq::<TokenInfoView>::empty(),
                pids: Seq::<Seq<char>>::empty(),
            }),
            c@.wf(),
    {
        let c = Gateway721Contract {
            name: msg.name,
            symbol: msg.symbol,
            minter: sender,
            tokens: Vec::new(),
            incomplete_projects: Vec::new(),
        };
        proof {
            assert(c@.tokens =~= Seq::<TokenInfoView>::empty());
            assert(c@.pids =~= Seq::<Seq<char>>::empty());
        }
        c
    }

    /// Mints the next token.  Any caller may mint; the caller-supplied
    /// extension must not carry pre-filled tasks.
    pub fn mint_anyone(
        &mut self,
        sender: String,
        owner: String,
        token_uri: Option<String>,
        extension: Extension,
    ) -> (r: Result<Response, ContractError>)
        requires
            old(self)@.wf(),
            mint_allowed(view_extension(extension)),
        ensures
            final(self)@ == spec_mint(
                old(self)@,
                sender@,
                owner@,
                view_opt_string(token_uri),
                view_extension(extension),
            ).0,
            result_matches(
                r,
                Result::Ok(
                    spec_mint(
                        old(self)@,
                        sender@,
                        owner@,
                        view_opt_string(token_uri),
                        view_extension(extension),
                    ).1,
                ),
            ),
            final(self)@.wf(),
    {
        proof {
            lemma_mint_preserves_wf(
                old(self)@,
                sender@,
                owner@,
                view_opt_string(token_uri),
                view_extension(extension),
            );
        }
        let id = u64_to_string(self.tokens.len() as u64);
        let needs = match &extension {
            Some(m) => m.title.is_none() || m.description.is_none(),
            None => false,
        };
        let token = TokenInfo { owner: owner.clone(), token_uri, extension };
        self.tokens.push(token);
        if needs {
            self.incomplete_projects.push(id.clone());
        }
        let mut attributes: Vec<Attribute> = Vec::new();
        attributes.push(Attribute { key: "action".to_owned(), value: "mint".to_owned() });
        attributes.push(Attribute { key: "minter".to_owned(), value: sender });
        attributes.push(Attribute { key: "owner".to_owned(), value: owner });
        attributes.push(Attribute { key: "token_id".to_owned(), value: id });
        let resp = Response { attributes };
        proof {
            let m = spec_mint(
                old(self)@,
                sender@,
                owner@,
                view_opt_string(token_uri),
                view_extension(extension),
            );
            assert(self@.tokens =~= m.0.tokens);
            assert(self@.pids =~= m.0.pids);
            assert(resp@ =~= m.1);
        }
        Ok(resp)
    }
}

/// One step of the command dispatcher: the state transition and the
/// result of the matched operation.
pub open spec fn spec_execute(v: ContractView, sender: Seq<char>, msg: ExecuteMsgView) -> (
    ContractView,
    Result<AttrsView, ContractError>,
) {
    match msg {
        ExecuteMsgView::Mint { token_id, owner, token_uri, extension } => {
            let r = spec_mint(v, sender, owner, token_uri, extension);
            (r.0, Result::Ok(r.1))
        },
        ExecuteMsgView::Request { token_id, input } => spec_request(v, sender, token_id, input),
        ExecuteMsgView::Response { token_id, task_id, output } => spec_response(
            v,
            sender,
            token_id,
            task_id,
            output,
        ),
        ExecuteMsgView::Update { token_id, title, description } => spec_update(
            v,
            sender,
            token_id,
            title,
            description,
        ),
    }
}

/// The one demand the command surface makes of its caller: a minted
/// extension record carries no pre-filled tasks.
pub open spec fn execute_allowed(msg: ExecuteMsgView) -> bool {
    msg matches ExecuteMsgView::Mint { extension, .. } ==> mint_allowed(extension)
}

impl Gateway721Contract {
    /// Routes a command to the matching operation.
    pub fn execute(&mut self, sender: String, msg: ExecuteMsg) -> (r: Result<
        Response,
        ContractError,
    >)
        requires
            old(self)@.wf(),
            execute_allowed(msg@),
        ensures
            final(self)@ == spec_execute(old(self)@, sender@, msg@).0,
            result_matches(r, spec_execute(old(self)@, sender@, msg@).1),
            final(self)@.wf(),
    {
        match msg {
            ExecuteMsg::Mint { token_id: _, owner, token_uri, extension } => self.mint_anyone(
                sender,
                owner,
                token_uri,
                extension,
            ),
            ExecuteMsg::Request { token_id, input } => self.request(sender, token_id, input),
            ExecuteMsg::Response { token_id, task_id, output } => self.response(
                sender,
                token_id,
                task_id,
                output,
            ),
            ExecuteMsg::Update { token_id, title, description } => self.update(
                sender,
                token_id,
                title,
                description,
            ),
        }
    }
}

impl Gateway721Execute for Gateway721Contract {
    open spec fn inv(&self) -> bool {
        self@.wf()
    }

    fn request(&mut self, sender: String, token_id: String, input: String) -> (r: Result<
        Response,
        ContractError,
    >)
        ensures
            final(self)@ == spec_request(old(self)@, sender@, token_id@, input@).0,
            result_matches(r, spec_request(old(self)@, sender@, token_id@, input@).1),
    {
        let i = match self.find_token(&token_id) {
            Some(i) => i,
            None => {
                return Err(ContractError::TokenNotFound);
            },
        };
        let mut token = self.tokens.remove(i);
        match token.extension {
            None => {
                self.tokens.insert(i, token);
                proof {
                    assert(self@.tokens =~= old(self)@.tokens);
                    assert(self@ =~= old(self)@);
                }
                Err(ContractError::InvalidExtension)
            },
            Some(mut m) => {
                let mut ts = match m.tasks {
                    Some(ts) => ts,
                    None => Vec::new(),
                };
                let tid = u64_to_string(ts.len() as u64);
                ts.push(Task { tid: tid.clone(), input, output: None });
                m.tasks = Some(ts);
                token.extension = Some(m);
                self.tokens.insert(i, token);
                let mut attributes: Vec<Attribute> = Vec::new();
                attributes.push(
                    Attribute { key: "action".to_owned(), value: "request".to_owned() },
                );
                attributes.push(Attribute { key: "requester".to_owned(), value: sender });
                attributes.push(Attribute { key: "token_id".to_owned(), value: token_id });
                attributes.push(Attribute { key: "task_id".to_owned(), value: tid });
                let resp = Response { attributes };
                proof {
                    lemma_request_preserves_wf(old(self)@, sender@, token_id@, input@);
                    let res = spec_request(old(self)@, sender@, token_id@, input@);
                    assert(self@.tokens =~~= res.0.tokens);
                    assert(self@ =~~= res.0);
                    assert(resp@ =~= res.1->Ok_0);
                }
                Ok(resp)
            },
        }
    }

    fn response(
        &mut self,
        sender: String,
        token_id: String,
        task_id: String,
        output: String,
    ) -> (r: Result<Response, ContractError>)
        ensures
            final(self)@ == spec_response(old(self)@, sender@, token_id@, task_id@, output@).0,
            result_matches(r, spec_response(old(self)@, sender@, token_id@, task_id@, output@).1),
    {
        if !(sender == self.minter) {
            return Err(ContractError::Unauthorized);
        }
        let i = match self.find_token(&token_id) {
            Some(i) => i,
            None => {
                return Err(ContractError::TokenNotFound);
            },
        };
        let mut token = self.tokens.remove(i);
        match token.extension {
            None => {
                self.tokens.insert(i, token);
                proof {
                    assert(self@.tokens =~= old(self)@.tokens);
                    assert(self@ =~= old(self)@);
                }
                Err(ContractError::InvalidExtension)
            },
            Some(mut m) => {
                if m.tasks.is_none() {
                    token.extension = Some(m);
                    self.tokens.insert(i, token);
                    proof {
                        assert(self@.tokens =~= old(self)@.tokens);
                        assert(self@ =~= old(self)@);
                    }
                    Err(ContractError::TaskNotFound)
                } else {
                    {
                        let mut ts = match m.tasks {
                            Some(ts) => ts,
                            None => Vec::new(),
                        };
                        let j_opt = find_task(&ts, &task_id);
                        let pending = match j_opt {
                            Some(j) => ts[j].output.is_none(),
                            None => false,
                        };
                        proof {
                            let vts = old(self)@.tokens[i as int].extension->Some_0.tasks->Some_0;
                            assert(vts =~= view_tasks(ts@));
                            if j_opt is Some {
                                lemma_task_pos_unique(vts, task_id@, j_opt->Some_0 as int);
                            }
                        }
                        if !pending {
                            m.tasks = Some(ts);
                            token.extension = Some(m);
                            self.tokens.insert(i, token);
                            proof {
                                assert(self@.tokens =~~= old(self)@.tokens);
                                assert(self@ =~~= old(self)@);
                            }
                            Err(ContractError::TaskNotFound)
                        } else {
                            let j = match j_opt {
                                Some(j) => j,
                                None => {
                                    proof {
                                        assert(false);
                                    }
                                    return Err(ContractError::TaskNotFound);
                                },
                            };
                            let mut task = ts.remove(j);
                            task.output = Some(output);
                            ts.insert(j, task);
                            m.tasks = Some(ts);
                            token.extension = Some(m);
                            self.tokens.insert(i, token);
                            let mut attributes: Vec<Attribute> = Vec::new();
                            attributes.push(
                                Attribute { key: "action".to_owned(), value: "response".to_owned() },
                            );
                            attributes.push(
                                Attribute { key: "token_id".to_owned(), value: token_id },
                            );
                            attributes.push(
                                Attribute { key: "task_id".to_owned(), value: task_id },
                            );
                            let resp = Response { attributes };
                            proof {
                                lemma_response_preserves_wf(
                                    old(self)@,
                                    sender@,
                                    token_id@,
                                    task_id@,
                                    output@,
                                );
                                let res = spec_response(
                                    old(self)@,
                                    sender@,
                                    token_id@,
                                    task_id@,
                                    output@,
                                );
                                assert(self@.tokens =~~= res.0.tokens);
                                assert(self@ =~~= res.0);
                                assert(resp@ =~= res.1->Ok_0);
                            }
                            Ok(resp)
                        }
                    }
                }
            },
        }
    }

    fn update(
        &mut self,
        sender: String,
        token_id: String,
        title: String,
        description: String,
    ) -> (r: Result<Response, ContractError>)
        ensures
            final(self)@ == spec_update(old(self)@, sender@, token_id@, title@, description@).0,
            result_matches(r, spec_update(old(self)@, sender@, token_id@, title@, description@).1),
    {
        if !(sender == self.minter) {
            return Err(ContractError::Unauthorized);
        }
        let i = match self.find_token(&token_id) {
            Some(i) => i,
            None => {
                return Err(ContractError::TokenNotFound);
            },
        };
        let mut token = self.tokens.remove(i);
        match token.extension {
            None => {
                self.tokens.insert(i, token);
                proof {
                    assert(self@.tokens =~= old(self)@.tokens);
                    assert(self@ =~= old(self)@);
                }
                Err(ContractError::InvalidFields)
            },
            Some(mut m) => {
                if m.title.is_some() && m.description.is_some() {
                    token.extension = Some(m);
                    self.tokens.insert(i, token);
                    proof {
                        assert(self@.tokens =~~= old(self)@.tokens);
                        assert(self@ =~~= old(self)@);
                    }
                    Err(ContractError::AlreadyComplete)
                } else {
                    if m.title.is_none() {
                        m.title = Some(title);
                    }
                    if m.description.is_none() {
                        m.description = Some(description);
                    }
                    token.extension = Some(m);
                    self.tokens.insert(i, token);

                    let ghost vs = self@.pids;
                    let n = self.incomplete_projects.len();
                    let mut kept: Vec<String> = Vec::new();
                    let mut idx: usize = 0;
                    while idx < n
                        invariant
                            n == self.incomplete_projects.len(),
                            idx <= n,
                            vs == self@.pids,
                            kept@.len() == remove_pid(vs.take(idx as int), token_id@).len(),
                            forall|l: int| 0 <= l < kept@.len()
                                ==> (#[trigger] kept@[l])@
                                    == remove_pid(vs.take(idx as int), token_id@)[l],
                        decreases n - idx,
                    {
                        proof {
                            assert(vs.take(idx as int + 1) =~= vs.take(idx as int).push(
                                vs[idx as int],
                            ));
                            lemma_remove_pid_push(vs.take(idx as int), vs[idx as int], token_id@);
                        }
                        if !(self.incomplete_projects[idx] == token_id) {
                            let p = self.incomplete_projects[idx].clone();
                            kept.push(p);
                        }
                        idx = idx + 1;
                    }
                    self.incomplete_projects = kept;

                    let mut attributes: Vec<Attribute> = Vec::new();
                    attributes.push(
                        Attribute { key: "action".to_owned(), value: "update".to_owned() },
                    );
                    attributes.push(Attribute { key: "token_id".to_owned(), value: token_id });
                    let resp = Response { attributes };
                    proof {
                        lemma_update_preserves_wf(
                            old(self)@,
                            sender@,
                            token_id@,
                            title@,
                            description@,
                        );
                        let res = spec_update(old(self)@, sender@, token_id@, title@, description@);
                        assert(vs =~= vs.take(n as int));
                        assert(self@.pids =~= remove_pid(old(self)@.pids, token_id@));
                        assert(self@.tokens =~~= res.0.tokens);
                        assert(self@ =~~= res.0);
                        assert(resp@ =~= res.1->Ok_0);
                    }
                    Ok(resp)
                }
            },
        }
    }
}

} // verus!
