//! The behavioural laws of the contract, proved once and for all over
//! the spec-level transitions that the executable methods are bound
//! to.

use vstd::prelude::*;

use crate::decimal::{dec_str, lemma_dec_str_injective};
use crate::execute::{
    execute_allowed, mint_allowed, needs_index, spec_execute, spec_mint, spec_request,
    spec_response, spec_update,
};
use crate::msg::{ContractError, ExecuteMsgView};
use crate::query::{lemma_pending_ids_sound, pending_ids, spec_remains};
use crate::state::{
    ContractView, MetadataView, TaskView, has_task, has_token, lemma_remove_pid_spec,
    lemma_task_pos_unique, lemma_token_index_unique, task_list_wf, task_pos, token_index,
};

verus! {

/// Task ids are sequential: in a valid state, every token's task list
/// reads "0", "1", ..., "N-1" in creation order, and a successful
/// request appends exactly the task "N" with the given input and no
/// output.
pub proof fn task_ids_are_sequential(
    v: ContractView,
    sender: Seq<char>,
    token_id: Seq<char>,
    input: Seq<char>,
)
    requires
        v.wf(),
        spec_request(v, sender, token_id, input).1 is Ok,
    ensures
        ({
            let k = token_index(v, token_id) as int;
            let old_ts = match v.tokens[k].extension->Some_0.tasks {
                Option::Some(ts) => ts,
                Option::None => Seq::<TaskView>::empty(),
            };
            let new_ts = spec_request(v, sender, token_id, input).0.tokens[k].extension
                ->Some_0.tasks->Some_0;
            &&& new_ts == old_ts.push(
                (TaskView { tid: dec_str(old_ts.len()), input: input, output: Option::None }),
            )
            &&& forall|i: int| 0 <= i < new_ts.len() ==> (#[trigger] new_ts[i]).tid == dec_str(
                i as nat,
            )
        }),
{
    let k = token_index(v, token_id) as int;
    assert(crate::state::token_wf(v.tokens[k]));
}

/// The task list of an extension record, empty while absent.
pub open spec fn opt_task_seq(o: Option<Seq<TaskView>>) -> Seq<TaskView> {
    match o {
        Option::Some(ts) => ts,
        Option::None => Seq::<TaskView>::empty(),
    }
}

/// The state after a burst of task requests on one token.
pub open spec fn after_requests(
    v: ContractView,
    sender: Seq<char>,
    token_id: Seq<char>,
    inputs: Seq<Seq<char>>,
) -> ContractView
    decreases inputs.len(),
{
    if inputs.len() == 0 {
        v
    } else {
        after_requests(
            spec_request(v, sender, token_id, inputs[0]).0,
            sender,
            token_id,
            inputs.drop_first(),
        )
    }
}

/// Whether every request of the burst succeeds.
pub open spec fn all_requests_ok(
    v: ContractView,
    sender: Seq<char>,
    token_id: Seq<char>,
    inputs: Seq<Seq<char>>,
) -> bool
    decreases inputs.len(),
{
    inputs.len() == 0 || (spec_request(v, sender, token_id, inputs[0]).1 is Ok
        && all_requests_ok(
        spec_request(v, sender, token_id, inputs[0]).0,
        sender,
        token_id,
        inputs.drop_first(),
    ))
}

/// Task ids are sequential, N-call form: on a token with an extension
/// record, N requests all succeed and leave the task list numbered
/// "0", ..., "len-1" in call order, the N new tasks carrying the given
/// inputs, in order, with no output yet.
pub proof fn requests_number_in_order(
    v: ContractView,
    sender: Seq<char>,
    token_id: Seq<char>,
    inputs: Seq<Seq<char>>,
)
    requires
        v.wf(),
        has_token(v, token_id),
        v.tokens[token_index(v, token_id) as int].extension is Some,
    ensures
        ({
            let k = token_index(v, token_id) as int;
            let v2 = after_requests(v, sender, token_id, inputs);
            let old_ts = opt_task_seq(v.tokens[k].extension->Some_0.tasks);
            &&& all_requests_ok(v, sender, token_id, inputs)
            &&& v2.wf()
            &&& v2.tokens.len() == v.tokens.len()
            &&& v2.tokens[k].extension is Some
            &&& inputs.len() > 0 ==> v2.tokens[k].extension->Some_0.tasks is Some
            &&& ({
                let new_ts = opt_task_seq(v2.tokens[k].extension->Some_0.tasks);
                &&& new_ts.len() == old_ts.len() + inputs.len()
                &&& new_ts.take(old_ts.len() as int) == old_ts
                &&& forall|i: int| 0 <= i < new_ts.len() ==> (#[trigger] new_ts[i]).tid
                    == dec_str(i as nat)
                &&& forall|i: int| 0 <= i < inputs.len()
                    ==> (#[trigger] new_ts[old_ts.len() + i]).input == inputs[i]
                        && new_ts[old_ts.len() + i].output is None
            })
        }),
    decreases inputs.len(),
{
    let k = token_index(v, token_id) as int;
    assert(crate::state::token_wf(v.tokens[k]));
    if inputs.len() > 0 {
        let v1 = spec_request(v, sender, token_id, inputs[0]).0;
        crate::execute::lemma_request_preserves_wf(v, sender, token_id, inputs[0]);
        lemma_token_index_unique(v1, token_id, k as nat);
        requests_number_in_order(v1, sender, token_id, inputs.drop_first());
        let old_ts = opt_task_seq(v.tokens[k].extension->Some_0.tasks);
        let ts1 = opt_task_seq(v1.tokens[k].extension->Some_0.tasks);
        assert(ts1 == old_ts.push(
            (TaskView { tid: dec_str(old_ts.len()), input: inputs[0], output: Option::None }),
        ));
        let v2 = after_requests(v, sender, token_id, inputs);
        let new_ts = opt_task_seq(v2.tokens[k].extension->Some_0.tasks);
        assert(new_ts.take(ts1.len() as int) == ts1);
        assert forall|i: int| 0 <= i < inputs.len() implies (#[trigger] new_ts[old_ts.len()
            + i]).input == inputs[i] && new_ts[old_ts.len() + i].output is None by {
            if i == 0 {
                assert(new_ts[old_ts.len() as int] == new_ts.take(ts1.len() as int)[old_ts.len() as int]);
            } else {
                assert(new_ts[ts1.len() + (i - 1)].input == inputs.drop_first()[i - 1]);
            }
        }
        assert(new_ts.take(old_ts.len() as int) =~= old_ts) by {
            assert forall|l: int| 0 <= l < old_ts.len() implies new_ts.take(
                old_ts.len() as int,
            )[l] == old_ts[l] by {
                assert(new_ts[l] == new_ts.take(ts1.len() as int)[l]);
                assert(ts1[l] == old_ts[l]);
            }
        }
    }
}

/// Single fulfillment: once a response succeeds, the task's output is
/// the delivered value, a second response to the same task fails, and
/// the task is no longer listed as pending.
pub proof fn single_fulfillment(
    v: ContractView,
    sender: Seq<char>,
    token_id: Seq<char>,
    task_id: Seq<char>,
    output: Seq<char>,
    output2: Seq<char>,
)
    requires
        v.wf(),
        spec_response(v, sender, token_id, task_id, output).1 is Ok,
    ensures
        ({
            let v2 = spec_response(v, sender, token_id, task_id, output).0;
            let k = token_index(v, token_id) as int;
            let ts2 = v2.tokens[k].extension->Some_0.tasks->Some_0;
            &&& ts2[task_pos(ts2, task_id)].output == Option::Some(output)
            &&& spec_response(v2, v2.minter, token_id, task_id, output2).1 == Result::<
                Seq<(Seq<char>, Seq<char>)>,
                ContractError,
            >::Err(ContractError::TaskNotFound)
            &&& spec_remains(v2, token_id) matches Result::Ok(ids) && !ids.contains(task_id)
        }),
{
    let v2 = spec_response(v, sender, token_id, task_id, output).0;
    let k = token_index(v, token_id) as nat;
    let ts = v.tokens[k as int].extension->Some_0.tasks->Some_0;
    let j = task_pos(ts, task_id);
    let ts2 = ts.update(j, (TaskView { tid: ts[j].tid, input: ts[j].input, output: Option::Some(output) }));
    assert(v2.tokens[k as int].extension->Some_0.tasks->Some_0 == ts2);
    assert(task_list_wf(ts));
    assert(task_list_wf(ts2)) by {
        assert(forall|i: int| 0 <= i < ts2.len() ==> (#[trigger] ts2[i]).tid == ts[i].tid);
    }
    lemma_token_index_unique(v2, token_id, k);
    lemma_task_pos_unique(ts2, task_id, j);
    assert(ts2[task_pos(ts2, task_id)].output == Option::Some(output));
    assert(spec_response(v2, v2.minter, token_id, task_id, output2).1 == Result::<
        Seq<(Seq<char>, Seq<char>)>,
        ContractError,
    >::Err(ContractError::TaskNotFound));
    assert forall|l: int|
        0 <= l < ts2.len() && (#[trigger] ts2[l]).tid == task_id implies ts2[l].output
        is Some by {
        lemma_task_pos_unique(ts2, task_id, l);
    }
    lemma_pending_ids_sound(ts2, task_id);
}

/// Completion is monotonic: a successful update leaves both metadata
/// fields set, and every later update of the same token fails with
/// `AlreadyComplete`.
pub proof fn completion_is_monotonic(
    v: ContractView,
    sender: Seq<char>,
    token_id: Seq<char>,
    title: Seq<char>,
    description: Seq<char>,
    title2: Seq<char>,
    description2: Seq<char>,
)
    requires
        v.wf(),
        spec_update(v, sender, token_id, title, description).1 is Ok,
    ensures
        ({
            let v2 = spec_update(v, sender, token_id, title, description).0;
            let m2 = v2.tokens[token_index(v, token_id) as int].extension->Some_0;
            &&& m2.title is Some
            &&& m2.description is Some
            &&& spec_update(v2, v2.minter, token_id, title2, description2).1 == Result::<
                Seq<(Seq<char>, Seq<char>)>,
                ContractError,
            >::Err(ContractError::AlreadyComplete)
        }),
{
    let v2 = spec_update(v, sender, token_id, title, description).0;
    let k = token_index(v, token_id) as nat;
    lemma_token_index_unique(v2, token_id, k);
}

/// Index consistency, mint step: a token minted with incomplete
/// metadata is appended to the index, where it then occurs exactly
/// once; a token minted with complete metadata leaves the index
/// untouched.
pub proof fn mint_registers_incomplete(
    v: ContractView,
    sender: Seq<char>,
    owner: Seq<char>,
    token_uri: Option<Seq<char>>,
    ext: Option<MetadataView>,
)
    requires
        v.wf(),
        mint_allowed(ext),
    ensures
        ({
            let v2 = spec_mint(v, sender, owner, token_uri, ext).0;
            let id = dec_str(v.tokens.len());
            &&& needs_index(ext) ==> v2.pids == v.pids.push(id) && v2.pids.contains(id)
            &&& !needs_index(ext) ==> v2.pids == v.pids
            &&& forall|i: int, j: int| 0 <= i < j < v2.pids.len() ==> v2.pids[i] != v2.pids[j]
        }),
{
    let v2 = spec_mint(v, sender, owner, token_uri, ext).0;
    let id = dec_str(v.tokens.len());
    crate::execute::lemma_mint_preserves_wf(v, sender, owner, token_uri, ext);
    if needs_index(ext) {
        assert(v2.pids[v.pids.len() as int] == id);
    }
}

/// Index consistency, update step: a successful update removes the
/// token's id from the index and keeps every other id.
pub proof fn update_clears_index(
    v: ContractView,
    sender: Seq<char>,
    token_id: Seq<char>,
    title: Seq<char>,
    description: Seq<char>,
)
    requires
        v.wf(),
        spec_update(v, sender, token_id, title, description).1 is Ok,
    ensures
        ({
            let v2 = spec_update(v, sender, token_id, title, description).0;
            &&& !v2.pids.contains(token_id)
            &&& forall|p: Seq<char>|
                p != token_id ==> (v2.pids.contains(p) <==> v.pids.contains(p))
        }),
{
    let v2 = spec_update(v, sender, token_id, title, description).0;
    lemma_remove_pid_spec(v.pids, token_id);
    if v2.pids.contains(token_id) {
        let l = choose|l: int| 0 <= l < v2.pids.len() && v2.pids[l] == token_id;
        assert(v2.pids[l] != token_id);
    }
}

/// Index consistency, closing step: once an already-minted id is out
/// of the index, no later operation brings it back.
pub proof fn absent_id_stays_absent(
    v: ContractView,
    sender: Seq<char>,
    msg: ExecuteMsgView,
    id: Seq<char>,
    k: nat,
)
    requires
        v.wf(),
        execute_allowed(msg),
        k < v.tokens.len(),
        id == dec_str(k),
        !v.pids.contains(id),
    ensures
        !spec_execute(v, sender, msg).0.pids.contains(id),
{
    let v2 = spec_execute(v, sender, msg).0;
    match msg {
        ExecuteMsgView::Mint { token_id, owner, token_uri, extension } => {
            if needs_index(extension) {
                let fresh = dec_str(v.tokens.len());
                lemma_dec_str_injective_contrapositive(k, v.tokens.len());
                if v2.pids.contains(id) {
                    let l = choose|l: int| 0 <= l < v2.pids.len() && v2.pids[l] == id;
                    if l < v.pids.len() {
                        assert(v.pids[l] == id);
                        assert(v.pids.contains(id));
                    } else {
                        assert(v2.pids[l] == fresh);
                    }
                }
            }
        },
        ExecuteMsgView::Request { token_id, input } => {
            if v2.pids.contains(id) {
                assert(v.pids.contains(id));
            }
        },
        ExecuteMsgView::Response { token_id, task_id, output } => {
            if v2.pids.contains(id) {
                assert(v.pids.contains(id));
            }
        },
        ExecuteMsgView::Update { token_id, title, description } => {
            if spec_update(v, sender, token_id, title, description).1 is Ok {
                lemma_remove_pid_spec(v.pids, token_id);
                if v2.pids.contains(id) {
                    let l = choose|l: int| 0 <= l < v2.pids.len() && v2.pids[l] == id;
                    assert(v.pids.contains(v2.pids[l]));
                }
            }
        },
    }
}

proof fn lemma_dec_str_injective_contrapositive(a: nat, b: nat)
    requires
        a != b,
    ensures
        dec_str(a) != dec_str(b),
{
    if dec_str(a) == dec_str(b) {
        lemma_dec_str_injective(a, b);
    }
}

/// Index consistency, frame step: task requests and task responses
/// never touch the incomplete-metadata index.
pub proof fn queue_ops_leave_index(
    v: ContractView,
    sender: Seq<char>,
    token_id: Seq<char>,
    task_id: Seq<char>,
    text: Seq<char>,
)
    ensures
        spec_request(v, sender, token_id, text).0.pids == v.pids,
        spec_response(v, sender, token_id, task_id, text).0.pids == v.pids,
{
}

/// Single fulfillment, frame step: an operation changes a task's
/// output only when it is the response that targets exactly that
/// task.  In particular an output stays absent until such a response
/// succeeds, and stays what that response wrote afterwards.
pub proof fn output_untouched_except_response(
    v: ContractView,
    sender: Seq<char>,
    msg: ExecuteMsgView,
    k: int,
    j: int,
)
    requires
        v.wf(),
        0 <= k < v.tokens.len(),
        v.tokens[k].extension is Some,
        v.tokens[k].extension->Some_0.tasks is Some,
        0 <= j < v.tokens[k].extension->Some_0.tasks->Some_0.len(),
        !(msg matches ExecuteMsgView::Response { token_id, task_id, .. }
            && token_id == dec_str(k as nat)
            && task_id == v.tokens[k].extension->Some_0.tasks->Some_0[j].tid),
    ensures
        ({
            let v2 = spec_execute(v, sender, msg).0;
            let task = v.tokens[k].extension->Some_0.tasks->Some_0[j];
            &&& v2.tokens[k].extension is Some
            &&& v2.tokens[k].extension->Some_0.tasks is Some
            &&& j < v2.tokens[k].extension->Some_0.tasks->Some_0.len()
            &&& v2.tokens[k].extension->Some_0.tasks->Some_0[j] == task
        }),
{
    let v2 = spec_execute(v, sender, msg).0;
    let ts = v.tokens[k].extension->Some_0.tasks->Some_0;
    match msg {
        ExecuteMsgView::Mint { token_id, owner, token_uri, extension } => {
            assert(v2.tokens[k] == v.tokens[k]);
        },
        ExecuteMsgView::Request { token_id, input } => {
            if spec_request(v, sender, token_id, input).1 is Ok {
                let k2 = token_index(v, token_id) as int;
                if k2 != k {
                    assert(v2.tokens[k] == v.tokens[k]);
                } else {
                    // the request appends; existing tasks keep their place
                    assert(v2.tokens[k].extension->Some_0.tasks->Some_0[j] == ts[j]);
                }
            }
        },
        ExecuteMsgView::Response { token_id, task_id, output } => {
            if spec_response(v, sender, token_id, task_id, output).1 is Ok {
                let k2 = token_index(v, token_id) as int;
                if k2 != k {
                    assert(v2.tokens[k] == v.tokens[k]);
                } else {
                    // same token: the targeted task cannot be task j,
                    // whose id differs from the targeted id
                    assert(dec_str(k2 as nat) == token_id);
                    assert(token_id == dec_str(k as nat));
                    let jt = task_pos(ts, task_id);
                    assert(ts[jt].tid == task_id);
                    assert(jt != j);
                    assert(v2.tokens[k].extension->Some_0.tasks->Some_0[j] == ts[j]);
                }
            }
        },
        ExecuteMsgView::Update { token_id, title, description } => {
            if spec_update(v, sender, token_id, title, description).1 is Ok {
                let k2 = token_index(v, token_id) as int;
                if k2 != k {
                    assert(v2.tokens[k] == v.tokens[k]);
                } else {
                    // completion rewrites metadata fields, not tasks
                    assert(v2.tokens[k].extension->Some_0.tasks == Option::Some(ts));
                }
            }
        },
    }
}

/// Metadata immutability: once a token's title or description is set,
/// no operation ever changes it again.
pub proof fn set_metadata_never_changes(
    v: ContractView,
    sender: Seq<char>,
    msg: ExecuteMsgView,
    k: int,
)
    requires
        v.wf(),
        0 <= k < v.tokens.len(),
        v.tokens[k].extension is Some,
    ensures
        ({
            let m = v.tokens[k].extension->Some_0;
            let v2 = spec_execute(v, sender, msg).0;
            let m2 = v2.tokens[k].extension->Some_0;
            &&& v2.tokens[k].extension is Some
            &&& m.title is Some ==> m2.title == m.title
            &&& m.description is Some ==> m2.description == m.description
        }),
{
    let v2 = spec_execute(v, sender, msg).0;
    match msg {
        ExecuteMsgView::Mint { token_id, owner, token_uri, extension } => {
            assert(v2.tokens[k] == v.tokens[k]);
        },
        ExecuteMsgView::Request { token_id, input } => {
            if spec_request(v, sender, token_id, input).1 is Ok {
                if token_index(v, token_id) as int != k {
                    assert(v2.tokens[k] == v.tokens[k]);
                }
            }
        },
        ExecuteMsgView::Response { token_id, task_id, output } => {
            if spec_response(v, sender, token_id, task_id, output).1 is Ok {
                if token_index(v, token_id) as int != k {
                    assert(v2.tokens[k] == v.tokens[k]);
                }
            }
        },
        ExecuteMsgView::Update { token_id, title, description } => {
            if spec_update(v, sender, token_id, title, description).1 is Ok {
                if token_index(v, token_id) as int != k {
                    assert(v2.tokens[k] == v.tokens[k]);
                }
            }
        },
    }
}

/// Authorization: a response or update fails with `Unauthorized`
/// exactly when the caller is not the operator, whatever the rest of
/// the arguments; minting and task requests are open to any caller.
pub proof fn only_the_operator_writes(
    v: ContractView,
    sender: Seq<char>,
    token_id: Seq<char>,
    task_id: Seq<char>,
    output: Seq<char>,
    title: Seq<char>,
    description: Seq<char>,
)
    ensures
        (spec_response(v, sender, token_id, task_id, output).1 == Result::<
            Seq<(Seq<char>, Seq<char>)>,
            ContractError,
        >::Err(ContractError::Unauthorized)) <==> sender != v.minter,
        (spec_update(v, sender, token_id, title, description).1 == Result::<
            Seq<(Seq<char>, Seq<char>)>,
            ContractError,
        >::Err(ContractError::Unauthorized)) <==> sender != v.minter,
        sender != v.minter ==> spec_response(v, sender, token_id, task_id, output).0 == v,
        sender != v.minter ==> spec_update(v, sender, token_id, title, description).0 == v,
{
}

/// Authorization, other half: who the caller is never decides the
/// outcome of a mint or a request.  A mint succeeds for every caller;
/// a request succeeds or fails the same way for every caller, and
/// leaves the same state.
pub proof fn any_caller_mints_and_requests(
    v: ContractView,
    sender1: Seq<char>,
    sender2: Seq<char>,
    token_id: Seq<char>,
    input: Seq<char>,
    msg: ExecuteMsgView,
)
    ensures
        spec_request(v, sender1, token_id, input).0 == spec_request(v, sender2, token_id, input).0,
        spec_request(v, sender1, token_id, input).1 is Ok <==> spec_request(
            v,
            sender2,
            token_id,
            input,
        ).1 is Ok,
        msg is Mint ==> spec_execute(v, sender1, msg).1 is Ok,
{
}

} // verus!
