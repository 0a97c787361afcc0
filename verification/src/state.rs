//! The contract state: tokens, their extension records, and the global
//! index of tokens with incomplete metadata.

use vstd::prelude::*;

use crate::decimal::{dec_str, lemma_dec_str_injective, u64_to_string};

verus! {

/// One computation request attached to a token.  `tid` is the task's
/// zero-based position in its token's task list, as a decimal string;
/// `output` is absent until the task is fulfilled.
#[derive(Clone, Debug, PartialEq)]
pub struct Task {
    pub tid: String,
    pub input: String,
    pub output: Option<String>,
}

/// Mathematical model of a [`Task`].
#[verifier::ext_equal]
pub struct TaskView {
    pub tid: Seq<char>,
    pub input: Seq<char>,
    pub output: Option<Seq<char>>,
}

/// Per-token metadata and the append-only task list.  `destination` is
/// a reserved field: no operation reads or writes it.
#[derive(Clone, Debug, Default, PartialEq)]
pub struct Metadata {
    pub title: Option<String>,
    pub description: Option<String>,
    pub destination: Option<String>,
    pub code: String,
    pub tasks: Option<Vec<Task>>,
}

/// Mathematical model of a [`Metadata`] record.
#[verifier::ext_equal]
pub struct MetadataView {
    pub title: Option<Seq<char>>,
    pub description: Option<Seq<char>>,
    pub destination: Option<Seq<char>>,
    pub code: Seq<char>,
    pub tasks: Option<Seq<TaskView>>,
}

pub type Extension = Option<Metadata>;

/// One ledger entry.  The token's id is not stored here: token number
/// `k` of the contract is the token with id `dec_str(k)`.
#[derive(Debug, PartialEq)]
pub struct TokenInfo {
    pub owner: String,
    pub token_uri: Option<String>,
    pub extension: Extension,
}

/// Mathematical model of a [`TokenInfo`].
#[verifier::ext_equal]
pub struct TokenInfoView {
    pub owner: Seq<char>,
    pub token_uri: Option<Seq<char>>,
    pub extension: Option<MetadataView>,
}

/// The whole contract state.  Token number `k` has id `dec_str(k)`;
/// `incomplete_projects` lists the ids of tokens minted with a missing
/// title or description whose metadata has not been completed yet.
pub struct Gateway721Contract {
    pub name: String,
    pub symbol: String,
    pub minter: String,
    pub tokens: Vec<TokenInfo>,
    pub incomplete_projects: Vec<String>,
}

/// Mathematical model of the contract state.
#[verifier::ext_equal]
pub struct ContractView {
    pub name: Seq<char>,
    pub symbol: Seq<char>,
    pub minter: Seq<char>,
    pub tokens: Seq<TokenInfoView>,
    pub pids: Seq<Seq<char>>,
}

pub open spec fn view_opt_string(o: Option<String>) -> Option<Seq<char>> {
    match o {
        Option::Some(s) => Option::Some(s@),
        Option::None => Option::None,
    }
}

impl View for Task {
    type V = TaskView;

    open spec fn view(&self) -> TaskView {
        TaskView { tid: self.tid@, input: self.input@, output: view_opt_string(self.output) }
    }
}

pub open spec fn view_tasks(ts: Seq<Task>) -> Seq<TaskView> {
    ts.map_values(|t: Task| t@)
}

impl View for Metadata {
    type V = MetadataView;

    open spec fn view(&self) -> MetadataView {
        MetadataView {
            title: view_opt_string(self.title),
            description: view_opt_string(self.description),
            destination: view_opt_string(self.destination),
            code: self.code@,
            tasks: match self.tasks {
                Option::Some(ts) => Option::Some(view_tasks(ts@)),
                Option::None => Option::None,
            },
        }
    }
}

pub open spec fn view_extension(o: Extension) -> Option<MetadataView> {
    match o {
        Option::Some(m) => Option::Some(m@),
        Option::None => Option::None,
    }
}

impl View for TokenInfo {
    type V = TokenInfoView;

    open spec fn view(&self) -> TokenInfoView {
        TokenInfoView {
            owner: self.owner@,
            token_uri: view_opt_string(self.token_uri),
            extension: view_extension(self.extension),
        }
    }
}

impl View for Gateway721Contract {
    type V = ContractView;

    open spec fn view(&self) -> ContractView {
        ContractView {
            name: self.name@,
            symbol: self.symbol@,
            minter: self.minter@,
            tokens: self.tokens@.map_values(|t: TokenInfo| t@),
            pids: self.incomplete_projects@.map_values(|p: String| p@),
        }
    }
}

/// Task ids form the sequence "0", "1", "2", ... in creation order.
pub open spec fn task_list_wf(ts: Seq<TaskView>) -> bool {
    forall|i: int| 0 <= i < ts.len() ==> (#[trigger] ts[i]).tid == dec_str(i as nat)
}

pub open spec fn token_wf(t: TokenInfoView) -> bool {
    t.extension matches Option::Some(m) ==> (m.tasks matches Option::Some(ts)
        ==> task_list_wf(ts))
}

impl ContractView {
    /// State validity: every token's task ids are sequential, and the
    /// incomplete-index holds ids of minted tokens, each at most once.
    pub open spec fn wf(self) -> bool {
        &&& forall|k: int| 0 <= k < self.tokens.len() ==> token_wf(#[trigger] self.tokens[k])
        &&& forall|i: int, j: int|
            0 <= i < j < self.pids.len() ==> self.pids[i] != self.pids[j]
        &&& forall|i: int|
            0 <= i < self.pids.len() ==> exists|k: nat|
                k < self.tokens.len() && #[trigger] self.pids[i] == dec_str(k)
    }
}

/// Whether some minted token has the id `id`.
pub open spec fn has_token(v: ContractView, id: Seq<char>) -> bool {
    exists|k: nat| k < v.tokens.len() && #[trigger] dec_str(k) == id
}

/// The number of the token with id `id` (meaningful when `has_token`).
pub open spec fn token_index(v: ContractView, id: Seq<char>) -> nat {
    choose|k: nat| k < v.tokens.len() && #[trigger] dec_str(k) == id
}

/// Token ids are decimal numerals of token numbers, so an id resolves
/// to exactly one token.
pub proof fn lemma_token_index_unique(v: ContractView, id: Seq<char>, k: nat)
    requires
        k < v.tokens.len(),
        dec_str(k) == id,
    ensures
        has_token(v, id),
        token_index(v, id) == k,
{
    assert(has_token(v, id));
    let k2 = token_index(v, id);
    lemma_dec_str_injective(k, k2);
}

/// Whether the task list holds a task with id `tid`.
pub open spec fn has_task(ts: Seq<TaskView>, tid: Seq<char>) -> bool {
    exists|j: int| 0 <= j < ts.len() && (#[trigger] ts[j]).tid == tid
}

/// The position of the task with id `tid` (meaningful when `has_task`).
pub open spec fn task_pos(ts: Seq<TaskView>, tid: Seq<char>) -> int {
    choose|j: int| 0 <= j < ts.len() && (#[trigger] ts[j]).tid == tid
}

impl Gateway721Contract {
    /// Looks the token id up among the minted tokens.
    pub fn find_token(&self, token_id: &String) -> (r: Option<usize>)
        ensures
            match r {
                Option::Some(i) => i < self@.tokens.len() && dec_str(i as nat) == token_id@
                    && i as nat == token_index(self@, token_id@),
                Option::None => !has_token(self@, token_id@),
            },
    {
        let n = self.tokens.len();
        let mut i: usize = 0;
        while i < n
            invariant
                n == self.tokens.len(),
                n == self@.tokens.len(),
                i <= n,
                forall|k: nat| k < i ==> #[trigger] dec_str(k) != token_id@,
            decreases n - i,
        {
            let cand = u64_to_string(i as u64);
            if cand == *token_id {
                proof {
                    assert(i < self@.tokens.len() && dec_str(i as nat) == token_id@);
                    let k = token_index(self@, token_id@);
                    lemma_dec_str_injective(i as nat, k);
                }
                return Some(i);
            }
            i = i + 1;
        }
        None
    }
}

/// Looks a task id up in a task list, returning the first match.
pub fn find_task(tasks: &Vec<Task>, task_id: &String) -> (r: Option<usize>)
    ensures
        match r {
            Option::Some(j) => j < tasks@.len() && tasks@[j as int].tid@ == task_id@
                && forall|l: int| 0 <= l < j ==> tasks@[l].tid@ != task_id@,
            Option::None => forall|l: int| 0 <= l < tasks@.len()
                ==> tasks@[l].tid@ != task_id@,
        },
{
    let n = tasks.len();
    let mut j: usize = 0;
    while j < n
        invariant
            n == tasks@.len(),
            j <= n,
            forall|l: int| 0 <= l < j ==> tasks@[l].tid@ != task_id@,
        decreases n - j,
    {
        if tasks[j].tid == *task_id {
            return Some(j);
        }
        j = j + 1;
    }
    None
}

/// The index sequence with every occurrence of `id` filtered out,
/// other entries kept in order.
pub open spec fn remove_pid(pids: Seq<Seq<char>>, id: Seq<char>) -> Seq<Seq<char>>
    decreases pids.len(),
{
    if pids.len() == 0 {
        Seq::<Seq<char>>::empty()
    } else {
        let rest = remove_pid(pids.drop_last(), id);
        if pids.last() == id {
            rest
        } else {
            rest.push(pids.last())
        }
    }
}

pub proof fn lemma_remove_pid_push(pids: Seq<Seq<char>>, x: Seq<char>, id: Seq<char>)
    ensures
        remove_pid(pids.push(x), id) == if x == id {
            remove_pid(pids, id)
        } else {
            remove_pid(pids, id).push(x)
        },
{
    assert(pids.push(x).drop_last() =~= pids);
    assert(pids.push(x).last() == x);
}

/// Removal keeps exactly the other entries: nothing equal to `id`
/// stays, every entry kept comes from the original sequence, entries
/// different from `id` are kept, and no duplicate is introduced.
pub proof fn lemma_remove_pid_spec(pids: Seq<Seq<char>>, id: Seq<char>)
    ensures
        forall|i: int| 0 <= i < remove_pid(pids, id).len()
            ==> pids.contains(#[trigger] remove_pid(pids, id)[i])
                && remove_pid(pids, id)[i] != id,
        forall|p: Seq<char>|
            p != id ==> (remove_pid(pids, id).contains(p) <==> pids.contains(p)),
        (forall|i: int, j: int| 0 <= i < j < pids.len() ==> pids[i] != pids[j])
            ==> (forall|i: int, j: int|
                0 <= i < j < remove_pid(pids, id).len()
                    ==> remove_pid(pids, id)[i] != remove_pid(pids, id)[j]),
    decreases pids.len(),
{
    let out = remove_pid(pids, id);
    if pids.len() > 0 {
        let sp = pids.drop_last();
        let x = pids.last();
        let rest = remove_pid(sp, id);
        lemma_remove_pid_spec(sp, id);
        assert(forall|i: int| 0 <= i < sp.len() ==> sp[i] == pids[i]);
        assert forall|i: int| 0 <= i < out.len() implies pids.contains(#[trigger] out[i])
            && out[i] != id by {
            if i < rest.len() {
                assert(rest[i] == out[i]);
                assert(sp.contains(rest[i]));
                let l = choose|l: int| 0 <= l < sp.len() && sp[l] == rest[i];
                assert(pids[l] == out[i]);
            } else {
                assert(out[i] == x);
                assert(pids[pids.len() - 1] == x);
            }
        }
        assert forall|p: Seq<char>| p != id implies (out.contains(p) <==> pids.contains(
            p,
        )) by {
            if out.contains(p) {
                let i = choose|i: int| 0 <= i < out.len() && out[i] == p;
                if i < rest.len() {
                    assert(rest.contains(p));
                    let l = choose|l: int| 0 <= l < sp.len() && sp[l] == p;
                    assert(pids[l] == p);
                } else {
                    assert(pids[pids.len() - 1] == p);
                }
            }
            if pids.contains(p) {
                let l = choose|l: int| 0 <= l < pids.len() && pids[l] == p;
                if l < sp.len() {
                    assert(sp[l] == p);
                    assert(sp.contains(p));
                    assert(rest.contains(p));
                    let i = choose|i: int| 0 <= i < rest.len() && rest[i] == p;
                    assert(out[i] == p);
                } else {
                    assert(p == x);
                    assert(out[out.len() - 1] == p);
                }
            }
        }
        if forall|i: int, j: int| 0 <= i < j < pids.len() ==> pids[i] != pids[j] {
            assert(forall|i: int, j: int| 0 <= i < j < sp.len() ==> sp[i] != sp[j]);
            assert forall|i: int, j: int| 0 <= i < j < out.len() implies out[i] != out[j] by {
                if j < rest.len() {
                    assert(out[i] == rest[i] && out[j] == rest[j]);
                } else {
                    // j names the former last entry, i an entry kept from the rest
                    assert(out[j] == x);
                    assert(rest[i] == out[i]);
                    assert(sp.contains(rest[i]));
                    let l = choose|l: int| 0 <= l < sp.len() && sp[l] == rest[i];
                    assert(pids[l] != pids[pids.len() - 1]);
                }
            }
        }
    }
}

/// When every task id in the list is its position's numeral, a task id
/// occurs at most once, so the first match is the only match.
pub proof fn lemma_task_pos_unique(ts: Seq<TaskView>, tid: Seq<char>, j: int)
    requires
        task_list_wf(ts),
        0 <= j < ts.len(),
        ts[j].tid == tid,
    ensures
        has_task(ts, tid),
        task_pos(ts, tid) == j,
{
    let j2 = task_pos(ts, tid);
    assert(ts[j].tid == tid);
    lemma_dec_str_injective(j as nat, j2 as nat);
}

} // verus!
