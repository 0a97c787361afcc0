//! The read-only projections: pending task ids for one token, and the
//! incomplete-metadata index snapshot.

use vstd::prelude::*;

use crate::msg::{ContractError, IncompleteProjectsResponse, QueryAnswer, QueryMsg, TaskIdsResponse};
use crate::state::{ContractView, Gateway721Contract, TaskView, has_token, token_index, view_tasks};
use crate::traits::Gateway721Query;

verus! {

/// The ids of the tasks whose output is still absent, in list order.
pub open spec fn pending_ids(ts: Seq<TaskView>) -> Seq<Seq<char>>
    decreases ts.len(),
{
    if ts.len() == 0 {
        Seq::<Seq<char>>::empty()
    } else {
        let rest = pending_ids(ts.drop_last());
        if ts.last().output is None {
            rest.push(ts.last().tid)
        } else {
            rest
        }
    }
}

pub proof fn lemma_pending_ids_push(ts: Seq<TaskView>, t: TaskView)
    ensures
        pending_ids(ts.push(t)) == if t.output is None {
            pending_ids(ts).push(t.tid)
        } else {
            pending_ids(ts)
        },
{
    assert(ts.push(t).drop_last() =~= ts);
    assert(ts.push(t).last() == t);
}

/// A task id is never listed among the pending ids when every task
/// carrying that id already has an output.
pub proof fn lemma_pending_ids_sound(ts: Seq<TaskView>, tid: Seq<char>)
    requires
        forall|j: int|
            0 <= j < ts.len() && (#[trigger] ts[j]).tid == tid ==> ts[j].output is Some,
    ensures
        !pending_ids(ts).contains(tid),
    decreases ts.len(),
{
    if ts.len() > 0 {
        let sp = ts.drop_last();
        assert(forall|j: int| 0 <= j < sp.len() ==> sp[j] == ts[j]);
        lemma_pending_ids_sound(sp, tid);
        if ts.last().output is None {
            assert(ts[ts.len() - 1].tid != tid);
            if pending_ids(ts).contains(tid) {
                let l = choose|l: int|
                    0 <= l < pending_ids(ts).len() && pending_ids(ts)[l] == tid;
                if l < pending_ids(sp).len() {
                    assert(pending_ids(sp)[l] == tid);
                    assert(pending_ids(sp).contains(tid));
                } else {
                    assert(pending_ids(ts)[l] == ts.last().tid);
                }
            }
        } else {
            if pending_ids(ts).contains(tid) {
                assert(pending_ids(sp).contains(tid));
            }
        }
    }
}

/// The pending task ids of a token: empty when the token has no
/// extension record or no task list; fails only when the token itself
/// does not exist.
pub open spec fn spec_remains(v: ContractView, token_id: Seq<char>) -> Result<
    Seq<Seq<char>>,
    ContractError,
> {
    if !has_token(v, token_id) {
        Result::Err(ContractError::TokenNotFound)
    } else {
        let t = v.tokens[token_index(v, token_id) as int];
        match t.extension {
            Option::None => Result::Ok(Seq::<Seq<char>>::empty()),
            Option::Some(m) => match m.tasks {
                Option::None => Result::Ok(Seq::<Seq<char>>::empty()),
                Option::Some(ts) => Result::Ok(pending_ids(ts)),
            },
        }
    }
}

impl Gateway721Query for Gateway721Contract {
    fn remains(&self, token_id: String) -> (r: Result<TaskIdsResponse, ContractError>)
        ensures
            match (r, spec_remains(self@, token_id@)) {
                (Result::Ok(resp), Result::Ok(ids)) => resp@ == ids,
                (Result::Err(e), Result::Err(f)) => e == f,
                _ => false,
            },
    {
        let i = match self.find_token(&token_id) {
            Some(i) => i,
            None => {
                return Err(ContractError::TokenNotFound);
            },
        };
        let mut tids: Vec<String> = Vec::new();
        match &self.tokens[i].extension {
            None => {
                proof {
                    assert(tids@.map_values(|t: String| t@) =~= Seq::<Seq<char>>::empty());
                }
            },
            Some(m) => {
                match &m.tasks {
                    None => {
                        proof {
                            assert(tids@.map_values(|t: String| t@) =~= Seq::<
                                Seq<char>,
                            >::empty());
                        }
                    },
                    Some(ts) => {
                        let ghost vts = view_tasks(ts@);
                        let n = ts.len();
                        let mut j: usize = 0;
                        while j < n
                            invariant
                                n == ts@.len(),
                                j <= n,
                                vts == view_tasks(ts@),
                                vts.len() == n,
                                tids@.len() == pending_ids(vts.take(j as int)).len(),
                                forall|l: int| 0 <= l < tids@.len()
                                    ==> (#[trigger] tids@[l])@
                                        == pending_ids(vts.take(j as int))[l],
                            decreases n - j,
                        {
                            proof {
                                assert(vts.take(j as int + 1) =~= vts.take(j as int).push(
                                    vts[j as int],
                                ));
                                lemma_pending_ids_push(vts.take(j as int), vts[j as int]);
                                assert(vts[j as int] == ts@[j as int]@);
                            }
                            if ts[j].output.is_none() {
                                tids.push(ts[j].tid.clone());
                            }
                            j = j + 1;
                        }
                        proof {
                            assert(vts =~= vts.take(n as int));
                        }
                    },
                }
            },
        }
        let resp = TaskIdsResponse { tids };
        proof {
            let spec_ids = spec_remains(self@, token_id@)->Ok_0;
            assert(resp@ =~= spec_ids);
        }
        Ok(resp)
    }

    fn incomplete_projects(&self) -> (r: Result<IncompleteProjectsResponse, ContractError>)
        ensures
            r matches Result::Ok(resp) && resp@ == self@.pids,
    {
        let n = self.incomplete_projects.len();
        let mut pids: Vec<String> = Vec::new();
        let mut i: usize = 0;
        while i < n
            invariant
                n == self.incomplete_projects.len(),
                i <= n,
                pids@.len() == i,
                forall|l: int| 0 <= l < i
                    ==> (#[trigger] pids@[l])@ == self.incomplete_projects@[l]@,
            decreases n - i,
        {
            let p = self.incomplete_projects[i].clone();
            pids.push(p);
            i = i + 1;
        }
        let resp = IncompleteProjectsResponse { pids };
        proof {
            assert(resp@ =~= self@.pids);
        }
        Ok(resp)
    }
}

impl Gateway721Contract {
    /// Routes a query to the matching projection.
    pub fn query(&self, msg: QueryMsg) -> (r: Result<QueryAnswer, ContractError>)
        ensures
            match msg {
                QueryMsg::Remains { token_id } => match (r, spec_remains(self@, token_id@)) {
                    (
                        Result::Ok(QueryAnswer::Remains(resp)),
                        Result::Ok(ids),
                    ) => resp@ == ids,
                    (Result::Err(e), Result::Err(f)) => e == f,
                    _ => false,
                },
                QueryMsg::IncompleteProjects {  } => r matches Result::Ok(
                    QueryAnswer::IncompleteProjects(resp),
                ) && resp@ == self@.pids,
            },
    {
        match msg {
            QueryMsg::Remains { token_id } => match self.remains(token_id) {
                Ok(t) => Ok(QueryAnswer::Remains(t)),
                Err(e) => Err(e),
            },
            QueryMsg::IncompleteProjects {  } => match self.incomplete_projects() {
                Ok(p) => Ok(QueryAnswer::IncompleteProjects(p)),
                Err(e) => Err(e),
            },
        }
    }
}

} // verus!
