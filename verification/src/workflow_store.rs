//! Workflows and their runs, kept in memory by id.

use vstd::prelude::*;
use crate::automation::{ExecutionStatus, Workflow, WorkflowError};
use crate::strmap::StrMap;
use crate::sys::{new_uuid, now_millis};
use crate::text::owned;

verus! {

/// The outcome of one node in a run. Times are milliseconds since the Unix epoch.
pub struct NodeExecutionResult {
    pub status: ExecutionStatus,
    pub output: Option<String>,
    pub error: Option<String>,
    pub started_at: i64,
    pub completed_at: Option<i64>,
}

/// One run of a workflow. Times are milliseconds since the Unix epoch.
pub struct ExecutionRecord {
    pub id: String,
    pub workflow_id: String,
    pub status: ExecutionStatus,
    pub started_at: i64,
    pub completed_at: Option<i64>,
    /// Node outcomes by node id.
    pub node_results: StrMap<NodeExecutionResult>,
    pub error_message: Option<String>,
}

/// A run that has just been created for `workflow_id`: pending, with no node outcomes,
/// no end and no error.
pub open spec fn fresh_run(rec: ExecutionRecord, id: Seq<char>, workflow_id: Seq<char>) -> bool {
    &&& rec.id@ == id
    &&& rec.workflow_id@ == workflow_id
    &&& rec.status == ExecutionStatus::Pending
    &&& rec.completed_at is None
    &&& rec.node_results.wf()
    &&& rec.node_results@ == Map::<Seq<char>, NodeExecutionResult>::empty()
    &&& rec.error_message is None
}

/// `out` lists the values of `m`, each once: there is an order of `m`'s keys, without
/// repeats, that `out` follows.
pub open spec fn lists_values<V>(out: Seq<&V>, m: Map<Seq<char>, V>) -> bool {
    exists|ks: Seq<Seq<char>>|
        #![trigger ks.len()]
        ks.len() == out.len() && (forall|a: int, b: int| 0 <= a < b < ks.len() ==> ks[a] != ks[b])
            && (forall|i: int| 0 <= i < ks.len() ==> m.contains_key(#[trigger] ks[i]) && *out[i] == m[ks[i]])
            && (forall|k: Seq<char>| #[trigger] m.contains_key(k) ==> ks.contains(k))
}

/// Workflows by id, and runs by id.
pub struct AutomationState {
    workflows: StrMap<Workflow>,
    executions: StrMap<ExecutionRecord>,
}

impl AutomationState {
    pub closed spec fn workflows(&self) -> Map<Seq<char>, Workflow> {
        self.workflows@
    }

    pub closed spec fn executions(&self) -> Map<Seq<char>, ExecutionRecord> {
        self.executions@
    }

    pub closed spec fn wf(&self) -> bool {
        self.workflows.wf() && self.executions.wf()
    }

    pub fn new() -> (r: Self)
        ensures
            r.wf(),
            r.workflows() == Map::<Seq<char>, Workflow>::empty(),
            r.executions() == Map::<Seq<char>, ExecutionRecord>::empty(),
    {
        AutomationState { workflows: StrMap::new(), executions: StrMap::new() }
    }

    /// Stores `workflow` under its id (replacing one with the same id) and returns the id.
    pub fn create_workflow(&mut self, workflow: Workflow) -> (r: String)
        requires
            old(self).wf(),
        ensures
            final(self).wf(),
            r@ == workflow.id@,
            final(self).workflows() == old(self).workflows().insert(workflow.id@, workflow),
            final(self).executions() == old(self).executions(),
    {
        let id = workflow.id.clone();
        self.workflows.insert(id.as_str(), workflow);
        id
    }

    pub fn get_workflow(&self, id: &str) -> (r: Option<&Workflow>)
        requires
            self.wf(),
        ensures
            match r {
                Some(w) => self.workflows().contains_key(id@) && *w == self.workflows()[id@],
                None => !self.workflows().contains_key(id@),
            },
    {
        self.workflows.get(id)
    }

    /// Replaces a stored workflow; an unknown id is refused and nothing changes.
    pub fn update_workflow(&mut self, workflow: Workflow) -> (r: Result<(), WorkflowError>)
        requires
            old(self).wf(),
        ensures
            final(self).wf(),
            r is Ok <==> old(self).workflows().contains_key(workflow.id@),
            r matches Err(e) ==> e matches WorkflowError::NodeNotFound(id) && id@ == workflow.id@,
            r is Ok ==> final(self).workflows() == old(self).workflows().insert(workflow.id@, workflow),
            r is Err ==> final(self).workflows() == old(self).workflows(),
            final(self).executions() == old(self).executions(),
    {
        if !self.workflows.contains_key(workflow.id.as_str()) {
            return Err(WorkflowError::NodeNotFound(workflow.id));
        }
        let id = workflow.id.clone();
        self.workflows.insert(id.as_str(), workflow);
        Ok(())
    }

    /// Removes a workflow; whether it was there.
    pub fn delete_workflow(&mut self, id: &str) -> (r: bool)
        requires
            old(self).wf(),
        ensures
            final(self).wf(),
            r == old(self).workflows().contains_key(id@),
            final(self).workflows() == old(self).workflows().remove(id@),
            final(self).executions() == old(self).executions(),
    {
        self.workflows.take(id).is_some()
    }

    /// Every stored workflow, each once, in no particular order.
    pub fn list_workflows(&self) -> (r: Vec<&Workflow>)
        requires
            self.wf(),
        ensures
            lists_values(r@, self.workflows()),
    {
        let keys = self.workflows.keys();
        let mut out: Vec<&Workflow> = Vec::new();
        let mut i: usize = 0;
        while i < keys.len()
            invariant
                self.wf(),
                i <= keys@.len(),
                out@.len() == i,
                keys@.len() == self.workflows@.dom().len(),
                forall|j: int| 0 <= j < keys@.len() ==> self.workflows@.contains_key(#[trigger] keys@[j]@),
                forall|j: int| 0 <= j < i ==> *out@[j] == self.workflows@[(#[trigger] keys@[j])@],
            decreases keys@.len() - i,
        {
            match self.workflows.get(keys[i].as_str()) {
                Some(w) => out.push(w),
                None => {
                    assert(false);
                    return out;
                },
            }
            i = i + 1;
        }
        proof {
            let ks = Seq::new(keys@.len(), |j: int| keys@[j]@);
            assert(ks.len() == out@.len());
            assert forall|k: Seq<char>| #[trigger] self.workflows@.contains_key(k) implies ks.contains(k) by {
                let j = choose|j: int| 0 <= j < keys@.len() && keys@[j]@ == k;
                assert(ks[j] == k);
            }
            assert forall|i: int| 0 <= i < ks.len() implies self.workflows@.contains_key(#[trigger] ks[i])
                && *out@[i] == self.workflows@[ks[i]] by {
                assert(ks[i] == keys@[i]@);
            }
        }
        out
    }

    /// Creates a pending run of `workflow_id`, started now, under a fresh random id, which
    /// it returns.
    pub fn create_execution(&mut self, workflow_id: &str) -> (r: String)
        requires
            old(self).wf(),
        ensures
            final(self).wf(),
            final(self).executions().dom() == old(self).executions().dom().insert(r@),
            fresh_run(final(self).executions()[r@], r@, workflow_id@),
            forall|k: Seq<char>| k != r@ && #[trigger] old(self).executions().contains_key(k)
                ==> final(self).executions()[k] == old(self).executions()[k],
            final(self).workflows() == old(self).workflows(),
    {
        let id = new_uuid();
        let record = ExecutionRecord {
            id: id.clone(),
            workflow_id: owned(workflow_id),
            status: ExecutionStatus::Pending,
            started_at: now_millis(),
            completed_at: None,
            node_results: StrMap::new(),
            error_message: None,
        };
        self.executions.insert(id.as_str(), record);
        id
    }

    /// Stores `record` under its id, replacing the run with that id.
    pub fn update_execution(&mut self, record: ExecutionRecord)
        requires
            old(self).wf(),
        ensures
            final(self).wf(),
            final(self).executions() == old(self).executions().insert(record.id@, record),
            final(self).workflows() == old(self).workflows(),
    {
        let id = record.id.clone();
        self.executions.insert(id.as_str(), record);
    }

    pub fn get_execution(&self, id: &str) -> (r: Option<&ExecutionRecord>)
        requires
            self.wf(),
        ensures
            match r {
                Some(e) => self.executions().contains_key(id@) && *e == self.executions()[id@],
                None => !self.executions().contains_key(id@),
            },
    {
        self.executions.get(id)
    }

    /// The runs, each once in no particular order; only those of `workflow_id` when one
    /// is given.
    pub fn list_executions(&self, workflow_id: Option<&str>) -> (r: Vec<&ExecutionRecord>)
        requires
            self.wf(),
        ensures
            lists_values(
                r@,
                match workflow_id {
                    Some(w) => self.executions().restrict(
                        self.executions().dom().filter(|k: Seq<char>| self.executions()[k].workflow_id@ == w@),
                    ),
                    None => self.executions(),
                },
            ),
    {
        let keys = self.executions.keys();
        let ghost m = match workflow_id {
            Some(w) => self.executions@.restrict(
                self.executions@.dom().filter(|k: Seq<char>| self.executions@[k].workflow_id@ == w@),
            ),
            None => self.executions@,
        };
        let mut out: Vec<&ExecutionRecord> = Vec::new();
        let ghost mut ks: Seq<Seq<char>> = Seq::empty();
        let mut i: usize = 0;
        while i < keys.len()
            invariant
                self.wf(),
                i <= keys@.len(),
                keys@.len() == self.executions@.dom().len(),
                forall|j: int| 0 <= j < keys@.len() ==> self.executions@.contains_key(#[trigger] keys@[j]@),
                forall|k: Seq<char>| #[trigger] self.executions@.contains_key(k) ==> exists|j: int| 0 <= j < keys@.len() && keys@[j]@ == k,
                forall|a: int, b: int| 0 <= a < b < keys@.len() ==> (#[trigger] keys@[a])@ != (#[trigger] keys@[b])@,
                m == (match workflow_id {
                    Some(w) => self.executions@.restrict(
                        self.executions@.dom().filter(|k: Seq<char>| self.executions@[k].workflow_id@ == w@),
                    ),
                    None => self.executions@,
                }),
                ks.len() == out@.len(),
                forall|a: int, b: int| 0 <= a < b < ks.len() ==> ks[a] != ks[b],
                forall|t: int| 0 <= t < ks.len() ==> m.contains_key(#[trigger] ks[t]) && *out@[t] == m[ks[t]],
                forall|t: int| 0 <= t < ks.len() ==> exists|j: int| 0 <= j < i && keys@[j]@ == #[trigger] ks[t],
                forall|j: int| 0 <= j < i && m.contains_key(#[trigger] keys@[j]@) ==> ks.contains(keys@[j]@),
            decreases keys@.len() - i,
        {
            let ghost old_ks = ks;
            let rec = match self.executions.get(keys[i].as_str()) {
                Some(e) => e,
                None => {
                    assert(false);
                    return out;
                },
            };
            let keep = match workflow_id {
                Some(w) => crate::text::str_eq(rec.workflow_id.as_str(), w),
                None => true,
            };
            if keep {
                proof {
                    let k = keys@[i as int]@;
                    assert(m.contains_key(k));
                    assert forall|t: int| 0 <= t < ks.len() implies ks[t] != k by {
                        let j = choose|j: int| 0 <= j < i && keys@[j]@ == ks[t];
                        assert(keys@[j]@ != keys@[i as int]@);
                    }
                    ks = ks.push(k);
                    assert(ks.last() == k);
                }
                out.push(rec);
            } else {
                proof {
                    assert(!m.contains_key(keys@[i as int]@));
                }
            }
            proof {
                assert forall|j: int| 0 <= j < i + 1 && m.contains_key(#[trigger] keys@[j]@) implies ks.contains(keys@[j]@) by {
                    if j == i {
                        assert(ks.last() == keys@[j]@);
                    } else {
                        assert(old_ks.contains(keys@[j]@));
                        let t = choose|t: int| 0 <= t < old_ks.len() && old_ks[t] == keys@[j]@;
                        assert(ks[t] == old_ks[t]);
                    }
                }
            }
            i = i + 1;
        }
        proof {
            assert forall|k: Seq<char>| #[trigger] m.contains_key(k) implies ks.contains(k) by {
                let j = choose|j: int| 0 <= j < keys@.len() && keys@[j]@ == k;
                assert(m.contains_key(keys@[j]@));
            }
            assert(ks.len() == out@.len());
        }
        out
    }
}

/// A workflow that was stored reads back unchanged, and storing it leaves the other
/// workflows as they were.
pub proof fn law_a_stored_workflow_reads_back(workflows: Map<Seq<char>, Workflow>, w: Workflow, other: Seq<char>)
    requires
        other != w.id@,
    ensures
        workflows.insert(w.id@, w).contains_key(w.id@),
        workflows.insert(w.id@, w)[w.id@] == w,
        workflows.insert(w.id@, w).contains_key(other) == workflows.contains_key(other),
        workflows.contains_key(other) ==> workflows.insert(w.id@, w)[other] == workflows[other],
{
}

} // verus!
