use std::collections::HashMap;

use vstd::prelude::*;

use crate::ids::{BlockId, RequestId};

verus! {

broadcast use vstd::std_specs::hash::group_hash_axioms;

/// Scheduler statistics snapshot.
#[derive(Debug, Clone, Copy)]
pub struct SchedulerStats {
    /// Number of requests currently in the waiting queue.
    pub num_waiting: usize,
    /// Number of requests currently running.
    pub num_running: usize,
    /// Number of requests finished in this step.
    pub num_finished: usize,
    /// Total preemptions across all steps.
    pub total_preemptions: usize,
    /// Prefill tokens scheduled this step.
    pub prefill_tokens: usize,
    /// Decode tokens scheduled this step.
    pub decode_tokens: usize,
}

impl SchedulerStats {
    /// All counts zero.
    pub open spec fn zero() -> SchedulerStats {
        SchedulerStats {
            num_waiting: 0,
            num_running: 0,
            num_finished: 0,
            total_preemptions: 0,
            prefill_tokens: 0,
            decode_tokens: 0,
        }
    }
}

impl Default for SchedulerStats {
    fn default() -> (stats: Self)
        ensures
            stats == SchedulerStats::zero(),
    {
        SchedulerStats {
            num_waiting: 0,
            num_running: 0,
            num_finished: 0,
            total_preemptions: 0,
            prefill_tokens: 0,
            decode_tokens: 0,
        }
    }
}

/// What one scheduler step decided.
#[derive(Debug)]
pub struct SchedulerOutput {
    /// Requests scheduled for the first time (prefill).
    pub scheduled_new: Vec<RequestId>,
    /// Requests whose whole prompt the prefix cache held.
    pub scheduled_cached: Vec<RequestId>,
    /// Requests continuing from a previous step (decode).
    pub scheduled_running: Vec<RequestId>,
    /// Number of tokens scheduled per request this step.
    pub num_scheduled_tokens: HashMap<RequestId, usize>,
    /// Block table of each scheduled request.
    pub block_tables: HashMap<RequestId, Vec<BlockId>>,
    /// Total token budget consumed this step.
    pub token_budget_used: usize,
    /// Requests preempted this step (moved from running back to waiting).
    pub preempted: Vec<RequestId>,
    /// Requests that finished this step.
    pub finished: Vec<RequestId>,
    /// Scheduler statistics snapshot.
    pub stats: SchedulerStats,
}

/// A scheduler output as mathematical values, its statistics apart.
#[verifier::ext_equal]
pub struct OutputState {
    pub scheduled_new: Seq<RequestId>,
    pub scheduled_cached: Seq<RequestId>,
    pub scheduled_running: Seq<RequestId>,
    pub tokens: Map<RequestId, usize>,
    pub tables: Map<RequestId, Seq<BlockId>>,
    pub preempted: Seq<RequestId>,
    pub finished: Seq<RequestId>,
}

impl OutputState {
    /// Nothing scheduled.
    pub open spec fn empty() -> OutputState {
        OutputState {
            scheduled_new: Seq::empty(),
            scheduled_cached: Seq::empty(),
            scheduled_running: Seq::empty(),
            tokens: Map::empty(),
            tables: Map::empty(),
            preempted: Seq::empty(),
            finished: Seq::empty(),
        }
    }

    /// With the block table of a request, where the cache gave one.
    pub open spec fn with_table(self, id: RequestId, blocks: Option<Seq<BlockId>>) -> OutputState {
        match blocks {
            Some(b) => OutputState { tables: self.tables.insert(id, b), ..self },
            None => self,
        }
    }
}

impl SchedulerOutput {
    pub open spec fn view(&self) -> OutputState {
        OutputState {
            scheduled_new: self.scheduled_new@,
            scheduled_cached: self.scheduled_cached@,
            scheduled_running: self.scheduled_running@,
            tokens: self.num_scheduled_tokens@,
            tables: self.block_tables@.map_values(|blocks: Vec<BlockId>| blocks@),
            preempted: self.preempted@,
            finished: self.finished@,
        }
    }

    pub fn empty() -> (output: Self)
        ensures
            output@ == OutputState::empty(),
            output.token_budget_used == 0,
            output.stats == SchedulerStats::zero(),
    {
        let output = SchedulerOutput {
            scheduled_new: Vec::new(),
            scheduled_cached: Vec::new(),
            scheduled_running: Vec::new(),
            num_scheduled_tokens: HashMap::new(),
            block_tables: HashMap::new(),
            token_budget_used: 0,
            preempted: Vec::new(),
            finished: Vec::new(),
            stats: SchedulerStats::default(),
        };
        assert(output@ =~= OutputState::empty());
        output
    }

    /// Total number of scheduled requests (new, cached and running).
    pub fn num_scheduled(&self) -> (count: usize)
        requires
            self.scheduled_new@.len() + self.scheduled_cached@.len() + self.scheduled_running@.len()
                <= usize::MAX,
        ensures
            count == self.scheduled_new@.len() + self.scheduled_cached@.len()
                + self.scheduled_running@.len(),
    {
        self.scheduled_new.len() + self.scheduled_cached.len() + self.scheduled_running.len()
    }

    /// Note the block table of a request, where the cache gave one.
    pub(crate) fn set_table(&mut self, id: RequestId, blocks: Option<Vec<BlockId>>)
        ensures
            final(self)@ == old(self)@.with_table(
                id,
                crate::scheduler::cache::blocks_view(blocks),
            ),
            final(self).token_budget_used == old(self).token_budget_used,
            final(self).stats == old(self).stats,
    {
        match blocks {
            Some(b) => {
                let ghost before = self.block_tables@;
                self.block_tables.insert(id, b);
                assert(self.block_tables@.map_values(|blocks: Vec<BlockId>| blocks@)
                    =~= before.map_values(|blocks: Vec<BlockId>| blocks@).insert(id, b@));
            },
            None => {},
        }
    }
}

} // verus!
