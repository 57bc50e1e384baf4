//! The batches that are still to be sent.
use crate::sync::{
    BatchModel, SyncBatch, batch_models, one_batch, sent_as, split_http_rollup_sync_batches,
    split_spec, splitting_makes_smaller_batches, summaries_wf,
};
use crate::sync_flow::{SyncPayloadMode, over_budget, retry_batches, splittable};
use crate::sync_laws::{
    Contents, every_sent_batch_is_acceptable, gathered, lemma_gathered_concat, lemma_gathered_one,
    splitting_keeps_every_record,
};
use vstd::prelude::*;

verus! {

/// The batches that wait to be sent, the next one first.
#[derive(Debug, PartialEq, Eq)]
pub struct SendQueue {
    pub waiting: Vec<SyncBatch>,
}

impl SendQueue {
    /// Whether each batch's records can be counted.
    pub open spec fn wf(self) -> bool {
        forall|i: int| 0 <= i < self.waiting@.len() ==> (#[trigger] self.waiting@[i]).model().countable()
    }

    pub open spec fn models(self) -> Seq<BatchModel> {
        batch_models(self.waiting@)
    }

    /// What a batch is sent as.
    pub fn new(batch: &SyncBatch, mode: SyncPayloadMode) -> (r: SendQueue)
        requires
            batch.model().countable(),
            summaries_wf(batch.summaries@),
        ensures
            r.wf(),
            r.models() == match mode {
                SyncPayloadMode::Rollups => sent_as(batch.model()),
                SyncPayloadMode::Raw => seq![batch.model()],
            },
    {
        let ghost m = batch.model();
        let waiting = match mode {
            SyncPayloadMode::Rollups => split_http_rollup_sync_batches(batch),
            SyncPayloadMode::Raw => one_batch(batch),
        };
        proof {
            assert forall|i: int| 0 <= i < waiting@.len() implies (
            #[trigger] waiting@[i]).model().countable() by {
                let models = batch_models(waiting@);
                assert(models.len() == waiting@.len());
                assert(models[i] == waiting@[i].model());
                match mode {
                    SyncPayloadMode::Rollups => {
                        every_sent_batch_is_acceptable(m, i);
                    },
                    SyncPayloadMode::Raw => {
                        assert(models == seq![m]);
                        assert(i == 0);
                    },
                }
            }
        }
        SendQueue { waiting }
    }

    /// The batch to send now.
    pub fn next(&self) -> (r: Option<&SyncBatch>)
        ensures
            match r {
                Some(b) => self.waiting@.len() > 0 && *b == self.waiting@[0],
                None => self.waiting@.len() == 0,
            },
    {
        if self.waiting.len() == 0 {
            None
        } else {
            Some(&self.waiting[0])
        }
    }

    /// The batch was accepted: it waits no longer.
    pub fn accepted(&mut self)
        requires
            old(self).wf(),
            old(self).waiting@.len() > 0,
        ensures
            final(self).wf(),
            final(self).waiting@ == old(self).waiting@.skip(1),
    {
        self.waiting.remove(0);
        proof {
            assert(self.waiting@ =~= old(self).waiting@.skip(1));
        }
    }

    /// The batch was refused with an error. Where it was too expensive and can be
    /// parted, its parts wait in its place, and their number is returned; otherwise
    /// the refusal stands, and nothing changes.
    pub fn refused(&mut self, message: &str) -> (r: Option<usize>)
        requires
            old(self).wf(),
            old(self).waiting@.len() > 0,
        ensures
            final(self).wf(),
            match r {
                Some(n) => {
                    let first = old(self).models()[0];
                    &&& over_budget(message@)
                    &&& splittable(first)
                    &&& n == split_spec(first).len()
                    &&& final(self).models() == split_spec(first) + old(self).models().skip(1)
                },
                None => {
                    &&& !over_budget(message@) || !splittable(old(self).models()[0])
                    &&& final(self).waiting@ == old(self).waiting@
                },
            },
    {
        let ghost all = self.models();
        proof {
            assert(all[0] == self.waiting@[0].model());
            assert(self.waiting@[0].model().countable());
        }
        let parts = match retry_batches(&self.waiting[0], message) {
            Some(v) => v,
            None => return None,
        };
        let n: usize = parts.len();
        let ghost first = all[0];
        let ghost rest = self.waiting@.skip(1);
        let ghost part_models = batch_models(parts@);
        self.waiting.remove(0);
        let mut waiting = parts;
        waiting.append(&mut self.waiting);
        self.waiting = waiting;
        proof {
            assert(part_models.len() == n);
            assert(self.models() =~= split_spec(first) + all.skip(1));
            assert forall|i: int| 0 <= i < self.waiting@.len() implies (
            #[trigger] self.waiting@[i]).model().countable() by {
                assert(self.models()[i] == self.waiting@[i].model());
                if i < n {
                    splitting_makes_smaller_batches(first, i);
                } else {
                    assert(self.waiting@[i] == rest[i - n]);
                    assert(rest[i - n] == old(self).waiting@[i - n + 1]);
                }
            }
        }
        Some(n)
    }
}

/// A refused batch's parts hold the same records, so that whatever is refused on
/// the way, what waits holds every record that was not yet accepted, each once
/// and in order.
pub proof fn a_refusal_loses_no_record(first: BatchModel, rest: Seq<BatchModel>)
    ensures
        gathered(split_spec(first) + rest) == gathered(seq![first] + rest),
{
    splitting_keeps_every_record(first);
    lemma_gathered_concat(split_spec(first), rest);
    lemma_gathered_concat(seq![first], rest);
    lemma_gathered_one(first);
}

/// Accepting the next batch takes exactly its records out of what waits.
pub proof fn an_acceptance_takes_one_batch(waiting: Seq<BatchModel>)
    requires
        waiting.len() > 0,
    ensures
        gathered(waiting) == Contents::of(waiting[0]).then_all(gathered(waiting.skip(1))),
{
}

} // verus!
