//! Poll-tick batch assembly.
//!
//! On every tick the poller queries each configured device in
//! configuration order. Assembly is pure: the per-device outcomes go in,
//! one batch comes out, holding exactly the readings of the successful
//! queries in device order. A failed device contributes nothing and
//! spoils nothing, and a tick on which every device failed enqueues no
//! batch at all.

use vstd::prelude::*;

use crate::channel::DataChannel;
use crate::reading::Reading;

verus! {

/// What querying one device on one tick produced.
pub enum QueryOutcome {
    /// The device answered with these readings (possibly none)
    Answered { readings: Vec<Reading> },
    /// The query failed; the failure is logged and isolated
    Failed,
}

/// The batch a tick's outcomes assemble to: the readings of the answered
/// queries, concatenated in device order.
pub open spec fn spec_assemble(outcomes: Seq<QueryOutcome>) -> Seq<Reading>
    decreases outcomes.len(),
{
    if outcomes.len() == 0 {
        Seq::empty()
    } else {
        (match outcomes[0] {
            QueryOutcome::Answered { readings } => readings@,
            QueryOutcome::Failed => Seq::empty(),
        }) + spec_assemble(outcomes.drop_first())
    }
}

/// Assembles one tick's per-device outcomes into a single batch, in
/// device order, skipping failed queries.
pub fn assemble_batch(outcomes: Vec<QueryOutcome>) -> (batch: Vec<Reading>)
    ensures
        batch@ == spec_assemble(outcomes@),
{
    let ghost orig = outcomes@;
    let mut rest = outcomes;
    let mut batch: Vec<Reading> = Vec::new();
    proof {
        assert(batch@ + spec_assemble(rest@) =~= spec_assemble(orig));
    }
    while rest.len() > 0
        invariant
            batch@ + spec_assemble(rest@) == spec_assemble(orig),
        decreases rest.len(),
    {
        let ghost prev = rest@;
        let ghost bv = batch@;
        let first = rest.remove(0);
        proof {
            assert(rest@ =~= prev.drop_first());
        }
        match first {
            QueryOutcome::Answered { mut readings } => {
                let ghost rv = readings@;
                batch.append(&mut readings);
                proof {
                    assert(spec_assemble(prev) == rv + spec_assemble(prev.drop_first()));
                    assert(batch@ + spec_assemble(rest@) =~= spec_assemble(orig));
                }
            },
            QueryOutcome::Failed => {
                proof {
                    assert(spec_assemble(prev) == Seq::<Reading>::empty() + spec_assemble(
                        prev.drop_first(),
                    ));
                    assert(batch@ + spec_assemble(rest@) =~= spec_assemble(orig));
                }
            },
        }
    }
    proof {
        assert(spec_assemble(rest@) =~= Seq::<Reading>::empty());
        assert(batch@ =~= spec_assemble(orig));
    }
    batch
}

/// Runs one tick's tail end: assembles the outcomes and offers the batch
/// to the data channel. An empty batch is not enqueued; a full channel
/// drops the batch on the spot.
pub fn poll_tick(channel: &mut DataChannel, outcomes: Vec<QueryOutcome>) -> (sent: bool)
    requires
        old(channel).wf(),
    ensures
        final(channel).wf(),
        final(channel).cap() == old(channel).cap(),
        spec_assemble(outcomes@).len() == 0 ==> !sent
            && final(channel).batches() == old(channel).batches(),
        spec_assemble(outcomes@).len() > 0 && old(channel).batches().len() < old(channel).cap()
            ==> sent
            && final(channel).batches().len() == old(channel).batches().len() + 1
            && final(channel).batches().last()@ == spec_assemble(outcomes@)
            && final(channel).batches().drop_last() == old(channel).batches(),
        spec_assemble(outcomes@).len() > 0 && old(channel).batches().len() >= old(channel).cap()
            ==> !sent && final(channel).batches() == old(channel).batches(),
{
    let batch = assemble_batch(outcomes);
    if batch.len() == 0 {
        false
    } else {
        let accepted = channel.try_send(batch);
        proof {
            if accepted {
                assert(channel.batches().drop_last() =~= old(channel).batches());
            }
        }
        accepted
    }
}

} // verus!
