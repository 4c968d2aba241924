//! The clock laws, stated and proved over the mathematical model: local
//! ordering within a process, causal ordering across a message, and the
//! behaviour of clock values under arbitrary operation sequences.

use vstd::prelude::*;
use crate::clock::merged_value;
use crate::process::{Process, ProcessView, Message, StepOutcome, sim, step_outcome, step_view};

verus! {

/// A single clock operation: a local tick, or a merge of a received
/// timestamp.
pub ghost enum ClockOp {
    Tick,
    Merge(nat),
}

/// The clock value after one operation.
pub open spec fn apply_op(c: nat, op: ClockOp) -> nat {
    match op {
        ClockOp::Tick => c + 1,
        ClockOp::Merge(t) => merged_value(c, t),
    }
}

/// The clock value after a sequence of operations, applied in order.
pub open spec fn apply_ops(c: nat, ops: Seq<ClockOp>) -> nat
    decreases ops.len(),
{
    if ops.len() == 0 {
        c
    } else {
        apply_ops(apply_op(c, ops[0]), ops.drop_first())
    }
}

/// Monotonicity and C1 (local ordering): within one well-formed process,
/// the clock values recorded across its own events strictly increase in
/// execution order — an earlier event always carries a smaller value.
pub proof fn lemma_local_order(p: Process, i: int, j: int)
    requires
        p.wf(),
        0 <= i < j < p@.events.len(),
    ensures
        p@.events[i].clock_value() < p@.events[j].clock_value(),
    decreases j - i,
{
    if i + 1 < j {
        lemma_local_order(p, i, j - 1);
    }
    assert(p@.events[j - 1].clock_value() < p@.events[j].clock_value());
}

/// C2 (causal ordering): a merge ends strictly above the received
/// timestamp, which is the sender's clock at the send event; it also ends
/// strictly above the receiver's own prior value.
pub proof fn lemma_causal_order(local: nat, sent: nat)
    ensures
        sent < merged_value(local, sent),
        local < merged_value(local, sent),
{
}

/// C2 at the protocol level: a send fires as one transition of the sender,
/// the message carries the sender's clock at the send event, and the
/// receiver's transition on that message ends strictly above both the
/// message's timestamp and the receiver's own prior value.
pub proof fn lemma_clock_condition(
    sender: ProcessView,
    receiver: ProcessView,
    draw: u32,
    draw2: u32,
)
    requires
        sender.clock < u32::MAX,
        draw as nat % sender.modulus == 0,
    ensures
        (step_outcome(sender, None, draw) == StepOutcome::ToSend(
            Message { tm: (sender.clock + 1) as u32 },
        )),
        step_view(sender, None, draw).clock == sender.clock + 1,
        ({
            let m = Message { tm: (sender.clock + 1) as u32 };
            &&& step_view(receiver, Some(m), draw2).clock > m.tm as nat
            &&& step_view(receiver, Some(m), draw2).clock > receiver.clock
        }),
{
    assert((sender.clock + 1) as u32 as nat == sender.clock + 1);
}

/// No regression: across any sequence of tick and merge operations the
/// clock never decreases, and a non-empty sequence strictly increases it.
pub proof fn lemma_no_regression(c: nat, ops: Seq<ClockOp>)
    ensures
        apply_ops(c, ops) >= c,
        ops.len() > 0 ==> apply_ops(c, ops) > c,
    decreases ops.len(),
{
    if ops.len() > 0 {
        lemma_no_regression(apply_op(c, ops[0]), ops.drop_first());
    }
}

/// Merging two timestamps, in either order, ends at or above one more than
/// the larger of the two: only the maximum received timestamp matters for
/// the final bound.
pub proof fn lemma_merge_pair_dominates(local: nat, t1: nat, t2: nat)
    ensures
        merged_value(merged_value(local, t1), t2) > (if t1 >= t2 {
            t1
        } else {
            t2
        }),
{
}

/// A quiet run: when no input carries a message and no draw meets the
/// cadence, a scripted run changes nothing — idling is idempotent over any
/// number of iterations.
pub proof fn lemma_quiet_run(v: ProcessView, inputs: Seq<(Option<Message>, u32)>)
    requires
        forall|k: int|
            0 <= k < inputs.len() ==> (#[trigger] inputs[k]).0 is None && inputs[k].1 as nat
                % v.modulus != 0,
    ensures
        sim(v, inputs) == v,
    decreases inputs.len(),
{
    if inputs.len() > 0 {
        assert(step_view(v, inputs[0].0, inputs[0].1) == v);
        lemma_quiet_run(v, inputs.drop_first());
    }
}

} // verus!
