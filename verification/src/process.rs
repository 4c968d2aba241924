//! A process actor: one logical clock, a send cadence, and the ordered
//! record of the clock events it has performed. Each loop iteration either
//! merges a pending inbound message, ticks and offers an outbound message,
//! or idles, in that strict priority order.

use vstd::prelude::*;
use crate::clock::{LogicalClock, merged_value};

verus! {

/// Number of loop iterations each process runs before draining.
pub const ITERATIONS: u32 = 21;

/// Inclusive upper bound of the per-iteration random draw.
pub const DRAW_BOUND: u32 = 100;

/// Send cadence of the first process: it offers a send when the draw is even.
pub const MODULUS_A: u32 = 2;

/// Send cadence of the second process: when the draw is divisible by three.
pub const MODULUS_B: u32 = 3;

/// An immutable message carrying the sender's clock reading at send time.
#[derive(Clone, Copy, Debug, PartialEq, Eq, Structural)]
pub struct Message {
    pub tm: u32,
}

/// One recorded clock event, with the clock value the process held right
/// after it. Idle iterations do not advance the clock and are not events.
#[derive(Clone, Copy, Debug, PartialEq, Eq, Structural)]
pub enum Event {
    /// A pending message was merged; the payload is the merged clock value.
    Recv(u32),
    /// The process ticked and sent; the payload is the timestamp sent.
    Send(u32),
}

impl Event {
    /// The clock value the process held right after this event.
    pub open spec fn clock_value(self) -> nat {
        match self {
            Event::Recv(v) => v as nat,
            Event::Send(v) => v as nat,
        }
    }

    /// The clock value recorded in this event.
    pub fn value(&self) -> (v: u32)
        ensures
            v as nat == self.clock_value(),
    {
        match self {
            Event::Recv(v) => *v,
            Event::Send(v) => *v,
        }
    }
}

/// What one iteration of the process loop did.
#[derive(Clone, Copy, Debug, PartialEq, Eq, Structural)]
pub enum StepOutcome {
    /// A pending message was consumed; the payload is the merged clock value.
    Received(u32),
    /// The process ticked and offers this message for its outbound channel.
    ToSend(Message),
    /// Neither branch fired; nothing changed.
    Idled,
}

/// The mathematical content of a process: its clock value, its send
/// cadence, and the sequence of clock events performed so far.
#[verifier::ext_equal]
pub ghost struct ProcessView {
    pub clock: nat,
    pub modulus: nat,
    pub events: Seq<Event>,
}

/// Adjacent recorded events carry strictly increasing clock values.
pub open spec fn adjacent_increasing(events: Seq<Event>) -> bool {
    forall|i: int|
        0 <= i && i + 1 < events.len() ==> #[trigger] events[i].clock_value()
            < events[i + 1].clock_value()
}

/// One of the two symmetric actors of the simulation.
pub struct Process {
    clock: LogicalClock,
    modulus: u32,
    log: Vec<Event>,
}

impl View for Process {
    type V = ProcessView;

    closed spec fn view(&self) -> ProcessView {
        ProcessView {
            clock: self.clock.value(),
            modulus: self.modulus as nat,
            events: self.log@,
        }
    }
}

impl Process {
    /// Well-formedness: the cadence is positive, recorded clock values
    /// strictly increase in execution order, and the clock is never behind
    /// the last recorded value.
    pub open spec fn wf(&self) -> bool {
        &&& 0 < self@.modulus
        &&& adjacent_increasing(self@.events)
        &&& self@.events.len() > 0 ==> self@.events.last().clock_value() <= self@.clock
    }

    /// A fresh process: clock at zero, empty event record, the given send
    /// cadence.
    pub fn new(modulus: u32) -> (p: Process)
        requires
            0 < modulus,
        ensures
            p.wf(),
            p@.clock == 0,
            p@.modulus == modulus as nat,
            p@.events == Seq::<Event>::empty(),
    {
        Process { clock: LogicalClock::new(), modulus, log: Vec::new() }
    }

    /// The current clock value.
    pub fn clock_value(&self) -> (v: u32)
        ensures
            v as nat == self@.clock,
    {
        self.clock.read()
    }

    /// The send cadence this process was built with.
    pub fn modulus(&self) -> (m: u32)
        ensures
            m as nat == self@.modulus,
    {
        self.modulus
    }

    /// The ordered record of clock events performed so far.
    pub fn log(&self) -> (l: &Vec<Event>)
        ensures
            l@ == self@.events,
    {
        &self.log
    }

    /// Decide well-formedness at run time: true exactly when `wf` holds.
    pub fn well_formed(&self) -> (b: bool)
        ensures
            b == self.wf(),
    {
        if self.modulus == 0 {
            return false;
        }
        let n = self.log.len();
        let mut i: usize = 1;
        while i < n
            invariant
                n == self.log.len(),
                1 <= i,
                forall|k: int|
                    1 <= k < i ==> self.log@[k - 1].clock_value()
                        < #[trigger] self.log@[k].clock_value(),
            decreases n - i,
        {
            let prev = self.log[i - 1].value();
            let cur = self.log[i].value();
            if prev >= cur {
                proof {
                    assert(self.log@[i - 1].clock_value() >= self.log@[i as int].clock_value());
                }
                return false;
            }
            i = i + 1;
        }
        if n > 0 {
            let lv = self.log[n - 1].value();
            if lv > self.clock.read() {
                return false;
            }
        }
        proof {
            assert forall|j: int| 0 <= j && j + 1 < self@.events.len() implies #[trigger] self@
                .events[j].clock_value() < self@.events[j + 1].clock_value() by {
                assert(self.log@[j + 1 - 1].clock_value() < self.log@[j + 1].clock_value());
            }
        }
        true
    }

    /// One iteration of the loop, fed the pending inbound message (if any)
    /// and the iteration's random draw, in the strict priority order:
    /// receive first, then the cadence-gated send, else idle.
    pub fn step(&mut self, inbound: Option<Message>, draw: u32) -> (out: StepOutcome)
        requires
            old(self).wf(),
            old(self)@.clock < u32::MAX,
            inbound is Some ==> inbound->Some_0.tm < u32::MAX,
        ensures
            final(self).wf(),
            final(self)@.modulus == old(self)@.modulus,
            match out {
                StepOutcome::Received(v) => {
                    &&& inbound is Some
                    &&& v as nat == merged_value(old(self)@.clock, inbound->Some_0.tm as nat)
                    &&& final(self)@.clock == v as nat
                    &&& final(self)@.events == old(self)@.events.push(Event::Recv(v))
                },
                StepOutcome::ToSend(m) => {
                    &&& inbound is None
                    &&& draw as nat % old(self)@.modulus == 0
                    &&& m.tm as nat == old(self)@.clock + 1
                    &&& final(self)@.clock == m.tm as nat
                    &&& final(self)@.events == old(self)@.events.push(Event::Send(m.tm))
                },
                StepOutcome::Idled => {
                    &&& inbound is None
                    &&& draw as nat % old(self)@.modulus != 0
                    &&& final(self)@ == old(self)@
                },
            },
    {
        match inbound {
            Some(m) => {
                let v = self.clock.merge(m.tm);
                self.log.push(Event::Recv(v));
                proof {
                    lemma_push_keeps_increasing(old(self)@.events, Event::Recv(v), old(self)@.clock);
                }
                StepOutcome::Received(v)
            },
            None => {
                if draw % self.modulus == 0 {
                    let v = self.clock.tick();
                    self.log.push(Event::Send(v));
                    proof {
                        lemma_push_keeps_increasing(old(self)@.events, Event::Send(v), old(self)@.clock);
                    }
                    StepOutcome::ToSend(Message { tm: v })
                } else {
                    StepOutcome::Idled
                }
            },
        }
    }

    /// One iteration driven by a fresh random draw, in the same priority
    /// order as `step`. The draw is random, so the contract states what
    /// holds of every outcome: a pending message is always merged, and a
    /// send always carries the ticked clock value.
    pub fn step_random(&mut self, inbound: Option<Message>) -> (out: StepOutcome)
        requires
            old(self).wf(),
            old(self)@.clock < u32::MAX,
            inbound is Some ==> inbound->Some_0.tm < u32::MAX,
        ensures
            final(self).wf(),
            final(self)@.modulus == old(self)@.modulus,
            inbound is Some ==> out is Received,
            match out {
                StepOutcome::Received(v) => {
                    &&& inbound is Some
                    &&& v as nat == merged_value(old(self)@.clock, inbound->Some_0.tm as nat)
                    &&& final(self)@.clock == v as nat
                    &&& final(self)@.events == old(self)@.events.push(Event::Recv(v))
                },
                StepOutcome::ToSend(m) => {
                    &&& inbound is None
                    &&& m.tm as nat == old(self)@.clock + 1
                    &&& final(self)@.clock == m.tm as nat
                    &&& final(self)@.events == old(self)@.events.push(Event::Send(m.tm))
                },
                StepOutcome::Idled => {
                    &&& inbound is None
                    &&& final(self)@ == old(self)@
                },
            },
    {
        let draw = draw_in_range(0, DRAW_BOUND);
        self.step(inbound, draw)
    }

    /// Run a scripted sequence of iterations: for each entry, the pending
    /// inbound message (if any) and that iteration's draw. With the random
    /// source and the channel fixed by the script a run is deterministic,
    /// and its result is exactly the fold of the per-iteration transition.
    #[verifier::rlimit(50)]
    pub fn run_script(&mut self, inputs: &Vec<(Option<Message>, u32)>) -> (outs: Vec<StepOutcome>)
        requires
            old(self).wf(),
            old(self)@.clock + inputs@.len() <= u32::MAX,
            forall|k: int|
                0 <= k < inputs@.len() && (#[trigger] inputs@[k]).0 is Some ==> inputs@[
                    k
                ].0->Some_0.tm + inputs@.len() - k <= u32::MAX,
        ensures
            final(self).wf(),
            final(self)@ == sim(old(self)@, inputs@),
            outs@.len() == inputs@.len(),
            forall|k: int|
                0 <= k < inputs@.len() ==> #[trigger] outs@[k] == step_outcome(
                    sim(old(self)@, inputs@.take(k)),
                    inputs@[k].0,
                    inputs@[k].1,
                ),
    {
        let ghost init = old(self)@;
        let n = inputs.len();
        let mut outs: Vec<StepOutcome> = Vec::new();
        let mut i: usize = 0;
        while i < n
            invariant
                n == inputs@.len(),
                i <= n,
                self.wf(),
                self@ == sim(init, inputs@.take(i as int)),
                self@.clock + (n - i) <= u32::MAX,
                forall|k: int|
                    0 <= k < inputs@.len() && (#[trigger] inputs@[k]).0 is Some ==> inputs@[
                        k
                    ].0->Some_0.tm + inputs@.len() - k <= u32::MAX,
                outs@.len() == i,
                forall|k: int|
                    0 <= k < i ==> #[trigger] outs@[k] == step_outcome(
                        sim(init, inputs@.take(k)),
                        inputs@[k].0,
                        inputs@[k].1,
                    ),
            decreases n - i,
        {
            let ghost prev = self@;
            let (inb, draw) = inputs[i];
            let out = self.step(inb, draw);
            outs.push(out);
            proof {
                lemma_sim_snoc(init, inputs@.take(i as int), inputs@[i as int]);
                assert(inputs@.take(i as int).push(inputs@[i as int]) =~= inputs@.take(
                    i as int + 1,
                ));
                match out {
                    StepOutcome::Received(v) => {
                        let t = inb->Some_0.tm as nat;
                        assert(merged_value(prev.clock, t) <= u32::MAX);
                        assert(v == merged_value(prev.clock, t) as u32);
                        assert(self@ =~= step_view(prev, inb, draw));
                    },
                    StepOutcome::ToSend(m) => {
                        assert(m.tm == (prev.clock + 1) as u32);
                        assert(self@ =~= step_view(prev, inb, draw));
                    },
                    StepOutcome::Idled => {
                        assert(self@ =~= step_view(prev, inb, draw));
                    },
                }
                assert(out == step_outcome(prev, inb, draw));
            }
            i = i + 1;
        }
        proof {
            assert(inputs@.take(n as int) =~= inputs@);
        }
        outs
    }
}

/// Relies on rand: `rand::rng()` yields the thread-local generator, and
/// `RngExt::random_range` returns a uniformly distributed value inside the
/// given range, which must be non-empty (it panics on an empty range).
#[verifier::external_body]
fn draw_in_range(lo: u32, hi: u32) -> (r: u32)
    requires
        lo <= hi,
    ensures
        lo <= r <= hi,
{
    let mut generator = rand::rng();
    rand::RngExt::random_range(&mut generator, lo..=hi)
}

/// The per-iteration transition at the level of the mathematical model:
/// merge the pending message if there is one; else, when the draw meets the
/// cadence, tick and record a send; else leave everything unchanged.
pub open spec fn step_view(v: ProcessView, inbound: Option<Message>, draw: u32) -> ProcessView {
    match inbound {
        Some(m) => ProcessView {
            clock: merged_value(v.clock, m.tm as nat),
            modulus: v.modulus,
            events: v.events.push(Event::Recv(merged_value(v.clock, m.tm as nat) as u32)),
        },
        None => if draw as nat % v.modulus == 0 {
            ProcessView {
                clock: v.clock + 1,
                modulus: v.modulus,
                events: v.events.push(Event::Send((v.clock + 1) as u32)),
            }
        } else {
            v
        },
    }
}

/// The outcome one iteration reports, as a function of the model state and
/// the iteration's inputs.
pub open spec fn step_outcome(v: ProcessView, inbound: Option<Message>, draw: u32) -> StepOutcome {
    match inbound {
        Some(m) => StepOutcome::Received(merged_value(v.clock, m.tm as nat) as u32),
        None => if draw as nat % v.modulus == 0 {
            StepOutcome::ToSend(Message { tm: (v.clock + 1) as u32 })
        } else {
            StepOutcome::Idled
        },
    }
}

/// A whole scripted run: fold `step_view` over the iterations' inputs.
pub open spec fn sim(v: ProcessView, inputs: Seq<(Option<Message>, u32)>) -> ProcessView
    decreases inputs.len(),
{
    if inputs.len() == 0 {
        v
    } else {
        sim(step_view(v, inputs[0].0, inputs[0].1), inputs.drop_first())
    }
}

/// Running one more scripted input extends the run by one transition.
proof fn lemma_sim_snoc(
    v: ProcessView,
    inputs: Seq<(Option<Message>, u32)>,
    x: (Option<Message>, u32),
)
    ensures
        sim(v, inputs.push(x)) == step_view(sim(v, inputs), x.0, x.1),
    decreases inputs.len(),
{
    let p = inputs.push(x);
    if inputs.len() == 0 {
        assert(p[0] == x);
        assert(p.drop_first() =~= Seq::<(Option<Message>, u32)>::empty());
        assert(sim(v, p) == sim(step_view(v, x.0, x.1), p.drop_first()));
        assert(sim(step_view(v, x.0, x.1), p.drop_first()) == step_view(v, x.0, x.1));
    } else {
        assert(p[0] == inputs[0]);
        assert(p.drop_first() =~= inputs.drop_first().push(x));
        assert(sim(v, p) == sim(step_view(v, inputs[0].0, inputs[0].1), p.drop_first()));
        lemma_sim_snoc(step_view(v, inputs[0].0, inputs[0].1), inputs.drop_first(), x);
        assert(sim(v, inputs) == sim(step_view(v, inputs[0].0, inputs[0].1), inputs.drop_first()));
    }
}

/// Pushing an event whose clock value lies strictly above a bound that
/// dominates the last recorded value keeps the record strictly increasing.
proof fn lemma_push_keeps_increasing(events: Seq<Event>, ev: Event, bound: nat)
    requires
        adjacent_increasing(events),
        events.len() > 0 ==> events.last().clock_value() <= bound,
        bound < ev.clock_value(),
    ensures
        adjacent_increasing(events.push(ev)),
        events.push(ev).last() == ev,
{
    let pushed = events.push(ev);
    assert forall|i: int| 0 <= i && i + 1 < pushed.len() implies #[trigger] pushed[i].clock_value()
        < pushed[i + 1].clock_value() by {
        if i + 1 < events.len() {
            assert(pushed[i] == events[i]);
            assert(pushed[i + 1] == events[i + 1]);
        } else {
            assert(pushed[i] == events.last());
            assert(pushed[i + 1] == ev);
        }
    }
}

} // verus!
