//! The scheduler tick: every world mutation flows through a
//! [`MutationCommand`] submitted to the [`Scheduler`], and
//! [`Scheduler::tick`] drains the whole queue in arrival order against a
//! [`World`].
//!
//! A command's precondition is evaluated against the world at apply time; on
//! failure the effect is skipped and a `PreconditionFailed` event is emitted
//! rather than a partial effect applied. Because the drain is sequential,
//! arrival-order application and last-writer-wins hold by construction.
//!
//! The tick runs at a fixed 20 Hz; this module provides only the
//! deterministic logical tick, not the wall-clock loop that drives it.

use vstd::prelude::*;
use std::collections::VecDeque;
use crate::entity::EntityId;
use crate::place::id::PlaceId;
use crate::world::{World, WorldModel, apply_spec, event_view, located_in_spec, satisfies_spec, place_spec};
use crate::write_model::{Effect, EventModel, MutationCommand, Precondition, TickEvent};
use crate::arena::resolve_model;
use crate::side_tables::location::prev_of;

verus! {

/// Scheduler tick rate in hertz, fixed and not tenant-configurable.
pub const TICK_HZ: u32 = 20;

/// Scheduler tick period in milliseconds: the wall-clock cadence the driver
/// runs [`Scheduler::tick`] at.
pub const TICK_PERIOD_MS: u64 = 50;

/// The period is one second divided by the rate.
pub proof fn lemma_period_matches_rate()
    ensures
        TICK_PERIOD_MS * (TICK_HZ as u64) == 1000,
{
}

/// One command against `w`: a failed precondition skips the effect and
/// reports it; otherwise the effect applies and reports what it must.
pub open spec fn step_spec(w: WorldModel, c: MutationCommand) -> (WorldModel, Seq<EventModel>) {
    let applied = apply_spec(w, c.effect_spec());
    let reported = match applied.1 {
        Some(e) => seq![e],
        None => Seq::empty(),
    };
    match c.precondition_spec() {
        Some(pre) => if !satisfies_spec(w, pre) {
            (w, seq![EventModel::PreconditionFailed { precondition: pre, effect: c.effect_spec() }])
        } else {
            (applied.0, reported)
        },
        None => (applied.0, reported),
    }
}

/// The commands of `q` applied to `w` in arrival order, with the events they
/// report, in order.
pub open spec fn drain_spec(w: WorldModel, q: Seq<MutationCommand>) -> (WorldModel, Seq<EventModel>)
    decreases q.len(),
{
    if q.len() == 0 {
        (w, Seq::empty())
    } else {
        let before = drain_spec(w, q.drop_last());
        let last = step_spec(before.0, q.last());
        (last.0, before.1 + last.1)
    }
}

/// The plain-value forms of a list of events.
pub open spec fn events_view(v: Seq<TickEvent>) -> Seq<EventModel> {
    v.map_values(|e: TickEvent| e@)
}

/// Serializes [`MutationCommand`]s and applies them to a [`World`] on each
/// tick: a FIFO queue and a monotonic tick counter.
#[derive(Debug)]
pub struct Scheduler {
    queue: VecDeque<MutationCommand>,
    tick: u64,
}

impl Scheduler {
    /// The queued commands, oldest first.
    pub closed spec fn queue_spec(&self) -> Seq<MutationCommand> {
        self.queue@
    }

    /// The tick counter.
    pub closed spec fn tick_spec(&self) -> u64 {
        self.tick
    }

    /// Starts a tick for a caller that applies each command itself (as the
    /// write-through world does, around its database writes): the tick
    /// counter advances as in [`Scheduler::tick`], and the queued commands
    /// are handed out in arrival order, leaving the queue empty.
    pub fn start_tick(&mut self) -> (r: Vec<MutationCommand>)
        ensures
            r@ == old(self).queue_spec(),
            final(self).queue_spec() == Seq::<MutationCommand>::empty(),
            final(self).tick_spec() == (if old(self).tick_spec() < u64::MAX { old(self).tick_spec() + 1 } else { u64::MAX as int }),
    {
        if self.tick < u64::MAX {
            self.tick = self.tick + 1;
        }
        let ghost q0 = self.queue@;
        let mut out: Vec<MutationCommand> = Vec::new();
        let n = self.queue.len();
        let mut i: usize = 0;
        assert(q0.skip(0) =~= q0);
        while i < n
            invariant
                n == q0.len(),
                i <= n,
                self.queue@ == q0.skip(i as int),
                out@ == q0.take(i as int),
                self.tick == old(self).tick + (if old(self).tick < u64::MAX { 1int } else { 0int }),
            decreases n - i,
        {
            let command = match self.queue.pop_front() {
                Some(c) => c,
                None => {
                    assert(false);
                    return out;
                },
            };
            assert(q0[i as int] == command);
            out.push(command);
            assert(out@ =~= q0.take(i + 1));
            assert(self.queue@ =~= q0.skip(i + 1));
            i = i + 1;
        }
        assert(q0.take(n as int) =~= q0);
        assert(self.queue@ =~= Seq::<MutationCommand>::empty());
        out
    }

    /// Creates an empty scheduler with an empty queue and tick counter zero.
    pub fn new() -> (r: Self)
        ensures
            r.queue_spec() == Seq::<MutationCommand>::empty(),
            r.tick_spec() == 0,
    {
        Scheduler { queue: VecDeque::new(), tick: 0 }
    }

    /// Enqueues `command` for application on the next tick; submission order
    /// is the order commands apply in.
    pub fn submit(&mut self, command: MutationCommand)
        ensures
            final(self).queue_spec() == old(self).queue_spec().push(command),
            final(self).tick_spec() == old(self).tick_spec(),
    {
        self.queue.push_back(command);
    }

    /// The current tick number: zero before the first tick, incremented once
    /// per tick.
    pub fn tick_number(&self) -> (r: u64)
        ensures
            r == self.tick_spec(),
    {
        self.tick
    }

    /// Drains and applies every queued command against `world`, in arrival
    /// order, returning the events produced, and advances the tick counter by
    /// one (saturating at `u64::MAX`).
    pub fn tick(&mut self, world: &mut World) -> (r: Vec<TickEvent>)
        requires
            old(world).wf(),
        ensures
            final(world).wf(),
            (final(world).model(), events_view(r@)) == drain_spec(old(world).model(), old(self).queue_spec()),
            final(self).queue_spec() == Seq::<MutationCommand>::empty(),
            final(self).tick_spec() == (if old(self).tick_spec() < u64::MAX { old(self).tick_spec() + 1 } else { u64::MAX as int }),
    {
        if self.tick < u64::MAX {
            self.tick = self.tick + 1;
        }
        let ghost q0 = self.queue@;
        let ghost w0 = world.model();
        let mut events: Vec<TickEvent> = Vec::new();
        let mut i: usize = 0;
        let n = self.queue.len();
        assert(q0.take(0) =~= Seq::<MutationCommand>::empty());
        assert(q0.skip(0) =~= q0);
        while i < n
            invariant
                world.wf(),
                n == q0.len(),
                i <= q0.len(),
                self.queue@ == q0.skip(i as int),
                (world.model(), events_view(events@)) == drain_spec(w0, q0.take(i as int)),
                self.tick == old(self).tick + (if old(self).tick < u64::MAX { 1int } else { 0int }),
            decreases n - i,
        {
            let command = match self.queue.pop_front() {
                Some(c) => c,
                None => {
                    assert(false);
                    return events;
                },
            };
            assert(q0[i as int] == command);
            assert(q0.take(i + 1).drop_last() =~= q0.take(i as int));
            assert(q0.take(i + 1).last() == command);
            assert(self.queue@ =~= q0.skip(i + 1));
            let ghost wb = world.model();
            let ghost eb = events_view(events@);
            match command.precondition() {
                Some(precondition) => {
                    if !world.satisfies(precondition) {
                        events.push(TickEvent::PreconditionFailed { precondition, effect: command.effect() });
                        assert(events_view(events@) =~= eb + seq![EventModel::PreconditionFailed { precondition, effect: command.effect_spec() }]);
                        i = i + 1;
                        continue;
                    }
                },
                None => {},
            }
            match world.apply_effect(command.effect()) {
                Some(event) => {
                    events.push(event);
                    assert(events_view(events@) =~= eb + seq![event@]);
                },
                None => {
                    assert(events_view(events@) =~= eb + Seq::<EventModel>::empty());
                },
            }
            i = i + 1;
        }
        assert(q0.take(q0.len() as int) =~= q0);
        assert(self.queue@ =~= Seq::<MutationCommand>::empty());
        events
    }
}

/// Arrival order: draining two batches in turn is draining them as one
/// queue, the events of the first batch coming first.
pub proof fn lemma_arrival_order(w: WorldModel, q1: Seq<MutationCommand>, q2: Seq<MutationCommand>)
    ensures
        drain_spec(w, q1 + q2) == (drain_spec(drain_spec(w, q1).0, q2).0, drain_spec(w, q1).1 + drain_spec(
            drain_spec(w, q1).0,
            q2,
        ).1),
    decreases q2.len(),
{
    if q2.len() == 0 {
        assert(q1 + q2 =~= q1);
        assert(drain_spec(w, q1).1 + Seq::<EventModel>::empty() =~= drain_spec(w, q1).1);
    } else {
        lemma_arrival_order(w, q1, q2.drop_last());
        assert((q1 + q2).drop_last() =~= q1 + q2.drop_last());
        assert((q1 + q2).last() == q2.last());
        let mid = drain_spec(w, q1);
        let a = drain_spec(mid.0, q2.drop_last());
        let b = step_spec(a.0, q2.last());
        assert(mid.1 + a.1 + b.1 =~= mid.1 + (a.1 + b.1));
    }
}

/// A failed precondition is inert: the world is untouched and the only event
/// names the precondition and the skipped effect.
pub proof fn lemma_failed_precondition_is_inert(w: WorldModel, c: MutationCommand, pre: Precondition)
    requires
        c.precondition_spec() == Some(pre),
        !satisfies_spec(w, pre),
    ensures
        step_spec(w, c) == (w, seq![EventModel::PreconditionFailed { precondition: pre, effect: c.effect_spec() }]),
{
}

/// Last writer wins: two unguarded moves of a live entity in one tick leave
/// it where the second sent it, silently.
pub proof fn lemma_last_writer_wins(w: WorldModel, c1: MutationCommand, c2: MutationCommand, e: EntityId, p1: PlaceId, p2: PlaceId)
    requires
        resolve_model(w.arena, e@) is Ok,
        (e.slot_spec() as int) < usize::MAX,
        c1.precondition_spec() is None,
        c2.precondition_spec() is None,
        c1.effect_spec() == (Effect::MoveTo { entity: e, place: p1 }),
        c2.effect_spec() == (Effect::MoveTo { entity: e, place: p2 }),
    ensures
        located_in_spec(drain_spec(w, seq![c1, c2]).0, e, p2),
        drain_spec(w, seq![c1, c2]).1 == Seq::<EventModel>::empty(),
{
    let q = seq![c1, c2];
    assert(q.drop_last() =~= seq![c1]);
    assert(seq![c1].drop_last() =~= Seq::<MutationCommand>::empty());
    let d0 = drain_spec(w, Seq::<MutationCommand>::empty());
    assert(d0 == (w, Seq::<EventModel>::empty()));
    let w1 = place_spec(w, e, p1);
    assert(step_spec(w, c1) == (w1, Seq::<EventModel>::empty()));
    let d1 = drain_spec(w, seq![c1]);
    assert(d1.0 == w1);
    assert(d1.1 =~= Seq::<EventModel>::empty());
    assert(w1.arena == w.arena);
    let w2 = place_spec(w1, e, p2);
    assert(step_spec(w1, c2) == (w2, Seq::<EventModel>::empty()));
    assert(drain_spec(w, q).0 == w2);
    assert(prev_of(w2.fw, e.slot_spec()) == Some(p2));
    assert(drain_spec(w, q).1 =~= Seq::<EventModel>::empty());
}

} // verus!
