//! Collecting events into batches, and what each tick of the timer sets going.

use crate::event::Event;
use crate::plan::{batch_tasks, poll_tasks, State};
use crate::session::Session;
use vstd::prelude::*;

verus! {

/// A batch is worked off once no event has come for this long after its first one, in
/// nanoseconds: 16 milliseconds.
pub const QUIET_TIME: u64 = 16_000_000;

/// A batch is worked off at the latest this long after its first event, in
/// nanoseconds: 120 milliseconds.
pub const LONGEST_WAIT: u64 = 120_000_000;

/// Every so many ticks, about once per second, all overlays are reconciled.
pub const RECONCILE_TICKS: usize = 60;

pub struct MainState {
    pub session: Session,
    pub batch_events: Vec<Event>,
    pub batch_first_seen: Option<u64>,
    pub ticks: usize,
}

/// The timer as contracts see it.
#[verifier::ext_equal]
pub struct Timer {
    pub session: State,
    /// The events that wait, oldest first.
    pub batch: Seq<Event>,
    /// When the oldest of them came in.
    pub first_seen: Option<u64>,
    /// The ticks so far; after the largest number comes 0.
    pub ticks: usize,
}

impl View for MainState {
    type V = Timer;

    open spec fn view(&self) -> Timer {
        Timer {
            session: self.session@,
            batch: self.batch_events@,
            first_seen: self.batch_first_seen,
            ticks: self.ticks,
        }
    }
}

/// The batch is due: its oldest event came in at `first_seen`, and `received` events
/// came with this tick.
pub open spec fn due(first_seen: Option<u64>, received: nat, now: u64) -> bool {
    first_seen matches Some(t) && ((now - t >= QUIET_TIME && received == 0) || now - t
        >= LONGEST_WAIT)
}

impl Timer {
    /// It is known since when events wait exactly as long as some do.
    pub open spec fn well_formed(self) -> bool {
        self.first_seen is None <==> self.batch.len() == 0
    }

    pub open spec fn first_seen_with(self, incoming: Seq<Event>, received_at: u64) -> Option<u64> {
        if self.batch.len() == 0 && incoming.len() > 0 {
            Some(received_at)
        } else {
            self.first_seen
        }
    }

    /// The batch is worked off in this tick.
    pub open spec fn flushes(self, incoming: Seq<Event>, received_at: u64, now: u64) -> bool {
        due(self.first_seen_with(incoming, received_at), incoming.len(), now)
    }

    /// All overlays are reconciled in this tick, unless a batch is worked off.
    pub open spec fn reconciles(self) -> bool {
        self.ticks % RECONCILE_TICKS == 0 && self.ticks > 0
    }

    /// One tick.
    pub open spec fn ticked(self, incoming: Seq<Event>, received_at: u64, now: u64) -> Timer {
        let ticks = if self.ticks == usize::MAX {
            0
        } else {
            (self.ticks + 1) as usize
        };
        if self.flushes(incoming, received_at, now) {
            Timer {
                session: State {
                    agenda: self.session.agenda + batch_tasks(self.batch + incoming),
                    ..self.session
                },
                batch: seq![],
                first_seen: None,
                ticks,
            }
        } else {
            Timer {
                session: State {
                    agenda: self.session.agenda + poll_tasks(self.reconciles()),
                    ..self.session
                },
                batch: self.batch + incoming,
                first_seen: self.first_seen_with(incoming, received_at),
                ticks,
            }
        }
    }
}

impl MainState {
    pub fn new(session: Session) -> (r: Self)
        ensures
            r.session == session,
            r@.batch.len() == 0,
            r@.first_seen is None,
            r@.ticks == 0,
            r@.well_formed(),
    {
        MainState { session, batch_events: Vec::new(), batch_first_seen: None, ticks: 0 }
    }

    /// One tick of the timer. `incoming` are the events that came since the last one,
    /// of which the first was taken in at `received_at`; `now` is the time at which it
    /// is decided what to do. Afterwards the session has to be brought to rest.
    pub fn timer_callback(&mut self, incoming: &Vec<Event>, received_at: u64, now: u64)
        ensures
            final(self)@ == old(self)@.ticked(incoming@, received_at, now),
            old(self)@.well_formed() ==> final(self)@.well_formed(),
    {
        let ghost before = self@;
        let tick = self.ticks;
        let following = if tick == usize::MAX {
            0usize
        } else {
            tick + 1
        };
        self.ticks = following;
        if self.batch_events.len() == 0 && incoming.len() > 0 {
            self.batch_first_seen = Some(received_at);
        }
        let ghost first_seen = self.batch_first_seen;
        for i in 0..incoming.len()
            invariant
                self@ == (Timer {
                    batch: before.batch + incoming@.take(i as int),
                    first_seen,
                    ticks: following,
                    ..before
                }),
        {
            self.batch_events.push(incoming[i]);
            assert((before.batch + incoming@.take(i as int)).push(incoming@[i as int])
                =~= before.batch + incoming@.take(i + 1));
        }
        assert(incoming@.take(incoming@.len() as int) =~= incoming@);
        let should_flush = match self.batch_first_seen {
            Some(t) => {
                let elapsed = now.saturating_sub(t);
                (elapsed >= QUIET_TIME && incoming.len() == 0) || elapsed >= LONGEST_WAIT
            },
            None => false,
        };
        if should_flush {
            self.session.process_event_batch(&self.batch_events);
            self.batch_events = Vec::new();
            self.batch_first_seen = None;
        } else {
            self.session.poll(tick % RECONCILE_TICKS == 0 && tick > 0);
        }
    }
}

/// No event is lost, and none is taken twice: what waits after a tick and what the
/// session is given, together, are the events that waited and those that came in, in
/// their order.
pub proof fn law_no_event_is_lost(timer: Timer, incoming: Seq<Event>, received_at: u64, now: u64)
    ensures
        ({
            let after = timer.ticked(incoming, received_at, now);
            let all = timer.batch + incoming;
            ||| after.batch == all && after.session.agenda == timer.session.agenda + poll_tasks(
                timer.reconciles(),
            )
            ||| after.batch.len() == 0 && after.session.agenda == timer.session.agenda
                + batch_tasks(all)
        }),
{
}

/// However fast events keep coming, none waits for longer than the longest wait: a
/// tick that finds the oldest that old works the batch off.
pub proof fn law_no_event_waits_too_long(
    timer: Timer,
    incoming: Seq<Event>,
    received_at: u64,
    now: u64,
)
    requires
        timer.well_formed(),
        timer.batch.len() > 0,
        now - timer.first_seen->0 >= LONGEST_WAIT,
    ensures
        timer.ticked(incoming, received_at, now).batch.len() == 0,
{
}

/// Once it is quiet, the batch is worked off: a tick without events, long enough after
/// the first one, leaves none waiting.
pub proof fn law_quiet_batch_is_worked_off(timer: Timer, received_at: u64, now: u64)
    requires
        timer.well_formed(),
        timer.batch.len() > 0,
        now - timer.first_seen->0 >= QUIET_TIME,
    ensures
        timer.ticked(seq![], received_at, now).batch.len() == 0,
{
}

/// A batch grows as long as events keep coming and the longest wait is not over.
pub proof fn law_batch_grows_while_events_come(
    timer: Timer,
    incoming: Seq<Event>,
    received_at: u64,
    now: u64,
)
    requires
        timer.well_formed(),
        incoming.len() > 0,
        now - timer.first_seen_with(incoming, received_at)->0 < LONGEST_WAIT,
    ensures
        timer.ticked(incoming, received_at, now).batch == timer.batch + incoming,
{
}

/// When events start to wait: with the first one that comes where none waits. As long as
/// the batch is not worked off that time stays, and then it is forgotten.
pub proof fn law_waiting_starts_with_the_first_event(
    timer: Timer,
    incoming: Seq<Event>,
    received_at: u64,
    now: u64,
)
    requires
        timer.well_formed(),
    ensures
        ({
            let after = timer.ticked(incoming, received_at, now);
            &&& after.batch.len() == 0 ==> after.first_seen is None
            &&& after.batch.len() > 0 && timer.batch.len() > 0 ==> after.first_seen
                == timer.first_seen
            &&& after.batch.len() > 0 && timer.batch.len() == 0 ==> after.first_seen == Some(
                received_at,
            )
        }),
{
}

/// A batch is never worked off before 16 milliseconds have passed since its first event,
/// nor, while events come, before 120 milliseconds have; and where nothing waits, nothing
/// is.
pub proof fn law_batches_are_not_worked_off_early(
    timer: Timer,
    incoming: Seq<Event>,
    received_at: u64,
    now: u64,
)
    requires
        timer.well_formed(),
    ensures
        ({
            let after = timer.ticked(incoming, received_at, now);
            let since = if timer.batch.len() > 0 {
                timer.first_seen->0
            } else {
                received_at
            };
            let waits = timer.batch + incoming;
            let elapsed = now - since;
            &&& elapsed < 16_000_000 ==> after.batch == waits
            &&& elapsed < 120_000_000 && incoming.len() > 0 ==> after.batch == waits
            &&& waits.len() == 0 ==> after.session.agenda == timer.session.agenda + poll_tasks(
                timer.ticks > 0 && timer.ticks % 60 == 0,
            )
            &&& elapsed >= 120_000_000 && waits.len() > 0 ==> after.batch.len() == 0
                && after.session.agenda == timer.session.agenda + batch_tasks(waits)
            &&& elapsed >= 16_000_000 && incoming.len() == 0 && waits.len() > 0
                ==> after.batch.len() == 0 && after.session.agenda == timer.session.agenda
                + batch_tasks(waits)
        }),
{
}

/// Every tick is counted. One in sixty, the first one not among them, reconciles all
/// overlays, unless it works a batch off, which reconciles them as well.
pub proof fn law_every_sixtieth_tick_reconciles(
    timer: Timer,
    incoming: Seq<Event>,
    received_at: u64,
    now: u64,
)
    ensures
        ({
            let after = timer.ticked(incoming, received_at, now);
            &&& timer.ticks < usize::MAX ==> after.ticks == timer.ticks + 1
            &&& timer.ticks == usize::MAX ==> after.ticks == 0
            &&& timer.reconciles() <==> timer.ticks != 0 && timer.ticks as int % 60 == 0
            &&& after.session.borders == timer.session.borders
            &&& after.session.pending == timer.session.pending
        }),
{
}

}
