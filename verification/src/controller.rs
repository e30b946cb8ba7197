//! The controller of one device: the state machine that turns an energy
//! credit into switch commands by following the energy meter.
//!
//! The machine waits for a credit, records it and reads the meter to fix
//! the target, keeps the switch on while the meter is below the target,
//! and turns it off when the target is reached. It only decides: whoever
//! drives it reads the meter, sends the commands, appends the journal
//! entries, and reports back what happened.

use vstd::prelude::*;
use crate::common::{Payment, PaymentView};
use crate::journal::{JournalEntry, JournalEntryView};

verus! {

/// A command for the switch.
#[derive(Debug, Clone, Copy, PartialEq, Eq, Structural)]
pub enum Command {
    On,
    Off,
}

/// Where a controller stands, without the details.
#[derive(Debug, Clone, Copy, PartialEq, Eq, Structural)]
pub enum Phase {
    Idle,
    Starting,
    Delivering,
    Done,
}

/// The state of a controller.
#[derive(Debug, PartialEq, Eq)]
pub enum Controller {
    /// No credit has been taken on yet.
    Idle,
    /// A credit has been taken on and recorded; the meter has not been
    /// read for it yet.
    Starting { credit: Payment },
    /// The credit is being delivered until the meter reaches
    /// `end_target`, in hundredths of a watt-hour. `stopping` says that
    /// the last reading had reached the target, so that the switch was
    /// told to turn off.
    Delivering { credit: Payment, end_target: i128, stopping: bool },
    /// The last credit has been delivered and the switch is off; the next
    /// credit can be taken on.
    Done,
}

/// The mathematical value of a [`Controller`].
pub ghost enum ControllerView {
    Idle,
    Starting { credit: PaymentView },
    Delivering { credit: PaymentView, end_target: int, stopping: bool },
    Done,
}

impl View for Controller {
    type V = ControllerView;

    open spec fn view(&self) -> ControllerView {
        match self {
            Controller::Idle => ControllerView::Idle,
            Controller::Starting { credit } => ControllerView::Starting { credit: credit@ },
            Controller::Delivering { credit, end_target, stopping } => ControllerView::Delivering {
                credit: credit@,
                end_target: *end_target as int,
                stopping: *stopping,
            },
            Controller::Done => ControllerView::Done,
        }
    }
}

/// What a controller is told.
#[derive(Debug, PartialEq, Eq)]
pub enum Event {
    /// The next credit of the device's queue.
    Credit(Payment),
    /// The meter was read: all the energy that has passed through the
    /// switch, in hundredths of a watt-hour.
    Meter(i64),
    /// The meter could not be read.
    MeterFailed,
    /// The switch was sent `command`, and `ok` says whether it took it.
    Switched { command: Command, ok: bool },
}

/// The mathematical value of an [`Event`].
pub ghost enum EventView {
    Credit(PaymentView),
    Meter(i64),
    MeterFailed,
    Switched { command: Command, ok: bool },
}

impl View for Event {
    type V = EventView;

    open spec fn view(&self) -> EventView {
        match self {
            Event::Credit(credit) => EventView::Credit(credit@),
            Event::Meter(total) => EventView::Meter(*total),
            Event::MeterFailed => EventView::MeterFailed,
            Event::Switched { command, ok } => EventView::Switched { command: *command, ok: *ok },
        }
    }
}

/// What a controller wants done after an event.
#[derive(Debug, PartialEq, Eq)]
pub struct Reaction {
    /// The entry to append to the journal, if any.
    pub entry: Option<JournalEntry>,
    /// The command to send to the switch, if any.
    pub command: Option<Command>,
    /// The credit that was offered while another one was being delivered:
    /// it has not been taken on and must be offered again later.
    pub returned: Option<Payment>,
}

/// The mathematical value of a [`Reaction`].
pub ghost struct ReactionView {
    pub entry: Option<JournalEntryView>,
    pub command: Option<Command>,
    pub returned: Option<PaymentView>,
}

impl View for Reaction {
    type V = ReactionView;

    open spec fn view(&self) -> ReactionView {
        ReactionView {
            entry: match self.entry {
                Some(entry) => Some(entry@),
                None => None,
            },
            command: self.command,
            returned: match self.returned {
                Some(credit) => Some(credit@),
                None => None,
            },
        }
    }
}

/// The reaction that asks for nothing.
pub open spec fn nothing() -> ReactionView {
    ReactionView { entry: None, command: None, returned: None }
}

/// `x`, or the nearest number that fits in 64 bits.
pub open spec fn clamp(x: int) -> int {
    if x > i64::MAX {
        i64::MAX as int
    } else if x < i64::MIN {
        i64::MIN as int
    } else {
        x
    }
}

/// The journal entry that says `remaining` is still owed for `credit` at
/// the time `now`.
pub open spec fn progress(credit: PaymentView, now: u64, remaining: int) -> JournalEntryView {
    JournalEntryView {
        address: credit.address,
        txid: credit.txid,
        time: now,
        remaining_watt_hours: remaining,
    }
}

/// The state machine: the state that follows `state` when `event` is
/// reported at the time `now`, and what is to be done.
///
/// * A credit is taken on when no delivery is under way: it is recorded
///   with all of its energy still owed. During a delivery it is handed
///   back.
/// * The first reading of the meter after that fixes the target, the
///   reading plus the credit, and turns the switch on.
/// * Every later reading is recorded with what is still owed, the target
///   minus the reading; below the target the switch is told to stay on,
///   at the target or above it is told to turn off.
/// * The delivery is done when the switch has taken the command to turn
///   off. Any failure changes nothing: the next reading decides again.
pub open spec fn transition(state: ControllerView, event: EventView, now: u64) -> (
    ControllerView,
    ReactionView,
) {
    match event {
        EventView::Credit(credit) => match state {
            ControllerView::Idle | ControllerView::Done => (
                ControllerView::Starting { credit },
                ReactionView {
                    entry: Some(progress(credit, now, credit.watt_hours)),
                    command: None,
                    returned: None,
                },
            ),
            _ => (state, ReactionView { entry: None, command: None, returned: Some(credit) }),
        },
        EventView::Meter(total) => match state {
            ControllerView::Starting { credit } => (
                ControllerView::Delivering {
                    credit,
                    end_target: total + credit.watt_hours,
                    stopping: false,
                },
                ReactionView { entry: None, command: Some(Command::On), returned: None },
            ),
            ControllerView::Delivering { credit, end_target, stopping } => (
                ControllerView::Delivering { credit, end_target, stopping: total >= end_target },
                ReactionView {
                    entry: Some(progress(credit, now, clamp(end_target - total))),
                    command: Some(
                        if total < end_target {
                            Command::On
                        } else {
                            Command::Off
                        },
                    ),
                    returned: None,
                },
            ),
            _ => (state, nothing()),
        },
        EventView::MeterFailed => (state, nothing()),
        EventView::Switched { command, ok } => match state {
            ControllerView::Delivering { credit, end_target, stopping } => if stopping && ok
                && command == Command::Off {
                (ControllerView::Done, nothing())
            } else {
                (state, nothing())
            },
            _ => (state, nothing()),
        },
    }
}

/// What is still owed when the meter stands at `total` and the target is
/// `end_target`, kept within 64 bits.
fn remaining_at(end_target: i128, total: i64) -> (remaining: i64)
    ensures
        remaining as int == clamp(end_target - total),
{
    if end_target > 18_446_744_073_709_551_616i128 {
        i64::MAX
    } else if end_target < -18_446_744_073_709_551_616i128 {
        i64::MIN
    } else {
        let owed: i128 = end_target - total as i128;
        if owed > 9_223_372_036_854_775_807i128 {
            i64::MAX
        } else if owed < -9_223_372_036_854_775_808i128 {
            i64::MIN
        } else {
            owed as i64
        }
    }
}

impl Controller {
    /// A controller that waits for its first credit.
    pub fn new() -> (controller: Self)
        ensures
            controller@ == ControllerView::Idle,
    {
        Controller::Idle
    }

    /// Where the controller stands.
    pub fn phase(&self) -> (phase: Phase)
        ensures
            phase == match self@ {
                ControllerView::Idle => Phase::Idle,
                ControllerView::Starting { .. } => Phase::Starting,
                ControllerView::Delivering { .. } => Phase::Delivering,
                ControllerView::Done => Phase::Done,
            },
    {
        match self {
            Controller::Idle => Phase::Idle,
            Controller::Starting { .. } => Phase::Starting,
            Controller::Delivering { .. } => Phase::Delivering,
            Controller::Done => Phase::Done,
        }
    }

    /// Whether a delivery is under way, so that the meter has to be
    /// polled and a new credit would be handed back.
    pub fn is_busy(&self) -> (busy: bool)
        ensures
            busy == (self@ is Starting || self@ is Delivering),
    {
        match self {
            Controller::Starting { .. } => true,
            Controller::Delivering { .. } => true,
            _ => false,
        }
    }

    /// Takes one step of the state machine, as [`transition`] says.
    pub fn step(self, event: Event, now: u64) -> (r: (Controller, Reaction))
        ensures
            (r.0@, r.1@) == transition(self@, event@, now),
    {
        match event {
            Event::Credit(credit) => match self {
                Controller::Idle | Controller::Done => {
                    let entry = JournalEntry {
                        address: credit.address.clone(),
                        txid: credit.txid.clone(),
                        time: now,
                        remaining_watt_hours: credit.watt_hours,
                    };
                    (
                        Controller::Starting { credit },
                        Reaction { entry: Some(entry), command: None, returned: None },
                    )
                },
                _ => (self, Reaction { entry: None, command: None, returned: Some(credit) }),
            },
            Event::Meter(total) => match self {
                Controller::Starting { credit } => {
                    let end_target: i128 = total as i128 + credit.watt_hours as i128;
                    (
                        Controller::Delivering { credit, end_target, stopping: false },
                        Reaction { entry: None, command: Some(Command::On), returned: None },
                    )
                },
                Controller::Delivering { credit, end_target, stopping } => {
                    let entry = JournalEntry {
                        address: credit.address.clone(),
                        txid: credit.txid.clone(),
                        time: now,
                        remaining_watt_hours: remaining_at(end_target, total),
                    };
                    let reached = total as i128 >= end_target;
                    let command = if reached {
                        Command::Off
                    } else {
                        Command::On
                    };
                    (
                        Controller::Delivering { credit, end_target, stopping: reached },
                        Reaction { entry: Some(entry), command: Some(command), returned: None },
                    )
                },
                _ => (self, Reaction { entry: None, command: None, returned: None }),
            },
            Event::MeterFailed => (self, Reaction { entry: None, command: None, returned: None }),
            Event::Switched { command, ok } => match self {
                Controller::Delivering { credit, end_target, stopping } => {
                    if stopping && ok && command == Command::Off {
                        (Controller::Done, Reaction { entry: None, command: None, returned: None })
                    } else {
                        (
                            Controller::Delivering { credit, end_target, stopping },
                            Reaction { entry: None, command: None, returned: None },
                        )
                    }
                },
                _ => (self, Reaction { entry: None, command: None, returned: None }),
            },
        }
    }
}

/// What a controller does with a list of events, one after the other,
/// each with the time at which it is reported: the state it ends in and
/// its reaction to each event.
pub open spec fn run(state: ControllerView, events: Seq<(EventView, u64)>) -> (
    ControllerView,
    Seq<ReactionView>,
)
    decreases events.len(),
{
    if events.len() == 0 {
        (state, Seq::empty())
    } else {
        let (middle, earlier) = run(state, events.drop_last());
        let (next, reaction) = transition(middle, events.last().0, events.last().1);
        (next, earlier.push(reaction))
    }
}

/// The energy still owed that a list of reactions asks to record, in
/// order.
pub open spec fn persisted(reactions: Seq<ReactionView>) -> Seq<int>
    decreases reactions.len(),
{
    if reactions.len() == 0 {
        Seq::empty()
    } else {
        let earlier = persisted(reactions.drop_last());
        match reactions.last().entry {
            Some(entry) => earlier.push(entry.remaining_watt_hours),
            None => earlier,
        }
    }
}

/// The commands that a list of reactions asks to send, in order.
pub open spec fn commands(reactions: Seq<ReactionView>) -> Seq<Command>
    decreases reactions.len(),
{
    if reactions.len() == 0 {
        Seq::empty()
    } else {
        let earlier = commands(reactions.drop_last());
        match reactions.last().command {
            Some(command) => earlier.push(command),
            None => earlier,
        }
    }
}

/// The readings of the meter that a list of events reports, in order.
pub open spec fn readings(events: Seq<(EventView, u64)>) -> Seq<int>
    decreases events.len(),
{
    if events.len() == 0 {
        Seq::empty()
    } else {
        let earlier = readings(events.drop_last());
        match events.last().0 {
            EventView::Meter(total) => earlier.push(total as int),
            _ => earlier,
        }
    }
}

/// Whether no event of the list offers a credit.
pub open spec fn no_credit(events: Seq<(EventView, u64)>) -> bool {
    forall|i: int| 0 <= i < events.len() ==> !((#[trigger] events[i]).0 is Credit)
}

/// Whether no number of the list is larger than one before it.
pub open spec fn non_increasing(s: Seq<int>) -> bool {
    forall|i: int, j: int| 0 <= i <= j < s.len() ==> s[i] >= s[j]
}

/// Whether no number of the list is smaller than one before it.
pub open spec fn non_decreasing(s: Seq<int>) -> bool {
    forall|i: int, j: int| 0 <= i <= j < s.len() ==> s[i] <= s[j]
}

/// What holds of a delivery at any moment: the target is the first
/// reading plus the credit, and what was recorded last is what the last
/// reading leaves owed.
spec fn session_holds(
    credit: PaymentView,
    state: ControllerView,
    owed: Seq<int>,
    meter: Seq<int>,
) -> bool {
    &&& non_increasing(owed)
    &&& owed.len() > 0 ==> owed[0] <= credit.watt_hours
    &&& match state {
        ControllerView::Idle => false,
        ControllerView::Starting { credit: current } => {
            &&& current == credit
            &&& meter.len() == 0
            &&& owed.len() == 0
        },
        ControllerView::Delivering { credit: current, end_target, stopping } => {
            &&& current == credit
            &&& meter.len() >= 1
            &&& end_target == meter[0] + credit.watt_hours
            &&& owed.len() > 0 ==> owed.last() == clamp(end_target - meter.last())
        },
        ControllerView::Done => true,
    }
}

proof fn lemma_session(credit: PaymentView, events: Seq<(EventView, u64)>)
    requires
        i64::MIN <= credit.watt_hours <= i64::MAX,
        no_credit(events),
        non_decreasing(readings(events)),
    ensures
        session_holds(
            credit,
            run(ControllerView::Starting { credit }, events).0,
            persisted(run(ControllerView::Starting { credit }, events).1),
            readings(events),
        ),
    decreases events.len(),
{
    let start = ControllerView::Starting { credit };
    if events.len() > 0 {
        let before = events.drop_last();
        let (event, now) = events.last();
        let meter_before = readings(before);
        let meter = readings(events);
        assert(no_credit(before)) by {
            assert forall|i: int| 0 <= i < before.len() implies !((#[trigger] before[i]).0
                is Credit) by {
                assert(before[i] == events[i]);
            }
        }
        assert(non_decreasing(meter_before)) by {
            assert forall|i: int, j: int| 0 <= i <= j < meter_before.len() implies meter_before[i]
                <= meter_before[j] by {
                assert(meter[i] == meter_before[i]);
                assert(meter[j] == meter_before[j]);
            }
        }
        lemma_session(credit, before);
        let (middle, earlier) = run(start, before);
        let owed_before = persisted(earlier);
        let (next, reaction) = transition(middle, event, now);
        assert(earlier.push(reaction).drop_last() =~= earlier);
        let owed = persisted(earlier.push(reaction));
        assert(!(events[events.len() - 1].0 is Credit));
        match event {
            EventView::Meter(total) => {
                assert(meter == meter_before.push(total as int));
                match middle {
                    ControllerView::Delivering { credit: current, end_target, stopping } => {
                        let left = clamp(end_target - total);
                        assert(owed == owed_before.push(left));
                        assert(meter[0] == meter_before[0]);
                        assert(meter[meter_before.len() - 1] <= meter[meter.len() - 1]);
                        assert(meter[0] <= meter[meter.len() - 1]);
                        assert(left <= credit.watt_hours);
                        if owed_before.len() > 0 {
                            assert(left <= owed_before.last());
                            assert(owed[0] == owed_before[0]);
                        }
                        assert forall|i: int, j: int| 0 <= i <= j < owed.len() implies owed[i]
                            >= owed[j] by {
                            if j < owed_before.len() {
                                assert(owed[i] == owed_before[i] && owed[j] == owed_before[j]);
                            } else if i < owed_before.len() {
                                assert(owed[i] == owed_before[i]);
                                assert(owed_before[i] >= owed_before[owed_before.len() - 1]);
                            }
                        }
                    },
                    _ => {},
                }
            },
            _ => {},
        }
    }
}

/// What is still owed never rises. In one delivery, the energy still owed
/// that is recorded when the credit is taken on, followed by what is
/// recorded at each reading of the meter, never goes up as long as the
/// readings never go down, whatever fails in between.
pub proof fn law_remaining_never_rises(credit: PaymentView, events: Seq<(EventView, u64)>)
    requires
        i64::MIN <= credit.watt_hours <= i64::MAX,
        no_credit(events),
        non_decreasing(readings(events)),
    ensures
        non_increasing(
            seq![credit.watt_hours] + persisted(
                run(ControllerView::Starting { credit }, events).1,
            ),
        ),
{
    lemma_session(credit, events);
    let owed = persisted(run(ControllerView::Starting { credit }, events).1);
    let all = seq![credit.watt_hours] + owed;
    assert forall|i: int, j: int| 0 <= i <= j < all.len() implies all[i] >= all[j] by {
        if i == 0 && j > 0 {
            assert(all[j] == owed[j - 1]);
            assert(owed[0] >= owed[j - 1]);
        } else if i > 0 {
            assert(all[i] == owed[i - 1] && all[j] == owed[j - 1]);
        }
    }
}

/// Running one list of events and then another is running the two as
/// one list.
pub proof fn lemma_run_concat(
    state: ControllerView,
    first: Seq<(EventView, u64)>,
    second: Seq<(EventView, u64)>,
)
    ensures
        run(state, first + second) == (
            run(run(state, first).0, second).0,
            run(state, first).1 + run(run(state, first).0, second).1,
        ),
    decreases second.len(),
{
    let middle = run(state, first).0;
    if second.len() == 0 {
        assert(first + second =~= first);
        assert(run(state, first).1 + run(middle, second).1 =~= run(state, first).1);
    } else {
        lemma_run_concat(state, first, second.drop_last());
        assert((first + second).drop_last() =~= first + second.drop_last());
        assert((first + second).last() == second.last());
        let (before, earlier) = run(middle, second.drop_last());
        let (next, reaction) = transition(before, second.last().0, second.last().1);
        assert(run(state, first).1 + earlier.push(reaction) =~= (run(state, first).1
            + earlier).push(reaction));
    }
}

/// The commands of two lists of reactions, one after the other, are the
/// commands of the first followed by those of the second.
pub proof fn lemma_commands_concat(first: Seq<ReactionView>, second: Seq<ReactionView>)
    ensures
        commands(first + second) == commands(first) + commands(second),
    decreases second.len(),
{
    if second.len() == 0 {
        assert(first + second =~= first);
        assert(commands(first) + commands(second) =~= commands(first));
    } else {
        lemma_commands_concat(first, second.drop_last());
        assert((first + second).drop_last() =~= first + second.drop_last());
        assert((first + second).last() == second.last());
        match second.last().command {
            Some(command) => {
                assert(commands(first) + commands(second.drop_last()).push(command) =~= (commands(
                    first,
                ) + commands(second.drop_last())).push(command));
            },
            None => {},
        }
    }
}

/// Whether every reading of the meter that `events` reports is below
/// `end_target`.
pub open spec fn readings_below(events: Seq<(EventView, u64)>, end_target: int) -> bool {
    forall|i: int|
        0 <= i < events.len() ==> ((#[trigger] events[i]).0 matches EventView::Meter(total)
            ==> total < end_target)
}

/// Below the target the switch stays on: as long as no credit is offered
/// and every reading is below the target, the delivery stays under way,
/// and each reading is answered with the command to turn on, whatever
/// else is reported in between.
proof fn lemma_stays_on_below_target(
    credit: PaymentView,
    end_target: int,
    events: Seq<(EventView, u64)>,
)
    requires
        no_credit(events),
        readings_below(events, end_target),
    ensures
        run(ControllerView::Delivering { credit, end_target, stopping: false }, events).0 == (
            ControllerView::Delivering { credit, end_target, stopping: false }
        ),
        commands(
            run(ControllerView::Delivering { credit, end_target, stopping: false }, events).1,
        ) == Seq::new(readings(events).len(), |i: int| Command::On),
    decreases events.len(),
{
    let start = ControllerView::Delivering { credit, end_target, stopping: false };
    if events.len() == 0 {
        assert(commands(run(start, events).1) =~= Seq::new(0, |i: int| Command::On));
    } else {
        let before = events.drop_last();
        assert(no_credit(before) && readings_below(before, end_target)) by {
            assert forall|i: int| 0 <= i < before.len() implies !((#[trigger] before[i]).0
                is Credit) && (before[i].0 matches EventView::Meter(total) ==> total
                < end_target) by {
                assert(before[i] == events[i]);
            }
        }
        lemma_stays_on_below_target(credit, end_target, before);
        let last = events[events.len() - 1];
        assert(!(last.0 is Credit));
        assert(last.0 matches EventView::Meter(total) ==> total < end_target);
        let (middle, earlier) = run(start, before);
        let (next, reaction) = transition(middle, events.last().0, events.last().1);
        assert(earlier.push(reaction).drop_last() =~= earlier);
        match last.0 {
            EventView::Meter(total) => {
                assert(commands(earlier).push(Command::On) =~= Seq::new(
                    readings(events).len(),
                    |i: int| Command::On,
                ));
            },
            _ => {},
        }
    }
}

/// Without a credit there is nothing to do. A controller that is idle, or
/// done with its last delivery, stays as it is and asks for no command
/// and no journal entry, whatever it is told, until a credit is offered.
pub proof fn law_no_commands_without_credit(state: ControllerView, events: Seq<(EventView, u64)>)
    requires
        state is Idle || state is Done,
        no_credit(events),
    ensures
        run(state, events).0 == state,
        commands(run(state, events).1) == Seq::<Command>::empty(),
        persisted(run(state, events).1) == Seq::<int>::empty(),
    decreases events.len(),
{
    if events.len() > 0 {
        let before = events.drop_last();
        assert forall|i: int| 0 <= i < before.len() implies !((#[trigger] before[i]).0
            is Credit) by {
            assert(before[i] == events[i]);
        }
        law_no_commands_without_credit(state, before);
        assert(!(events[events.len() - 1].0 is Credit));
        let (middle, earlier) = run(state, before);
        let (next, reaction) = transition(middle, events.last().0, events.last().1);
        assert(earlier.push(reaction).drop_last() =~= earlier);
    }
}

/// A delivery ends with one command to turn off. A controller that has
/// taken on a credit and then sees the meter at `first`, then at readings
/// below `first` plus the credit, and at last at a reading that has
/// reached it, answers every reading up to there with the command to turn
/// on and that last reading with the command to turn off, whatever else
/// is reported in between: the switch taking or refusing a command, or a
/// reading that failed. Once the switch has taken the command to turn off
/// the delivery is done, and nothing that follows makes the controller
/// send another command until a credit is offered.
pub proof fn law_delivery_completes(
    credit: PaymentView,
    first: i64,
    during: Seq<(EventView, u64)>,
    reached: i64,
    after: Seq<(EventView, u64)>,
    now: u64,
)
    requires
        no_credit(during),
        readings_below(during, first + credit.watt_hours),
        reached >= first + credit.watt_hours,
        no_credit(after),
    ensures
        run(
            ControllerView::Starting { credit },
            seq![(EventView::Meter(first), now)] + during + seq![
                (EventView::Meter(reached), now),
                (EventView::Switched { command: Command::Off, ok: true }, now),
            ] + after,
        ).0 is Done,
        commands(
            run(
                ControllerView::Starting { credit },
                seq![(EventView::Meter(first), now)] + during + seq![
                    (EventView::Meter(reached), now),
                    (EventView::Switched { command: Command::Off, ok: true }, now),
                ] + after,
            ).1,
        ) == Seq::new(readings(during).len() + 1, |i: int| Command::On).push(Command::Off),
{
    let end_target = first + credit.watt_hours;
    let s0 = ControllerView::Starting { credit };
    let s1 = ControllerView::Delivering { credit, end_target, stopping: false };
    let head = seq![(EventView::Meter(first), now)];
    let tail = seq![
        (EventView::Meter(reached), now),
        (EventView::Switched { command: Command::Off, ok: true }, now),
    ];
    // The first reading fixes the target and turns the switch on.
    assert(head.drop_last() =~= Seq::<(EventView, u64)>::empty());
    assert(run(s0, head.drop_last()) == (s0, Seq::<ReactionView>::empty()));
    let r_head = run(s0, head).1;
    assert(run(s0, head).0 == s1);
    assert(r_head.drop_last() =~= Seq::<ReactionView>::empty());
    assert(commands(r_head.drop_last()) =~= Seq::<Command>::empty());
    assert(commands(r_head) =~= seq![Command::On]);
    // The readings below the target keep it on.
    lemma_stays_on_below_target(credit, end_target, during);
    let r_during = run(s1, during).1;
    // The reading at the target turns it off, and the switch takes it.
    let one = seq![(EventView::Meter(reached), now)];
    assert(tail.drop_last() =~= one);
    assert(one.drop_last() =~= Seq::<(EventView, u64)>::empty());
    assert(run(s1, one.drop_last()) == (s1, Seq::<ReactionView>::empty()));
    let s2 = ControllerView::Delivering { credit, end_target, stopping: true };
    assert(run(s1, one).0 == s2);
    assert(run(s1, tail).0 is Done);
    let r_tail = run(s1, tail).1;
    let r_one = run(s1, one).1;
    assert(r_tail.drop_last() =~= r_one);
    assert(r_one.drop_last() =~= Seq::<ReactionView>::empty());
    assert(commands(r_one.drop_last()) =~= Seq::<Command>::empty());
    assert(commands(r_one) =~= seq![Command::Off]);
    assert(commands(r_tail) =~= seq![Command::Off]);
    // Nothing happens afterwards.
    law_no_commands_without_credit(ControllerView::Done, after);
    let r_after = run(ControllerView::Done, after).1;
    // Put the four parts together.
    lemma_run_concat(s0, head, during);
    lemma_run_concat(s0, head + during, tail);
    lemma_run_concat(s0, head + during + tail, after);
    lemma_commands_concat(r_head, r_during);
    lemma_commands_concat(r_head + r_during, r_tail);
    lemma_commands_concat(r_head + r_during + r_tail, r_after);
    assert(seq![Command::On] + Seq::new(readings(during).len(), |i: int| Command::On) + seq![
        Command::Off,
    ] + Seq::<Command>::empty() =~= Seq::new(
        readings(during).len() + 1,
        |i: int| Command::On,
    ).push(Command::Off));
}

} // verus!
