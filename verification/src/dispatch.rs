//! One dispatch: the delivery units that a single `exec` hands to the guest,
//! what each of them came to, and the result of the whole once every unit has
//! completed.
//!
//! The units are run by the host, each on a thread of its own; the dispatch
//! itself only plans them and keeps the record. A unit that traps is recorded
//! like any other and holds no other unit back. The result is an error that
//! names the trapped units if any unit trapped, and success otherwise.
//!
//! The duration that the guest passes is kept and reported, and nothing is
//! done with it: no unit is cancelled or abandoned when it has run out.

use vstd::prelude::*;
use vstd::string::*;
use crate::error::Error;
use crate::invoker::Outcome;
use crate::label::{event_label, label};

verus! {

/// The number of delivery units of every dispatch.
pub const DELIVERY_UNITS: usize = 10;

/// How many of the units have completed.
pub open spec fn completed_count(units: Seq<Option<Outcome>>) -> nat
    decreases units.len(),
{
    if units.len() == 0 {
        0
    } else {
        completed_count(units.drop_last()) + if units.last() is Some {
            1nat
        } else {
            0nat
        }
    }
}

/// Whether a unit has completed with a trap.
pub open spec fn is_trap(slot: Option<Outcome>) -> bool {
    slot matches Some(Outcome::Trapped(_))
}

/// How many of the units have trapped.
pub open spec fn trapped_count(units: Seq<Option<Outcome>>) -> nat
    decreases units.len(),
{
    if units.len() == 0 {
        0
    } else {
        trapped_count(units.drop_last()) + if is_trap(units.last()) {
            1nat
        } else {
            0nat
        }
    }
}

/// What the error's message says of the unit `ordinal`: nothing unless it
/// trapped, and else its label and the trap's message.
pub open spec fn report_line(units: Seq<Option<Outcome>>, ordinal: int) -> Seq<char> {
    match units[ordinal] {
        Some(Outcome::Trapped(message)) => label(ordinal as nat) + ": "@ + message@ + "; "@,
        _ => Seq::<char>::empty(),
    }
}

/// The lines of the first `count` units, in the order of their ordinals.
pub open spec fn report_lines(units: Seq<Option<Outcome>>, count: nat) -> Seq<char>
    decreases count,
{
    if count == 0 {
        Seq::<char>::empty()
    } else {
        report_lines(units, (count - 1) as nat) + report_line(units, count - 1)
    }
}

/// The message of the error that a dispatch with trapped units ends in.
pub open spec fn report(units: Seq<Option<Outcome>>) -> Seq<char> {
    "delivery units trapped: "@ + report_lines(units, units.len())
}

/// The result of a dispatch whose units are all completed.
pub open spec fn verdict(units: Seq<Option<Outcome>>) -> Result<(), Seq<char>> {
    if trapped_count(units) == 0 {
        Ok(())
    } else {
        Err(report(units))
    }
}

/// Every unit has completed exactly if as many have completed as there are
/// units, and never have more completed or trapped than there are.
pub proof fn lemma_counts(units: Seq<Option<Outcome>>)
    ensures
        trapped_count(units) <= completed_count(units) <= units.len(),
        completed_count(units) == units.len() <==> forall|i: int|
            0 <= i < units.len() ==> units[i] is Some,
        trapped_count(units) == 0 <==> forall|i: int|
            0 <= i < units.len() ==> !is_trap(#[trigger] units[i]),
    decreases units.len(),
{
    if units.len() > 0 {
        let front = units.drop_last();
        lemma_counts(front);
        assert forall|i: int| 0 <= i < front.len() implies front[i] == units[i] by {}
        if completed_count(units) == units.len() {
            assert forall|i: int| 0 <= i < units.len() implies units[i] is Some by {
                if i < front.len() {
                    assert(front[i] is Some);
                }
            }
        }
        if forall|i: int| 0 <= i < units.len() ==> units[i] is Some {
            assert forall|i: int| 0 <= i < front.len() implies front[i] is Some by {
                assert(units[i] is Some);
            }
        }
        if trapped_count(units) == 0 {
            assert forall|i: int| 0 <= i < units.len() implies !is_trap(#[trigger] units[i]) by {
                if i < front.len() {
                    assert(!is_trap(front[i]));
                }
            }
        }
        if forall|i: int| 0 <= i < units.len() ==> !is_trap(#[trigger] units[i]) {
            assert forall|i: int| 0 <= i < front.len() implies !is_trap(#[trigger] front[i]) by {
                assert(!is_trap(units[i]));
            }
        }
    }
}

/// Recording the outcome of a unit that was pending completes one unit
/// more, and one trapped unit more if the outcome is a trap.
pub proof fn lemma_record(units: Seq<Option<Outcome>>, ordinal: int, outcome: Outcome)
    requires
        0 <= ordinal < units.len(),
        units[ordinal] is None,
    ensures
        completed_count(units.update(ordinal, Some(outcome))) == completed_count(units) + 1,
        trapped_count(units.update(ordinal, Some(outcome))) == trapped_count(units) + if outcome
            is Trapped {
            1nat
        } else {
            0nat
        },
    decreases units.len(),
{
    let after = units.update(ordinal, Some(outcome));
    if ordinal == units.len() - 1 {
        assert(after.drop_last() =~= units.drop_last());
    } else {
        lemma_record(units.drop_last(), ordinal, outcome);
        assert(after.drop_last() =~= units.drop_last().update(ordinal, Some(outcome)));
    }
}

/// A trap in one unit holds no other unit back: a unit that was pending
/// before the trap was recorded is pending after it, and the dispatch is
/// complete as soon as the others are recorded too, whatever they came to.
pub proof fn lemma_trap_holds_nothing_back(
    units: Seq<Option<Outcome>>,
    trapped: int,
    message: String,
    other: int,
)
    requires
        0 <= trapped < units.len(),
        0 <= other < units.len(),
        trapped != other,
        units[trapped] is None,
    ensures
        units.update(trapped, Some(Outcome::Trapped(message)))[other] == units[other],
        completed_count(units.update(trapped, Some(Outcome::Trapped(message))))
            == completed_count(units) + 1,
{
    lemma_record(units, trapped, Outcome::Trapped(message));
}

/// A dispatch as specifications see it.
pub struct DispatchView {
    /// The event set that is being delivered.
    pub handle: u32,
    /// The duration that the guest passed.
    pub duration: u64,
    /// What each unit came to, by ordinal; `None` while it is pending.
    pub units: Seq<Option<Outcome>>,
}

/// The record of one dispatch.
pub struct Dispatch {
    handle: u32,
    duration: u64,
    slots: Vec<Option<Outcome>>,
}

impl View for Dispatch {
    type V = DispatchView;

    closed spec fn view(&self) -> DispatchView {
        DispatchView { handle: self.handle, duration: self.duration, units: self.slots@ }
    }
}

impl Dispatch {
    /// A dispatch of the event set `handle` with all its units pending.
    pub fn new(handle: u32, duration: u64) -> (dispatch: Dispatch)
        ensures
            dispatch@.handle == handle,
            dispatch@.duration == duration,
            dispatch@.units == Seq::new(DELIVERY_UNITS as nat, |i: int| None::<Outcome>),
    {
        let mut slots: Vec<Option<Outcome>> = Vec::new();
        let mut i: usize = 0;
        while i < DELIVERY_UNITS
            invariant
                i <= DELIVERY_UNITS,
                slots@ == Seq::new(i as nat, |k: int| None::<Outcome>),
            decreases DELIVERY_UNITS - i,
        {
            slots.push(None);
            i = i + 1;
            assert(slots@ =~= Seq::new(i as nat, |k: int| None::<Outcome>));
        }
        Dispatch { handle, duration, slots }
    }

    /// The event set that is being delivered.
    pub fn handle(&self) -> (handle: u32)
        ensures
            handle == self@.handle,
    {
        self.handle
    }

    /// The duration that the guest passed. It is a hint that nothing
    /// enforces.
    pub fn duration(&self) -> (duration: u64)
        ensures
            duration == self@.duration,
    {
        self.duration
    }

    /// The number of delivery units.
    pub fn units(&self) -> (n: usize)
        ensures
            n == self@.units.len(),
    {
        self.slots.len()
    }

    /// The label of the event that the unit `ordinal` delivers, if there is
    /// such a unit.
    pub fn label(&self, ordinal: usize) -> (text: Option<String>)
        ensures
            match text {
                Some(text) => ordinal < self@.units.len() && text@ == label(ordinal as nat),
                None => ordinal >= self@.units.len(),
            },
    {
        if ordinal < self.slots.len() {
            Some(event_label(ordinal))
        } else {
            None
        }
    }

    /// The labels of all units, by ordinal.
    pub fn labels(&self) -> (labels: Vec<String>)
        ensures
            labels@.len() == self@.units.len(),
            forall|i: int| 0 <= i < labels@.len() ==> (#[trigger] labels@[i])@ == label(i as nat),
    {
        let count = self.slots.len();
        let mut labels: Vec<String> = Vec::new();
        let mut i: usize = 0;
        while i < count
            invariant
                i <= count,
                labels@.len() == i,
                forall|k: int| 0 <= k < i ==> (#[trigger] labels@[k])@ == label(k as nat),
            decreases count - i,
        {
            labels.push(event_label(i));
            i = i + 1;
        }
        labels
    }

    /// Records what the unit `ordinal` came to. Returns whether the outcome
    /// was recorded: it is not, and nothing changes, if there is no such
    /// unit or its outcome is recorded already.
    pub fn complete(&mut self, ordinal: usize, outcome: Outcome) -> (recorded: bool)
        ensures
            recorded == (ordinal < old(self)@.units.len() && old(self)@.units[ordinal as int]
                is None),
            final(self)@.handle == old(self)@.handle,
            final(self)@.duration == old(self)@.duration,
            final(self)@.units == if recorded {
                old(self)@.units.update(ordinal as int, Some(outcome))
            } else {
                old(self)@.units
            },
    {
        if ordinal >= self.slots.len() {
            return false;
        }
        let pending = match &self.slots[ordinal] {
            Some(_) => false,
            None => true,
        };
        if !pending {
            return false;
        }
        self.slots.set(ordinal, Some(outcome));
        true
    }

    /// How many units have completed.
    pub fn completed(&self) -> (n: usize)
        ensures
            n == completed_count(self@.units),
    {
        let mut n: usize = 0;
        let mut i: usize = 0;
        while i < self.slots.len()
            invariant
                i <= self.slots@.len(),
                n == completed_count(self.slots@.subrange(0, i as int)),
                n <= i,
            decreases self.slots@.len() - i,
        {
            proof {
                assert(self.slots@.subrange(0, i + 1).drop_last() =~= self.slots@.subrange(
                    0,
                    i as int,
                ));
            }
            match &self.slots[i] {
                Some(_) => {
                    n = n + 1;
                },
                None => {},
            }
            i = i + 1;
        }
        proof {
            assert(self.slots@.subrange(0, self.slots@.len() as int) =~= self.slots@);
        }
        n
    }

    /// Whether every unit has completed.
    pub fn is_finished(&self) -> (finished: bool)
        ensures
            finished == (completed_count(self@.units) == self@.units.len()),
            finished == (forall|i: int| 0 <= i < self@.units.len() ==> self@.units[i] is Some),
    {
        proof {
            lemma_counts(self.slots@);
        }
        self.completed() == self.slots.len()
    }

    /// The message that names the trapped units.
    fn describe(&self) -> (text: String)
        ensures
            text@ == report(self@.units),
    {
        let mut text = String::from_str("delivery units trapped: ");
        let count = self.slots.len();
        let mut i: usize = 0;
        while i < count
            invariant
                i <= count,
                count == self.slots@.len(),
                text@ == "delivery units trapped: "@ + report_lines(self.slots@, i as nat),
            decreases count - i,
        {
            let ghost before = text@;
            match &self.slots[i] {
                Some(Outcome::Trapped(message)) => {
                    let name = event_label(i);
                    text.append(name.as_str());
                    text.append(": ");
                    text.append(message.as_str());
                    text.append("; ");
                    assert(text@ =~= before + report_line(self.slots@, i as int));
                },
                _ => {
                    assert(text@ =~= before + report_line(self.slots@, i as int));
                },
            }
            i = i + 1;
            assert(text@ =~= "delivery units trapped: "@ + report_lines(self.slots@, i as nat));
        }
        text
    }

    /// The result of the dispatch, once every unit has completed, and
    /// `None` before that: success if no unit trapped, and else an error
    /// whose message names each trapped unit with the message of its trap.
    pub fn conclude(&self) -> (result: Option<Result<(), Error>>)
        ensures
            result is Some <==> completed_count(self@.units) == self@.units.len(),
            match result {
                Some(Ok(_)) => verdict(self@.units) is Ok,
                Some(Err(error)) => verdict(self@.units) == Err::<(), Seq<char>>(error@),
                None => true,
            },
    {
        if !self.is_finished() {
            return None;
        }
        let mut trapped = false;
        let mut i: usize = 0;
        while i < self.slots.len()
            invariant
                i <= self.slots@.len(),
                trapped == (trapped_count(self.slots@.subrange(0, i as int)) > 0),
            decreases self.slots@.len() - i,
        {
            proof {
                assert(self.slots@.subrange(0, i + 1).drop_last() =~= self.slots@.subrange(
                    0,
                    i as int,
                ));
            }
            match &self.slots[i] {
                Some(outcome) => {
                    if outcome.is_trap() {
                        trapped = true;
                    }
                },
                None => {},
            }
            i = i + 1;
        }
        proof {
            assert(self.slots@.subrange(0, self.slots@.len() as int) =~= self.slots@);
        }
        if trapped {
            Some(Err(Error::ErrorWithDescription(self.describe())))
        } else {
            Some(Ok(()))
        }
    }
}

} // verus!
