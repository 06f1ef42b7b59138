//! The guard of the guest's execution context. Whoever calls into the guest
//! enters first and leaves afterwards; while one caller is inside, no other
//! gets in. The host keeps the guard beside the guest's state, under one
//! lock, so the guard records what the lock enforces.

use vstd::prelude::*;

verus! {

/// What one call of the guest's handler came to.
pub enum Outcome {
    /// The handler returned this text.
    Handled(String),
    /// The guest trapped; this is the trap's message.
    Trapped(String),
}

impl Outcome {
    /// Whether the guest trapped.
    pub fn is_trap(&self) -> (trapped: bool)
        ensures
            trapped == (*self is Trapped),
    {
        match self {
            Outcome::Handled(_) => false,
            Outcome::Trapped(_) => true,
        }
    }
}

/// One step that a caller of the guest tries to take.
pub enum Step {
    Enter,
    /// Leaving, after a call that trapped or did not.
    Leave { trapped: bool },
}

/// The guard as specifications see it.
pub struct InvokerView {
    /// Whether a caller is inside the guest.
    pub busy: bool,
    /// How many calls have been completed.
    pub completed: nat,
    /// How many of those trapped.
    pub trapped: nat,
}

impl InvokerView {
    /// The guard before any call.
    pub open spec fn idle() -> InvokerView {
        InvokerView { busy: false, completed: 0, trapped: 0 }
    }

    /// How many callers are inside the guest.
    pub open spec fn inside(self) -> nat {
        if self.busy {
            1
        } else {
            0
        }
    }

    /// Whether the guard lets `step` happen.
    pub open spec fn admits(self, step: Step) -> bool {
        match step {
            Step::Enter => !self.busy,
            Step::Leave { .. } => self.busy,
        }
    }

    /// The guard after a caller tried `step`: a step that is not admitted
    /// changes nothing.
    pub open spec fn after(self, step: Step) -> InvokerView {
        if !self.admits(step) {
            self
        } else {
            match step {
                Step::Enter => InvokerView { busy: true, ..self },
                Step::Leave { trapped } => InvokerView {
                    busy: false,
                    completed: self.completed + 1,
                    trapped: if trapped {
                        self.trapped + 1
                    } else {
                        self.trapped
                    },
                },
            }
        }
    }

    /// The guard after the callers tried `steps` in order.
    pub open spec fn after_all(self, steps: Seq<Step>) -> InvokerView
        decreases steps.len(),
    {
        if steps.len() == 0 {
            self
        } else {
            self.after_all(steps.drop_last()).after(steps.last())
        }
    }

    /// How many of the first callers' steps were admitted entries.
    pub open spec fn entries(self, steps: Seq<Step>) -> nat
        decreases steps.len(),
    {
        if steps.len() == 0 {
            0
        } else {
            let before = self.after_all(steps.drop_last());
            self.entries(steps.drop_last()) + if steps.last() is Enter && before.admits(
                steps.last(),
            ) {
                1nat
            } else {
                0nat
            }
        }
    }
}

/// Whatever the callers try and in whatever order, at most one of them is
/// inside the guest at any time: every admitted entry but the one that may
/// still be inside has been followed by its leave.
pub proof fn lemma_one_at_a_time(start: InvokerView, steps: Seq<Step>)
    ensures
        start.after_all(steps).inside() <= 1,
        start.after_all(steps).completed + start.after_all(steps).inside() == start.completed
            + start.inside() + start.entries(steps),
        start.after_all(steps).trapped - start.trapped <= start.after_all(steps).completed
            - start.completed,
        start.after_all(steps).trapped >= start.trapped,
    decreases steps.len(),
{
    if steps.len() > 0 {
        lemma_one_at_a_time(start, steps.drop_last());
    }
}

/// A trap does not shut the guest: after a call that trapped has left, the
/// next caller is admitted.
pub proof fn lemma_trap_leaves_guest_open(guard: InvokerView)
    requires
        guard.busy,
    ensures
        guard.after(Step::Leave { trapped: true }).admits(Step::Enter),
        guard.after(Step::Leave { trapped: true }).after(Step::Enter).busy,
{
}

/// The guard of one guest context.
pub struct Invoker {
    busy: bool,
    completed: u64,
    trapped: u64,
}

impl View for Invoker {
    type V = InvokerView;

    closed spec fn view(&self) -> InvokerView {
        InvokerView {
            busy: self.busy,
            completed: self.completed as nat,
            trapped: self.trapped as nat,
        }
    }
}

impl Invoker {
    /// No more calls trapped than were completed.
    #[verifier::type_invariant]
    spec fn counted(self) -> bool {
        self.trapped <= self.completed
    }

    /// A guard with nobody inside and no call made.
    pub fn new() -> (guard: Invoker)
        ensures
            guard@ == InvokerView::idle(),
    {
        Invoker { busy: false, completed: 0, trapped: 0 }
    }

    /// Whether a caller is inside the guest.
    pub fn is_busy(&self) -> (busy: bool)
        ensures
            busy == self@.busy,
    {
        self.busy
    }

    /// How many calls have been completed.
    pub fn completed(&self) -> (n: u64)
        ensures
            n == self@.completed,
    {
        self.completed
    }

    /// How many of the completed calls trapped.
    pub fn trapped(&self) -> (n: u64)
        ensures
            n == self@.trapped,
    {
        self.trapped
    }

    /// Tries to enter the guest. Returns whether the caller is now inside;
    /// it is not, and nothing changes, if another caller is.
    pub fn enter(&mut self) -> (entered: bool)
        ensures
            entered == old(self)@.admits(Step::Enter),
            final(self)@ == old(self)@.after(Step::Enter),
    {
        proof {
            use_type_invariant(&*self);
        }
        if self.busy {
            false
        } else {
            self.busy = true;
            true
        }
    }

    /// Leaves the guest after a call that came to `result`: the handler's
    /// text, or the message of the guest's trap. Returns the outcome of the
    /// call, or `None`, with nothing changed, if no caller was inside.
    pub fn leave(&mut self, result: Result<String, String>) -> (outcome: Option<Outcome>)
        requires
            old(self)@.completed < u64::MAX,
        ensures
            final(self)@ == old(self)@.after(Step::Leave { trapped: result is Err }),
            match outcome {
                Some(Outcome::Handled(text)) => old(self)@.busy && result == Ok::<String, String>(
                    text,
                ),
                Some(Outcome::Trapped(message)) => old(self)@.busy && result == Err::<
                    String,
                    String,
                >(message),
                None => !old(self)@.busy,
            },
    {
        proof {
            use_type_invariant(&*self);
        }
        if !self.busy {
            return None;
        }
        self.busy = false;
        self.completed = self.completed + 1;
        match result {
            Ok(text) => Some(Outcome::Handled(text)),
            Err(message) => {
                self.trapped = self.trapped + 1;
                Some(Outcome::Trapped(message))
            },
        }
    }
}

} // verus!
