//! Event sets: what a handle of the bridge stands for.

use vstd::prelude::*;
use vstd::string::*;
use crate::observable::{Observable, ObservableView};

verus! {

/// The copy of an observable that an event set keeps.
struct Registration {
    rd: String,
    key: String,
}

/// The observables registered against one handle, in the order in which they
/// were registered. A registration is never removed, and registering the same
/// observable again records it again.
pub struct EventSet {
    observables: Vec<Registration>,
}

impl View for EventSet {
    type V = Seq<ObservableView>;

    closed spec fn view(&self) -> Seq<ObservableView> {
        Seq::new(
            self.observables@.len(),
            |i: int| (self.observables@[i].rd@, self.observables@[i].key@),
        )
    }
}

impl EventSet {
    /// A set with nothing registered.
    pub fn new() -> (set: EventSet)
        ensures
            set@ == Seq::<ObservableView>::empty(),
    {
        let set = EventSet { observables: Vec::new() };
        assert(set@ =~= Seq::<ObservableView>::empty());
        set
    }

    /// The number of registrations.
    pub fn len(&self) -> (n: usize)
        ensures
            n == self@.len(),
    {
        self.observables.len()
    }

    /// Records a copy of `ob` after the registrations made so far.
    pub fn register(&mut self, ob: &Observable<'_>)
        ensures
            final(self)@ == old(self)@.push(ob@),
    {
        let copy = Registration { rd: ob.rd.to_owned(), key: ob.key.to_owned() };
        self.observables.push(copy);
        assert(self@ =~= old(self)@.push(ob@));
    }

    /// The `index`-th registration, if there are that many.
    pub fn observable(&self, index: usize) -> (found: Option<Observable<'_>>)
        ensures
            match found {
                Some(ob) => index < self@.len() && ob@ == self@[index as int],
                None => index >= self@.len(),
            },
    {
        if index < self.observables.len() {
            let kept = &self.observables[index];
            Some(Observable { rd: kept.rd.as_str(), key: kept.key.as_str() })
        } else {
            None
        }
    }

    /// Whether `ob` has been registered.
    pub fn contains(&self, ob: &Observable<'_>) -> (found: bool)
        ensures
            found == self@.contains(ob@),
    {
        let rd = ob.rd.to_owned();
        let key = ob.key.to_owned();
        let mut i: usize = 0;
        while i < self.observables.len()
            invariant
                i <= self.observables@.len(),
                rd@ == ob.rd@,
                key@ == ob.key@,
                forall|j: int| 0 <= j < i ==> self@[j] != ob@,
            decreases self.observables@.len() - i,
        {
            let kept = &self.observables[i];
            if kept.rd == rd && kept.key == key {
                assert(self@[i as int] == ob@);
                return true;
            }
            i = i + 1;
        }
        false
    }

    /// A set with the same registrations in the same order.
    pub fn duplicate(&self) -> (copy: EventSet)
        ensures
            copy@ == self@,
    {
        let mut observables: Vec<Registration> = Vec::new();
        let mut i: usize = 0;
        while i < self.observables.len()
            invariant
                i <= self.observables@.len(),
                observables@.len() == i,
                forall|j: int|
                    0 <= j < i ==> observables@[j].rd@ == self.observables@[j].rd@
                        && observables@[j].key@ == self.observables@[j].key@,
            decreases self.observables@.len() - i,
        {
            let kept = &self.observables[i];
            observables.push(Registration { rd: kept.rd.clone(), key: kept.key.clone() });
            i = i + 1;
        }
        let copy = EventSet { observables };
        assert(copy@ =~= self@);
        copy
    }
}

} // verus!
