//! The bridge as specifications see it: which handles are live, what is
//! registered against each, and which handle is issued next. Every operation
//! of the host is stated as a step of this model, and what holds of all
//! sequences of operations is proved here.

use vstd::prelude::*;
use crate::observable::ObservableView;
use crate::table::MAX_HANDLES;

verus! {

/// The state of the bridge.
pub struct BridgeView {
    /// The observables in scope for each live handle, in the order in which
    /// they were registered.
    pub sets: Map<u32, Seq<ObservableView>>,
    /// The dropped handles that wait to be issued again, the next one first.
    pub free: Seq<u32>,
    /// The number of handles ever in use at once: the live and the free
    /// handles are exactly the numbers below it.
    pub slots: nat,
}

impl BridgeView {
    /// The bridge before any operation.
    pub open spec fn empty() -> BridgeView {
        BridgeView { sets: Map::empty(), free: Seq::empty(), slots: 0 }
    }

    /// What holds of every state that the operations reach.
    pub open spec fn wf(self) -> bool {
        &&& self.slots <= MAX_HANDLES
        &&& self.free.no_duplicates()
        &&& forall|h: u32|
            (#[trigger] self.sets.contains_key(h) || self.free.contains(h)) <==> h < self.slots
        &&& forall|h: u32| !(#[trigger] self.sets.contains_key(h) && self.free.contains(h))
    }

    /// The handle that is issued next: the one dropped last, or a new one
    /// when none waits.
    pub open spec fn next_handle(self) -> u32 {
        if self.free.len() > 0 {
            self.free[0]
        } else {
            self.slots as u32
        }
    }

    /// Whether no handle can be issued.
    pub open spec fn full(self) -> bool {
        self.free.len() == 0 && self.slots >= MAX_HANDLES
    }

    /// The state after the next handle was issued for `set`.
    pub open spec fn issue(self, set: Seq<ObservableView>) -> BridgeView {
        BridgeView {
            sets: self.sets.insert(self.next_handle(), set),
            free: if self.free.len() > 0 {
                self.free.drop_first()
            } else {
                self.free
            },
            slots: if self.free.len() > 0 {
                self.slots
            } else {
                self.slots + 1
            },
        }
    }

    /// The state after `ob` was registered against `handle`.
    pub open spec fn register(self, handle: u32, ob: ObservableView) -> BridgeView {
        BridgeView { sets: self.sets.insert(handle, self.sets[handle].push(ob)), ..self }
    }

    /// The state after `handle` was given back.
    pub open spec fn release(self, handle: u32) -> BridgeView {
        BridgeView {
            sets: self.sets.remove(handle),
            free: seq![handle] + self.free,
            slots: self.slots,
        }
    }

    /// The state after `get`: a handle is issued for an empty event set,
    /// unless none can be issued.
    pub open spec fn after_get(self) -> BridgeView {
        if self.full() {
            self
        } else {
            self.issue(Seq::empty())
        }
    }

    /// Whether `listen` on `handle` registers anything: the handle is live
    /// and a handle can be issued for the result.
    pub open spec fn listens(self, handle: u32) -> bool {
        self.sets.contains_key(handle) && !self.full()
    }

    /// The state after `listen`: `ob` is registered against `handle`, and
    /// the next handle is issued for a copy of the event set as it then is.
    pub open spec fn after_listen(self, handle: u32, ob: ObservableView) -> BridgeView {
        if self.listens(handle) {
            self.register(handle, ob).issue(self.sets[handle].push(ob))
        } else {
            self
        }
    }

    /// The state after `drop`: a live handle is given back.
    pub open spec fn after_drop(self, handle: u32) -> BridgeView {
        if self.sets.contains_key(handle) {
            self.release(handle)
        } else {
            self
        }
    }

    /// The state and the handle in hand after `listen` was called once for
    /// each of `obs`, every call on the handle that the last successful
    /// operation returned, starting with `handle`.
    pub open spec fn listen_chain(self, handle: u32, obs: Seq<ObservableView>) -> (BridgeView, u32)
        decreases obs.len(),
    {
        if obs.len() == 0 {
            (self, handle)
        } else {
            let (state, last) = self.listen_chain(handle, obs.drop_last());
            if state.listens(last) {
                (state.after_listen(last, obs.last()), state.next_handle())
            } else {
                (state, last)
            }
        }
    }
}

/// Issuing a handle keeps the state well-formed, and the handle issued was
/// not live before and is live after.
pub proof fn lemma_issue(state: BridgeView, set: Seq<ObservableView>)
    requires
        state.wf(),
        !state.full(),
    ensures
        state.issue(set).wf(),
        !state.sets.contains_key(state.next_handle()),
        state.issue(set).sets.contains_key(state.next_handle()),
        forall|h: u32| state.sets.contains_key(h) ==> state.issue(set).sets.contains_key(h),
{
    let after = state.issue(set);
    let next = state.next_handle();
    if state.free.len() > 0 {
        assert(state.free.contains(next));
        assert(state.sets.contains_key(next) || state.free.contains(next));
        assert(after.free.no_duplicates());
        assert forall|h: u32| after.free.contains(h) <==> (state.free.contains(h) && h != next) by {
            if after.free.contains(h) {
                let i = choose|i: int| 0 <= i < after.free.len() && after.free[i] == h;
                assert(state.free[i + 1] == h);
            }
            if state.free.contains(h) && h != next {
                let i = choose|i: int| 0 <= i < state.free.len() && state.free[i] == h;
                assert(after.free[i - 1] == h);
            }
        }
        assert forall|h: u32|
            (#[trigger] after.sets.contains_key(h) || after.free.contains(h)) <==> h
                < after.slots by {
            assert(state.sets.contains_key(h) || state.free.contains(h) <==> h < state.slots);
        }
        assert forall|h: u32| !(#[trigger] after.sets.contains_key(h) && after.free.contains(
            h,
        )) by {
            assert(!(state.sets.contains_key(h) && state.free.contains(h)));
        }
    } else {
        assert(!(state.sets.contains_key(next) || state.free.contains(next)));
        assert forall|h: u32|
            (#[trigger] after.sets.contains_key(h) || after.free.contains(h)) <==> h
                < after.slots by {
            assert(state.sets.contains_key(h) || state.free.contains(h) <==> h < state.slots);
        }
        assert forall|h: u32| !(#[trigger] after.sets.contains_key(h) && after.free.contains(
            h,
        )) by {
            assert(!(state.sets.contains_key(h) && state.free.contains(h)));
        }
    }
}

/// Giving a live handle back keeps the state well-formed; the handle is
/// then the next to be issued and no other handle is touched.
pub proof fn lemma_release(state: BridgeView, handle: u32)
    requires
        state.wf(),
        state.sets.contains_key(handle),
    ensures
        state.release(handle).wf(),
        !state.release(handle).sets.contains_key(handle),
        state.release(handle).next_handle() == handle,
        !state.release(handle).full(),
        forall|h: u32|
            h != handle ==> (state.release(handle).sets.contains_key(h)
                <==> state.sets.contains_key(h)),
{
    let after = state.release(handle);
    assert(!(state.sets.contains_key(handle) && state.free.contains(handle)));
    assert forall|h: u32| after.free.contains(h) <==> (state.free.contains(h) || h == handle) by {
        if after.free.contains(h) {
            let i = choose|i: int| 0 <= i < after.free.len() && after.free[i] == h;
            if i > 0 {
                assert(state.free[i - 1] == h);
            }
        }
        if state.free.contains(h) {
            let i = choose|i: int| 0 <= i < state.free.len() && state.free[i] == h;
            assert(after.free[i + 1] == h);
        }
        if h == handle {
            assert(after.free[0] == h);
        }
    }
    assert forall|i: int, j: int| 0 <= i < after.free.len() && 0 <= j < after.free.len() && i
        != j implies after.free[i] != after.free[j] by {
        if i > 0 && j > 0 {
            assert(state.free[i - 1] != state.free[j - 1]);
        } else if i > 0 {
            assert(state.free.contains(state.free[i - 1]));
        } else {
            assert(state.free.contains(state.free[j - 1]));
        }
    }
    assert forall|h: u32|
        (#[trigger] after.sets.contains_key(h) || after.free.contains(h)) <==> h
            < after.slots by {
        assert(state.sets.contains_key(h) || state.free.contains(h) <==> h < state.slots);
    }
    assert forall|h: u32| !(#[trigger] after.sets.contains_key(h) && after.free.contains(h)) by {
        assert(!(state.sets.contains_key(h) && state.free.contains(h)));
    }
}

/// Registering against a live handle keeps the state well-formed and
/// changes neither which handles are live nor which is issued next.
pub proof fn lemma_register(state: BridgeView, handle: u32, ob: ObservableView)
    requires
        state.wf(),
        state.sets.contains_key(handle),
    ensures
        state.register(handle, ob).wf(),
        state.register(handle, ob).next_handle() == state.next_handle(),
        state.register(handle, ob).full() == state.full(),
        forall|h: u32|
            state.register(handle, ob).sets.contains_key(h) <==> state.sets.contains_key(h),
{
    let after = state.register(handle, ob);
    assert forall|h: u32|
        (#[trigger] after.sets.contains_key(h) || after.free.contains(h)) <==> h
            < after.slots by {
        assert(state.sets.contains_key(h) || state.free.contains(h) <==> h < state.slots);
    }
    assert forall|h: u32| !(#[trigger] after.sets.contains_key(h) && after.free.contains(h)) by {
        assert(!(state.sets.contains_key(h) && state.free.contains(h)));
    }
}

/// Every operation keeps the state well-formed.
pub proof fn lemma_steps_keep_wf(state: BridgeView, handle: u32, ob: ObservableView)
    requires
        state.wf(),
    ensures
        state.after_get().wf(),
        state.after_listen(handle, ob).wf(),
        state.after_drop(handle).wf(),
{
    if !state.full() {
        lemma_issue(state, Seq::empty());
    }
    if state.listens(handle) {
        lemma_register(state, handle, ob);
        lemma_issue(state.register(handle, ob), state.sets[handle].push(ob));
    }
    if state.sets.contains_key(handle) {
        lemma_release(state, handle);
    }
}

/// A successful `listen` leaves the handle it was given live, returns a
/// handle that was not live before, and has `ob` in scope under both.
pub proof fn lemma_listen(state: BridgeView, handle: u32, ob: ObservableView)
    requires
        state.wf(),
        state.listens(handle),
    ensures
        state.next_handle() != handle,
        !state.sets.contains_key(state.next_handle()),
        state.after_listen(handle, ob).sets.contains_key(handle),
        state.after_listen(handle, ob).sets.contains_key(state.next_handle()),
        state.after_listen(handle, ob).sets[handle] == state.sets[handle].push(ob),
        state.after_listen(handle, ob).sets[state.next_handle()] == state.sets[handle].push(ob),
        forall|other: ObservableView|
            state.sets[handle].contains(other) ==> state.after_listen(
                handle,
                ob,
            ).sets[handle].contains(other),
        state.after_listen(handle, ob).sets[handle].contains(ob),
{
    lemma_register(state, handle, ob);
    lemma_issue(state.register(handle, ob), state.sets[handle].push(ob));
    let grown = state.sets[handle].push(ob);
    assert(grown[grown.len() - 1] == ob);
    assert forall|other: ObservableView| state.sets[handle].contains(other) implies grown.contains(
        other,
    ) by {
        let i = choose|i: int| 0 <= i < state.sets[handle].len() && state.sets[handle][i] == other;
        assert(grown[i] == other);
    }
}

/// Two registrations against one handle are both in scope under that
/// handle afterwards, the first before the second.
pub proof fn lemma_listen_twice(
    state: BridgeView,
    handle: u32,
    first: ObservableView,
    second: ObservableView,
)
    requires
        state.wf(),
        state.listens(handle),
        state.after_listen(handle, first).listens(handle),
    ensures
        state.after_listen(handle, first).after_listen(handle, second).sets[handle]
            == state.sets[handle].push(first).push(second),
        state.after_listen(handle, first).after_listen(handle, second).sets[handle].contains(
            first,
        ),
        state.after_listen(handle, first).after_listen(handle, second).sets[handle].contains(
            second,
        ),
{
    lemma_listen(state, handle, first);
    lemma_steps_keep_wf(state, handle, first);
    lemma_listen(state.after_listen(handle, first), handle, second);
}

/// Once a handle is dropped it is unknown: it is not live, a second `drop`
/// and a `listen` on it change nothing, and this stays so while no handle is
/// issued. It is the first handle to be issued again.
pub proof fn lemma_dropped_handle_is_unknown(state: BridgeView, handle: u32, ob: ObservableView)
    requires
        state.wf(),
        state.sets.contains_key(handle),
    ensures
        !state.after_drop(handle).sets.contains_key(handle),
        !state.after_drop(handle).listens(handle),
        state.after_drop(handle).after_drop(handle) == state.after_drop(handle),
        state.after_drop(handle).after_listen(handle, ob) == state.after_drop(handle),
        forall|other: u32|
            !state.after_drop(handle).after_drop(other).sets.contains_key(handle),
        state.after_drop(handle).next_handle() == handle,
{
    lemma_release(state, handle);
    let after = state.after_drop(handle);
    assert forall|other: u32| !after.after_drop(other).sets.contains_key(handle) by {
        if after.sets.contains_key(other) {
            lemma_release(after, other);
        }
    }
}

/// A `drop` of a handle that is not live changes nothing.
pub proof fn lemma_drop_of_unknown_handle(state: BridgeView, handle: u32)
    requires
        !state.sets.contains_key(handle),
    ensures
        state.after_drop(handle) == state,
{
}

/// After `get` and any number of `listen` calls, each on the handle that
/// the last successful call returned, the handle in hand is live; after it
/// is dropped it is unknown.
pub proof fn lemma_chain_then_drop(state: BridgeView, obs: Seq<ObservableView>)
    requires
        state.wf(),
        !state.full(),
    ensures
        ({
            let (reached, last) = state.after_get().listen_chain(state.next_handle(), obs);
            &&& reached.wf()
            &&& reached.sets.contains_key(last)
            &&& !reached.after_drop(last).sets.contains_key(last)
            &&& !reached.after_drop(last).listens(last)
            &&& reached.after_drop(last).after_drop(last) == reached.after_drop(last)
        }),
{
    lemma_issue(state, Seq::empty());
    lemma_chain(state.after_get(), state.next_handle(), obs);
    let (reached, last) = state.after_get().listen_chain(state.next_handle(), obs);
    lemma_release(reached, last);
}

/// A chain of `listen` calls that starts on a live handle ends on a live
/// handle, in a well-formed state.
pub proof fn lemma_chain(state: BridgeView, handle: u32, obs: Seq<ObservableView>)
    requires
        state.wf(),
        state.sets.contains_key(handle),
    ensures
        state.listen_chain(handle, obs).0.wf(),
        state.listen_chain(handle, obs).0.sets.contains_key(state.listen_chain(handle, obs).1),
    decreases obs.len(),
{
    if obs.len() > 0 {
        lemma_chain(state, handle, obs.drop_last());
        let (reached, last) = state.listen_chain(handle, obs.drop_last());
        if reached.listens(last) {
            lemma_listen(reached, last, obs.last());
            lemma_steps_keep_wf(reached, last, obs.last());
        }
    }
}

} // verus!
