//! The host's side of the bridge: the table of event sets and the four
//! operations that the guest can ask for, `get`, `listen`, `exec` and `drop`.
//!
//! `listen` returns a handle of its own for every call. It registers the
//! observable against the event set it was given, which stays live, and the
//! handle it returns stands for a copy of that event set as it then is.

use vstd::prelude::*;
use vstd::string::*;
use crate::abi::{
    carry_out, error_header_layout, handle_layout, lower_handle_result, message_bytes, Lowered,
};
use crate::dispatch::{Dispatch, DELIVERY_UNITS};
use crate::error::{Error, Trap};
use crate::event_set::EventSet;
use crate::invoker::Outcome;
use crate::memory::{bits, bits64, get_str, to_bits, to_bits64};
use crate::model::BridgeView;
use crate::observable::{Observable, ObservableView};
use crate::table::HandleTable;

verus! {

/// The message of the error that `get` and `listen` report when every
/// handle is in use.
pub open spec fn exhausted() -> Seq<char> {
    "no event set handle is free"@
}

/// The tables of the host: one table for each kind of resource, and event
/// sets are the only kind.
pub struct ExecTables {
    pub(crate) events_table: HandleTable<EventSet>,
}

impl ExecTables {
    /// The representation invariant of the table.
    pub closed spec fn wf(&self) -> bool {
        self.events_table.wf()
    }

    /// Tables with no entry.
    pub fn new() -> (tables: ExecTables)
        ensures
            tables.wf(),
            tables@ == BridgeView::empty(),
    {
        let tables = ExecTables { events_table: HandleTable::new() };
        assert(tables@.sets =~= Map::<u32, Seq<ObservableView>>::empty());
        tables
    }
}

impl View for ExecTables {
    type V = BridgeView;

    closed spec fn view(&self) -> BridgeView {
        BridgeView {
            sets: Map::new(
                |h: u32| self.events_table@.contains_key(h),
                |h: u32| self.events_table@[h]@,
            ),
            free: self.events_table.free_handles(),
            slots: self.events_table.slots(),
        }
    }
}

impl Default for ExecTables {
    fn default() -> (tables: ExecTables)
        ensures
            tables.wf(),
            tables@ == BridgeView::empty(),
    {
        ExecTables::new()
    }
}

/// The host's state: what the operations of the bridge act on.
pub struct HostContext {
    pub(crate) host: ExecTables,
}

impl View for HostContext {
    type V = BridgeView;

    closed spec fn view(&self) -> BridgeView {
        self.host@
    }
}

impl HostContext {
    /// The representation invariant.
    pub closed spec fn wf(&self) -> bool {
        self.host.wf()
    }

    /// A well-formed host is in a well-formed state of the model.
    pub proof fn lemma_view_wf(&self)
        requires
            self.wf(),
        ensures
            self@.wf(),
    {
        let table = self.host.events_table;
        table.lemma_layout();
        assert forall|h: u32|
            (#[trigger] self@.sets.contains_key(h) || self@.free.contains(h)) <==> h
                < self@.slots by {
            assert(self@.sets.contains_key(h) == table@.contains_key(h));
            assert((table@.contains_key(h) || table.free_handles().contains(h)) <==> h
                < table.slots());
        }
        assert forall|h: u32| !(#[trigger] self@.sets.contains_key(h) && self@.free.contains(
            h,
        )) by {
            assert(self@.sets.contains_key(h) == table@.contains_key(h));
            assert(!(table@.contains_key(h) && table.free_handles().contains(h)));
        }
    }

    /// A host with no event set.
    pub fn new() -> (host: HostContext)
        ensures
            host.wf(),
            host@ == BridgeView::empty(),
    {
        HostContext { host: ExecTables::new() }
    }

    /// Whether `handle` stands for an event set.
    pub fn is_live(&self, handle: u32) -> (live: bool)
        requires
            self.wf(),
        ensures
            live == self@.sets.contains_key(handle),
    {
        self.host.events_table.contains(handle)
    }

    /// The event set that `handle` stands for.
    pub fn event_set(&self, handle: u32) -> (found: Option<&EventSet>)
        requires
            self.wf(),
        ensures
            match found {
                Some(set) => self@.sets.contains_key(handle) && set@ == self@.sets[handle],
                None => !self@.sets.contains_key(handle),
            },
    {
        self.host.events_table.get(handle)
    }

    /// `get`: makes an event set with nothing registered and returns its
    /// handle. Fails, and changes nothing, only when every handle is in use.
    pub fn events_get(&mut self) -> (result: Result<u32, Error>)
        requires
            old(self).wf(),
        ensures
            final(self).wf(),
            final(self)@ == old(self)@.after_get(),
            match result {
                Ok(handle) => !old(self)@.full() && handle == old(self)@.next_handle(),
                Err(error) => old(self)@.full() && error@ == exhausted(),
            },
    {
        proof {
            self.host.events_table.lemma_layout();
        }
        if self.host.events_table.is_full() {
            return Err(Error::new("no event set handle is free"));
        }
        let handle = self.host.events_table.insert(EventSet::new());
        proof {
            assert(self@.sets =~= old(self)@.after_get().sets);
        }
        Ok(handle)
    }

    /// `listen`: registers a copy of `ob` against the event set of `handle`
    /// and returns a new handle, which stands for a copy of that event set
    /// with `ob` registered.
    ///
    /// Traps, and changes nothing, if `handle` is unknown. Fails with an
    /// error, and changes nothing, if every handle is in use.
    pub fn events_listen(&mut self, handle: u32, ob: Observable<'_>) -> (result: Result<
        Result<u32, Error>,
        Trap,
    >)
        requires
            old(self).wf(),
        ensures
            final(self).wf(),
            final(self)@ == old(self)@.after_listen(handle, ob@),
            match result {
                Ok(Ok(issued)) => old(self)@.listens(handle) && issued == old(self)@.next_handle(),
                Ok(Err(error)) => old(self)@.sets.contains_key(handle) && old(self)@.full()
                    && error@ == exhausted(),
                Err(trap) => trap == Trap::UnknownHandle && !old(self)@.sets.contains_key(handle),
            },
    {
        proof {
            self.host.events_table.lemma_layout();
        }
        if !self.host.events_table.contains(handle) {
            return Err(Trap::UnknownHandle);
        }
        if self.host.events_table.is_full() {
            return Ok(Err(Error::new("no event set handle is free")));
        }
        let copy = match self.host.events_table.get_mut(handle) {
            Some(set) => {
                set.register(&ob);
                set.duplicate()
            },
            None => EventSet::new(),
        };
        let ghost registered = self@;
        proof {
            assert(registered.sets =~= old(self)@.register(handle, ob@).sets);
            self.host.events_table.lemma_layout();
        }
        let issued = self.host.events_table.insert(copy);
        proof {
            assert(self@.sets =~= old(self)@.after_listen(handle, ob@).sets);
        }
        Ok(Ok(issued))
    }

    /// `exec`: plans the delivery of the event set of `handle`, with all
    /// the delivery units pending. The event set is read and stays as it is.
    ///
    /// Traps if `handle` is unknown.
    pub fn events_exec(&self, handle: u32, duration: u64) -> (result: Result<Dispatch, Trap>)
        requires
            self.wf(),
        ensures
            match result {
                Ok(dispatch) => {
                    &&& self@.sets.contains_key(handle)
                    &&& dispatch@.handle == handle
                    &&& dispatch@.duration == duration
                    &&& dispatch@.units == Seq::new(
                        DELIVERY_UNITS as nat,
                        |i: int| None::<Outcome>,
                    )
                },
                Err(trap) => trap == Trap::UnknownHandle && !self@.sets.contains_key(handle),
            },
    {
        if !self.host.events_table.contains(handle) {
            return Err(Trap::UnknownHandle);
        }
        Ok(Dispatch::new(handle, duration))
    }

    /// `drop`: takes the event set of `handle` out of the table and
    /// releases it. The handle is unknown from then on, until it is issued
    /// again.
    ///
    /// Traps, and changes nothing, if `handle` is unknown.
    pub fn drop_events(&mut self, handle: u32) -> (result: Result<(), Trap>)
        requires
            old(self).wf(),
        ensures
            final(self).wf(),
            final(self)@ == old(self)@.after_drop(handle),
            match result {
                Ok(_) => old(self)@.sets.contains_key(handle),
                Err(trap) => trap == Trap::UnknownHandle && !old(self)@.sets.contains_key(handle),
            },
    {
        match self.host.events_table.remove(handle) {
            Ok(_) => {
                proof {
                    assert(self@.sets =~= old(self)@.after_drop(handle).sets);
                }
                Ok(())
            },
            Err(_) => Err(Trap::UnknownHandle),
        }
    }

    /// The text with which a failed `drop` is reported.
    pub fn drop_failure(trap: Trap) -> (text: String)
        ensures
            text@ == "failed to remove handle: "@ + trap.text(),
    {
        let mut text = String::from_str("failed to remove handle: ");
        text.append(trap.message());
        text
    }
}

/// What `get` writes at the address `ret` in the state `state`.
pub open spec fn get_layout(state: BridgeView, ret: i32) -> Seq<crate::abi::Write> {
    if state.full() {
        error_header_layout(ret)
    } else {
        handle_layout(ret, state.next_handle())
    }
}

/// What `listen` on a live handle writes at the address `ret` in the state
/// `state`.
pub open spec fn listen_layout(state: BridgeView, ret: i32) -> Seq<crate::abi::Write> {
    get_layout(state, ret)
}

/// `get` as the guest calls it: carries the operation out and writes its
/// result into the guest's memory at the address `ret`.
///
/// The operation is carried out even if writing the result then traps.
pub fn call_events_get(host: &mut HostContext, mem: &mut [u8], ret: i32) -> (lowered: Result<
    Lowered,
    Trap,
>)
    requires
        old(host).wf(),
    ensures
        final(host).wf(),
        final(host)@ == old(host)@.after_get(),
        final(mem)@.len() == old(mem)@.len(),
        final(mem)@ == carry_out(old(mem)@, get_layout(old(host)@, ret)).0,
        match lowered {
            Ok(Lowered::Complete) => {
                &&& !old(host)@.full()
                &&& carry_out(old(mem)@, get_layout(old(host)@, ret)).1
            },
            Ok(Lowered::NeedsBuffer { error, size }) => {
                &&& old(host)@.full()
                &&& carry_out(old(mem)@, get_layout(old(host)@, ret)).1
                &&& error@ == exhausted()
                &&& bits(size) == message_bytes(error).len()
            },
            Err(trap) => {
                &&& trap == Trap::OutOfBounds
                &&& !carry_out(old(mem)@, get_layout(old(host)@, ret)).1
            },
        },
{
    let result = host.events_get();
    proof {
        if result is Err {
            lemma_exhausted_is_short();
        }
    }
    lower_handle_result(mem, ret, result)
}

/// The message for a full table has a length that fits 32 bits.
proof fn lemma_exhausted_is_short()
    ensures
        vstd::utf8::encode_utf8(exhausted()).len() <= u32::MAX,
{
    reveal_strlit("no event set handle is free");
    vstd::utf8::is_ascii_chars_encode_utf8(exhausted());
}

/// `listen` as the guest calls it: `handle` names the event set, the two
/// pairs of a pointer and a length name the resource descriptor and the key
/// in the guest's memory, and the result is written at the address `ret`.
///
/// The handle is looked up first, then the two texts are read, the
/// descriptor before the key; a trap at any of these leaves the host and
/// the memory as they were.
pub fn call_events_listen(
    host: &mut HostContext,
    mem: &mut [u8],
    handle: i32,
    rd_ptr: i32,
    rd_len: i32,
    key_ptr: i32,
    key_len: i32,
    ret: i32,
) -> (lowered: Result<Lowered, Trap>)
    requires
        old(host).wf(),
    ensures
        final(host).wf(),
        final(mem)@.len() == old(mem)@.len(),
        match listen_arguments(old(host)@, old(mem)@, handle, rd_ptr, rd_len, key_ptr, key_len) {
            Err(trap) => {
                &&& lowered == Err::<Lowered, Trap>(trap)
                &&& final(host)@ == old(host)@
                &&& final(mem)@ == old(mem)@
            },
            Ok(ob) => {
                &&& final(host)@ == old(host)@.after_listen(bits(handle), ob)
                &&& final(mem)@ == carry_out(old(mem)@, listen_layout(old(host)@, ret)).0
                &&& match lowered {
                    Ok(Lowered::Complete) => {
                        &&& !old(host)@.full()
                        &&& carry_out(old(mem)@, listen_layout(old(host)@, ret)).1
                    },
                    Ok(Lowered::NeedsBuffer { error, size }) => {
                        &&& old(host)@.full()
                        &&& carry_out(old(mem)@, listen_layout(old(host)@, ret)).1
                        &&& error@ == exhausted()
                        &&& bits(size) == message_bytes(error).len()
                    },
                    Err(trap) => {
                        &&& trap == Trap::OutOfBounds
                        &&& !carry_out(old(mem)@, listen_layout(old(host)@, ret)).1
                    },
                }
            },
        },
{
    let known = to_bits(handle);
    if !host.is_live(known) {
        return Err(Trap::UnknownHandle);
    }
    let result = {
        let rd = match get_str(mem, to_bits(rd_ptr) as u64, to_bits(rd_len)) {
            Ok(rd) => rd,
            Err(trap) => {
                return Err(trap);
            },
        };
        let key = match get_str(mem, to_bits(key_ptr) as u64, to_bits(key_len)) {
            Ok(key) => key,
            Err(trap) => {
                return Err(trap);
            },
        };
        host.events_listen(known, Observable { rd, key })
    };
    match result {
        Ok(result) => {
            proof {
                if result is Err {
                    lemma_exhausted_is_short();
                }
            }
            lower_handle_result(mem, ret, result)
        },
        Err(trap) => Err(trap),
    }
}

/// The text that `len` bytes at the address `ptr` of `mem` encode, or the
/// trap that reading it ends in.
pub open spec fn text_at(mem: Seq<u8>, ptr: i32, len: i32) -> Result<Seq<char>, Trap> {
    if !crate::memory::fits(mem.len(), bits(ptr) as int, bits(len) as nat) {
        Err(Trap::OutOfBounds)
    } else if !vstd::utf8::valid_utf8(mem.subrange(bits(ptr) as int, bits(ptr) + bits(len))) {
        Err(Trap::InvalidUtf8)
    } else {
        Ok(vstd::utf8::decode_utf8(mem.subrange(bits(ptr) as int, bits(ptr) + bits(len))))
    }
}

/// The observable that the arguments of a `listen` call name, or the trap
/// that the call ends in before anything is registered.
pub open spec fn listen_arguments(
    state: BridgeView,
    mem: Seq<u8>,
    handle: i32,
    rd_ptr: i32,
    rd_len: i32,
    key_ptr: i32,
    key_len: i32,
) -> Result<ObservableView, Trap> {
    if !state.sets.contains_key(bits(handle)) {
        Err(Trap::UnknownHandle)
    } else {
        match text_at(mem, rd_ptr, rd_len) {
            Err(trap) => Err(trap),
            Ok(rd) => match text_at(mem, key_ptr, key_len) {
                Err(trap) => Err(trap),
                Ok(key) => Ok((rd, key)),
            },
        }
    }
}

/// `exec` as the guest calls it: `handle` names the event set and
/// `duration` is the hint. Returns the dispatch to run, or traps if the
/// handle is unknown. The result of the finished dispatch is written with
/// `lower_unit_result`.
pub fn call_events_exec(host: &HostContext, handle: i32, duration: i64) -> (result: Result<
    Dispatch,
    Trap,
>)
    requires
        host.wf(),
    ensures
        match result {
            Ok(dispatch) => {
                &&& host@.sets.contains_key(bits(handle))
                &&& dispatch@.handle == bits(handle)
                &&& dispatch@.duration == bits64(duration)
                &&& dispatch@.units == Seq::new(DELIVERY_UNITS as nat, |i: int| None::<Outcome>)
            },
            Err(trap) => trap == Trap::UnknownHandle && !host@.sets.contains_key(bits(handle)),
        },
{
    host.events_exec(to_bits(handle), to_bits64(duration))
}

} // verus!
