//! The execution context of one simulated canister.

use std::collections::BTreeMap;
use vstd::prelude::*;
use vstd::slice::slice_to_vec;
use ic_cdk::api::call::CallResult;
use crate::certificate::{certificate, certificate_of, CERTIFICATE_LEN, MAX_CERTIFIED_DATA_LEN};
use crate::handler::{CallError, Handler};
use crate::method::{Method, MethodAtom, MethodView};
use crate::principal::Principal;
use crate::watcher::{CallRecord, Operation, Watcher, WatcherCall, WatcherView};

verus! {

/// The chain of a context that makes no outbound calls: the context that a
/// call handler works on.
#[derive(Debug)]
pub struct Detached;

/// The slots of a storage as plain values.
pub open spec fn slots_of(storage: Map<u64, Vec<u8>>) -> Map<u64, Seq<u8>> {
    storage.map_values(|v: Vec<u8>| v@)
}

/// A slot that is put into a storage shows with its bytes.
proof fn lemma_slots_insert(storage: Map<u64, Vec<u8>>, tag: u64, value: Vec<u8>)
    ensures
        slots_of(storage.insert(tag, value)) == slots_of(storage).insert(tag, value@),
{
    assert(slots_of(storage.insert(tag, value)) =~= slots_of(storage).insert(tag, value@));
}

/// A slot that is taken out of a storage no longer shows.
proof fn lemma_slots_remove(storage: Map<u64, Vec<u8>>, tag: u64)
    ensures
        slots_of(storage.remove(tag)) == slots_of(storage).remove(tag),
{
    assert(slots_of(storage.remove(tag)) =~= slots_of(storage).remove(tag));
}

/// The bytes of an optional byte string.
pub open spec fn bytes_of(o: Option<Vec<u8>>) -> Option<Seq<u8>> {
    match o {
        Some(v) => Some(v@),
        None => None,
    }
}

/// A context as a plain value.
pub struct ContextView<H> {
    /// The identity of the canister.
    pub id: Seq<u8>,
    /// The cycles that the canister owns.
    pub balance: u64,
    /// The identity that called the canister.
    pub caller: Seq<u8>,
    /// Whether an outbound call is in flight.
    pub is_reply_callback_mode: bool,
    /// Whether the canister trapped.
    pub trapped: bool,
    /// The cycles that came with the current call and were not accepted yet.
    pub cycles: u64,
    /// The cycles that the last outbound call gave back.
    pub cycles_refunded: u64,
    /// The storage slots by their tags.
    pub storage: Map<u64, Seq<u8>>,
    /// The stable buffer.
    pub stable: Seq<u8>,
    /// The certified data, once set.
    pub certified_data: Option<Seq<u8>>,
    /// The certificate of the certified data.
    pub certificate: Option<Seq<u8>>,
    /// What the watcher has seen.
    pub watcher: WatcherView,
    /// The handlers of outbound calls.
    pub handlers: H,
}

impl<H> ContextView<H> {
    /// The certified data holds at most 32 bytes and the certificate is the
    /// one derived from it.
    pub open spec fn well_formed(self) -> bool {
        match self.certified_data {
            Some(data) => data.len() <= MAX_CERTIFIED_DATA_LEN && self.certificate == Some(
                certificate_of(data),
            ),
            None => self.certificate is None,
        }
    }

    /// The context with the defaults: the default identity, a balance of
    /// 100 trillion cycles, the anonymous caller, nothing stored, nothing
    /// watched.
    pub open spec fn fresh(handlers: H) -> Self {
        ContextView {
            id: default_id(),
            balance: DEFAULT_BALANCE,
            caller: seq![4u8],
            is_reply_callback_mode: false,
            trapped: false,
            cycles: 0,
            cycles_refunded: 0,
            storage: Map::empty(),
            stable: Seq::empty(),
            certified_data: None,
            certificate: None,
            watcher: WatcherView::fresh(),
            handlers,
        }
    }

    /// Whether two contexts differ at most in their cycles, their balance
    /// and their watcher.
    pub open spec fn same_state(self, other: Self) -> bool {
        self == (ContextView {
            cycles: self.cycles,
            balance: self.balance,
            watcher: self.watcher,
            ..other
        })
    }

    /// What a read of the slot `tag` gives: its value, or the empty value
    /// that a first read puts there.
    pub open spec fn slot(self, tag: u64) -> Seq<u8> {
        if self.storage.contains_key(tag) {
            self.storage[tag]
        } else {
            Seq::empty()
        }
    }

    /// The context after `store` put `data` in the slot `tag`.
    pub open spec fn stored(self, tag: u64, data: Seq<u8>) -> Self {
        ContextView {
            storage: self.storage.insert(tag, data),
            watcher: self.watcher.touched(tag),
            ..self
        }
    }

    /// The context after `get` read the slot `tag`.
    pub open spec fn read(self, tag: u64) -> Self {
        ContextView { storage: self.storage.insert(tag, self.slot(tag)), ..self }
    }

    /// The context after `get_mut` lent out the slot `tag` and got it back
    /// with the value `value`.
    pub open spec fn lent(self, tag: u64, value: Seq<u8>) -> Self {
        ContextView {
            storage: self.storage.insert(tag, value),
            watcher: self.watcher.touched(tag),
            ..self
        }
    }

    /// The context after `delete` removed the slot `tag`.
    pub open spec fn deleted(self, tag: u64) -> Self {
        ContextView {
            storage: self.storage.remove(tag),
            watcher: self.watcher.touched(tag),
            ..self
        }
    }

    /// The context after `stable_store` wrote `data`.
    pub open spec fn stable_stored(self, data: Seq<u8>) -> Self {
        ContextView {
            stable: data,
            watcher: self.watcher.marked(Operation::StableStore),
            ..self
        }
    }

    /// The context after `stable_restore` read the stable buffer.
    pub open spec fn stable_restored(self) -> Self {
        ContextView { watcher: self.watcher.marked(Operation::StableRestore), ..self }
    }

    /// The context after `set_certified_data` set `data`.
    pub open spec fn certified(self, data: Seq<u8>) -> Self {
        ContextView {
            certified_data: Some(data),
            certificate: Some(certificate_of(data)),
            watcher: self.watcher.marked(Operation::SetCertifiedData),
            ..self
        }
    }

    /// The cycles that a request to accept `cycles` takes.
    pub open spec fn accepted(self, cycles: u64) -> u64 {
        if cycles > self.cycles {
            self.cycles
        } else {
            cycles
        }
    }
}

/// The balance of a new context: 100 trillion cycles.
pub const DEFAULT_BALANCE: u64 = 100_000_000_000_000;

/// The identity of a new context, `sgymv-uiaaa-aaaaa-aaaia-cai` in text.
pub open spec fn default_id() -> Seq<u8> {
    seq![0u8, 0u8, 0u8, 0u8, 0u8, 0u8, 0u8, 16u8, 1u8, 1u8]
}

/// Certified data together with the certificate derived from it.
struct Certified {
    data: Vec<u8>,
    certificate: Vec<u8>,
}

impl Certified {
    #[verifier::type_invariant]
    spec fn well_formed(self) -> bool {
        &&& self.data@.len() <= MAX_CERTIFIED_DATA_LEN
        &&& self.certificate@ == certificate_of(self.data@)
    }

    fn new(data: &[u8]) -> (c: Self)
        requires
            data@.len() <= MAX_CERTIFIED_DATA_LEN,
        ensures
            c.data@ == data@,
            c.certificate@ == certificate_of(data@),
    {
        Certified { data: slice_to_vec(data), certificate: certificate(data) }
    }
}

/// A context stands in for the system when canister code is run outside
/// it: it holds what the system would know of one canister.
pub struct MockContext<H = Vec<Handler>> {
    /// The watcher on the context.
    watcher: Watcher,
    /// The identity of the canister.
    id: Principal,
    /// The balance of the canister.
    balance: u64,
    /// The caller of the current call.
    caller: Principal,
    /// Set while an outbound call is in flight.
    is_reply_callback_mode: bool,
    /// Whether the canister trapped.
    trapped: bool,
    /// The cycles of the current call that were not accepted yet.
    cycles: u64,
    /// The cycles that the last outbound call gave back.
    cycles_refunded: u64,
    /// The storage slots by their tags.
    storage: BTreeMap<u64, Vec<u8>>,
    /// The stable buffer.
    stable: Vec<u8>,
    /// The certified data with its certificate.
    certified: Option<Certified>,
    /// The handlers of outbound calls, in the order in which they are asked.
    handlers: H,
}

impl<H> View for MockContext<H> {
    type V = ContextView<H>;

    closed spec fn view(&self) -> ContextView<H> {
        ContextView {
            id: self.id@,
            balance: self.balance,
            caller: self.caller@,
            is_reply_callback_mode: self.is_reply_callback_mode,
            trapped: self.trapped,
            cycles: self.cycles,
            cycles_refunded: self.cycles_refunded,
            storage: slots_of(self.storage@),
            stable: self.stable@,
            certified_data: match self.certified {
                Some(c) => Some(c.data@),
                None => None,
            },
            certificate: match self.certified {
                Some(c) => Some(c.certificate@),
                None => None,
            },
            watcher: self.watcher@,
            handlers: self.handlers,
        }
    }
}

/// Hands out the value of a slot of the storage for writing, with
/// `BTreeMap::get_mut`: a mutable reference to the value that the key maps
/// to. The key is in the map, so the result is never `None`.
#[verifier::external_body]
fn slot_mut(storage: &mut BTreeMap<u64, Vec<u8>>, tag: u64) -> (value: &mut Vec<u8>)
    requires
        old(storage)@.contains_key(tag),
    ensures
        *value == old(storage)@[tag],
        final(storage)@ == old(storage)@.insert(tag, *final(value)),
{
    storage.get_mut(&tag).unwrap()
}

impl<H> MockContext<H> {
    /// A context with the defaults and the given handlers.
    pub fn with_chain(handlers: H) -> (ctx: Self)
        ensures
            ctx@ == ContextView::fresh(handlers),
    {
        let mut id_bytes: Vec<u8> = Vec::new();
        id_bytes.push(0);
        id_bytes.push(0);
        id_bytes.push(0);
        id_bytes.push(0);
        id_bytes.push(0);
        id_bytes.push(0);
        id_bytes.push(0);
        id_bytes.push(16);
        id_bytes.push(1);
        id_bytes.push(1);
        let ctx = MockContext {
            watcher: Watcher::default(),
            id: Principal::from_slice(id_bytes.as_slice()),
            balance: DEFAULT_BALANCE,
            caller: Principal::anonymous(),
            is_reply_callback_mode: false,
            trapped: false,
            cycles: 0,
            cycles_refunded: 0,
            storage: BTreeMap::new(),
            stable: Vec::new(),
            certified: None,
            handlers,
        };
        proof {
            assert(id_bytes@ =~= default_id());
            assert(ctx@.storage =~= Map::empty());
        }
        ctx
    }

    /// Resets the watcher of the context and hands it out.
    pub fn watch(&mut self) -> (watcher: &Watcher)
        ensures
            watcher@ == WatcherView::fresh(),
            final(self)@ == (ContextView { watcher: WatcherView::fresh(), ..old(self)@ }),
    {
        self.watcher = Watcher::default();
        &self.watcher
    }

    /// The watcher of the context.
    pub fn watcher(&self) -> (watcher: &Watcher)
        ensures
            watcher@ == self@.watcher,
    {
        &self.watcher
    }

    /// Sets the identity of the canister.
    pub fn with_id(self, id: Principal) -> (ctx: Self)
        ensures
            ctx@ == (ContextView { id: id@, ..self@ }),
    {
        let mut ctx = self;
        ctx.id = id;
        ctx
    }

    /// Sets the balance of the canister.
    pub fn with_balance(self, cycles: u64) -> (ctx: Self)
        ensures
            ctx@ == (ContextView { balance: cycles, ..self@ }),
    {
        let mut ctx = self;
        ctx.balance = cycles;
        ctx
    }

    /// Sets the caller of the current call.
    pub fn with_caller(self, caller: Principal) -> (ctx: Self)
        ensures
            ctx@ == (ContextView { caller: caller@, ..self@ }),
    {
        let mut ctx = self;
        ctx.caller = caller;
        ctx
    }

    /// Makes the given amount of cycles available to the current call.
    pub fn with_msg_cycles(self, cycles: u64) -> (ctx: Self)
        ensures
            ctx@ == (ContextView { cycles, ..self@ }),
    {
        let mut ctx = self;
        ctx.cycles = cycles;
        ctx
    }

    /// Puts the given value in the slot `tag` of the storage.
    pub fn with_data(self, tag: u64, data: Vec<u8>) -> (ctx: Self)
        ensures
            ctx@ == (ContextView { storage: self@.storage.insert(tag, data@), ..self@ }),
    {
        let mut ctx = self;
        proof {
            lemma_slots_insert(ctx.storage@, tag, data);
        }
        ctx.storage.insert(tag, data);
        ctx
    }

    /// Puts the given bytes in the stable buffer, as `stable_store` does.
    pub fn with_stable(self, data: Vec<u8>) -> (ctx: Self)
        ensures
            ctx@ == self@.stable_stored(data@),
    {
        let mut ctx = self;
        ctx.stable_store(data);
        ctx
    }

    /// Sets the certified data of the canister and derives its certificate.
    pub fn with_certified_data(self, data: Vec<u8>) -> (ctx: Self)
        requires
            data@.len() <= MAX_CERTIFIED_DATA_LEN,
        ensures
            ctx@ == (ContextView {
                certified_data: Some(data@),
                certificate: Some(certificate_of(data@)),
                ..self@
            }),
    {
        let mut ctx = self;
        ctx.certified = Some(Certified::new(data.as_slice()));
        ctx
    }

    /// Ends the current call: the context is no longer waiting for a reply
    /// and no longer trapped.
    pub fn call_state_reset(&mut self)
        ensures
            final(self)@ == (ContextView {
                is_reply_callback_mode: false,
                trapped: false,
                ..old(self)@
            }),
    {
        self.is_reply_callback_mode = false;
        self.trapped = false;
    }

    /// Empties the storage.
    pub fn clear_storage(&mut self)
        ensures
            final(self)@ == (ContextView { storage: Map::empty(), ..old(self)@ }),
    {
        self.storage.clear();
        proof {
            assert(self@.storage =~= Map::empty());
        }
    }

    /// Sets the balance of the canister.
    pub fn update_balance(&mut self, cycles: u64)
        ensures
            final(self)@ == (ContextView { balance: cycles, ..old(self)@ }),
    {
        self.balance = cycles;
    }

    /// Sets the cycles available to the next call.
    pub fn update_msg_cycles(&mut self, cycles: u64)
        ensures
            final(self)@ == (ContextView { cycles, ..old(self)@ }),
    {
        self.cycles = cycles;
    }

    /// Sets the caller of the next call.
    pub fn update_caller(&mut self, caller: Principal)
        ensures
            final(self)@ == (ContextView { caller: caller@, ..old(self)@ }),
    {
        self.caller = caller;
    }

    /// The certified data of the canister. It never holds more than 32
    /// bytes.
    pub fn get_certified_data(&self) -> (data: Option<Vec<u8>>)
        ensures
            bytes_of(data) == self@.certified_data,
            self@.well_formed(),
    {
        match &self.certified {
            Some(c) => {
                proof {
                    use_type_invariant(c);
                }
                Some(c.data.clone())
            },
            None => None,
        }
    }

    /// Notes that the canister trapped. The caller of this function ends
    /// the call.
    pub fn trap(&mut self)
        ensures
            final(self)@ == (ContextView { trapped: true, ..old(self)@ }),
    {
        self.trapped = true;
    }

    /// The identity of the canister.
    pub fn id(&mut self) -> (id: Principal)
        ensures
            id@ == old(self)@.id,
            final(self)@ == (ContextView {
                watcher: old(self)@.watcher.marked(Operation::Id),
                ..old(self)@
            }),
    {
        self.watcher.mark(Operation::Id);
        self.id.clone()
    }

    /// The time of the system, which the caller reads from its clock and
    /// hands in as nanoseconds.
    pub fn time(&mut self, now: u64) -> (time: u64)
        ensures
            time == now,
            final(self)@ == (ContextView {
                watcher: old(self)@.watcher.marked(Operation::Time),
                ..old(self)@
            }),
    {
        self.watcher.mark(Operation::Time);
        now
    }

    /// The identity that made the current call. While an outbound call is
    /// in flight there is none to ask for.
    pub fn caller(&mut self) -> (caller: Principal)
        requires
            !old(self)@.is_reply_callback_mode,
        ensures
            caller@ == old(self)@.caller,
            final(self)@ == (ContextView {
                watcher: old(self)@.watcher.marked(Operation::Caller),
                ..old(self)@
            }),
    {
        self.watcher.mark(Operation::Caller);
        self.caller.clone()
    }

    /// The cycles that came with the current call and were not accepted.
    pub fn msg_cycles_available(&mut self) -> (cycles: u64)
        ensures
            cycles == old(self)@.cycles,
            final(self)@ == (ContextView {
                watcher: old(self)@.watcher.marked(Operation::MsgCyclesAvailable),
                ..old(self)@
            }),
    {
        self.watcher.mark(Operation::MsgCyclesAvailable);
        self.cycles
    }

    /// The cycles that the last outbound call gave back.
    pub fn msg_cycles_refunded(&mut self) -> (cycles: u64)
        ensures
            cycles == old(self)@.cycles_refunded,
            final(self)@ == (ContextView {
                watcher: old(self)@.watcher.marked(Operation::MsgCyclesRefunded),
                ..old(self)@
            }),
    {
        self.watcher.mark(Operation::MsgCyclesRefunded);
        self.cycles_refunded
    }

    /// Removes the slot `tag` from the storage and says whether there was
    /// one. The slot is marked as modified either way.
    pub fn delete(&mut self, tag: u64) -> (removed: bool)
        ensures
            removed == old(self)@.storage.contains_key(tag),
            final(self)@ == old(self)@.deleted(tag),
    {
        self.watcher.mark_modified(tag);
        proof {
            lemma_slots_remove(self.storage@, tag);
        }
        self.storage.remove(&tag).is_some()
    }

    /// Replaces the whole stable buffer by the given bytes.
    pub fn stable_store(&mut self, data: Vec<u8>)
        ensures
            final(self)@ == old(self)@.stable_stored(data@),
    {
        self.watcher.mark(Operation::StableStore);
        self.stable = data;
    }

    /// The bytes of the stable buffer.
    pub fn stable_restore(&mut self) -> (data: Vec<u8>)
        ensures
            data@ == old(self)@.stable,
            final(self)@ == old(self)@.stable_restored(),
    {
        self.watcher.mark(Operation::StableRestore);
        self.stable.clone()
    }

    /// Sets the certified data of the canister and derives its certificate.
    pub fn set_certified_data(&mut self, data: &[u8])
        requires
            data@.len() <= MAX_CERTIFIED_DATA_LEN,
        ensures
            final(self)@ == old(self)@.certified(data@),
    {
        self.watcher.mark(Operation::SetCertifiedData);
        self.certified = Some(Certified::new(data));
    }

    /// The certificate of the certified data: the one derived from the data
    /// that was set last, and none before any was set.
    pub fn data_certificate(&mut self) -> (certificate: Option<Vec<u8>>)
        ensures
            bytes_of(certificate) == old(self)@.certificate,
            old(self)@.well_formed(),
            final(self)@ == (ContextView {
                watcher: old(self)@.watcher.marked(Operation::DataCertificate),
                ..old(self)@
            }),
    {
        self.watcher.mark(Operation::DataCertificate);
        match &self.certified {
            Some(c) => {
                proof {
                    use_type_invariant(c);
                }
                Some(c.certificate.clone())
            },
            None => None,
        }
    }

    /// The identity of the canister, read without the watcher noticing.
    pub fn peek_id(&self) -> (id: &Principal)
        ensures
            id@ == self@.id,
    {
        &self.id
    }

    /// The balance of the canister, read without the watcher noticing.
    pub fn peek_balance(&self) -> (cycles: u64)
        ensures
            cycles == self@.balance,
    {
        self.balance
    }

    /// The cycles that came with the current call and were not accepted,
    /// read without the watcher noticing.
    pub fn peek_msg_cycles(&self) -> (cycles: u64)
        ensures
            cycles == self@.cycles,
    {
        self.cycles
    }

    /// Whether an outbound call is in flight.
    pub fn is_reply_callback_mode(&self) -> (r: bool)
        ensures
            r == self@.is_reply_callback_mode,
    {
        self.is_reply_callback_mode
    }

    /// Whether the canister trapped.
    pub fn is_trapped(&self) -> (r: bool)
        ensures
            r == self@.trapped,
    {
        self.trapped
    }

    /// The balance of the canister.
    pub fn balance(&mut self) -> (cycles: u64)
        ensures
            cycles == old(self)@.balance,
            final(self)@ == (ContextView {
                watcher: old(self)@.watcher.marked(Operation::Balance),
                ..old(self)@
            }),
    {
        self.watcher.mark(Operation::Balance);
        self.balance
    }

    /// Accepts up to `cycles` of the cycles that came with the call into
    /// the balance, and says how many were accepted.
    pub fn msg_cycles_accept(&mut self, cycles: u64) -> (accepted: u64)
        requires
            old(self)@.balance + old(self)@.accepted(cycles) <= u64::MAX,
        ensures
            accepted == old(self)@.accepted(cycles),
            final(self)@ == (ContextView {
                cycles: (old(self)@.cycles - accepted) as u64,
                balance: (old(self)@.balance + accepted) as u64,
                watcher: old(self)@.watcher.marked(Operation::MsgCyclesAccept),
                ..old(self)@
            }),
    {
        self.watcher.mark(Operation::MsgCyclesAccept);
        let accepted = if cycles > self.cycles {
            self.cycles
        } else {
            cycles
        };
        let left: u64 = self.cycles - accepted;
        let total: u64 = self.balance + accepted;
        self.cycles = left;
        self.balance = total;
        accepted
    }

    /// Replaces the value of the slot `tag` and marks the slot as modified.
    pub fn store(&mut self, tag: u64, data: Vec<u8>)
        ensures
            final(self)@ == old(self)@.stored(tag, data@),
    {
        self.watcher.mark_modified(tag);
        proof {
            lemma_slots_insert(self.storage@, tag, data);
        }
        self.storage.insert(tag, data);
    }

    /// The value of the slot `tag`. A slot that was never written is first
    /// filled with the empty value.
    pub fn get(&mut self, tag: u64) -> (value: &Vec<u8>)
        ensures
            value@ == old(self)@.slot(tag),
            final(self)@ == old(self)@.read(tag),
    {
        if !self.storage.contains_key(&tag) {
            self.storage.insert(tag, Vec::new());
        }
        proof {
            assert(self@.storage =~= old(self)@.storage.insert(tag, old(self)@.slot(tag)));
        }
        let value = self.storage.get(&tag);
        value.unwrap()
    }

    /// The value of the slot `tag`, for writing. A slot that was never
    /// written is first filled with the empty value. The slot is marked as
    /// modified, whether or not the caller writes to it.
    pub fn get_mut(&mut self, tag: u64) -> (value: &mut Vec<u8>)
        ensures
            value@ == old(self)@.slot(tag),
            final(self)@ == old(self)@.lent(tag, final(value)@),
    {
        self.watcher.mark_modified(tag);
        if !self.storage.contains_key(&tag) {
            self.storage.insert(tag, Vec::new());
        }
        proof {
            let present = self.storage@;
            assert(slots_of(present) =~= old(self)@.storage.insert(tag, old(self)@.slot(tag)));
            assert forall|v: Vec<u8>|
                slots_of(#[trigger] present.insert(tag, v)) == old(self)@.storage.insert(
                    tag,
                    v@,
                ) by {
                lemma_slots_insert(present, tag, v);
                assert(slots_of(present).insert(tag, v@) =~= old(self)@.storage.insert(tag, v@));
            }
        }
        slot_mut(&mut self.storage, tag)
    }
}


/// A value that was stored is the value that is read, and a read changes
/// nothing once the slot is there.
pub proof fn lemma_store_then_get<H>(ctx: ContextView<H>, tag: u64, data: Seq<u8>)
    ensures
        ctx.stored(tag, data).slot(tag) == data,
        ctx.stored(tag, data).read(tag) == ctx.stored(tag, data),
        ctx.stored(tag, data).watcher.modified.contains(tag),
{
    let after = ctx.stored(tag, data);
    assert(after.storage.insert(tag, after.slot(tag)) =~= after.storage);
}

/// A slot that was lent out for writing is marked as modified, whatever
/// value it came back with: also the one it had.
pub proof fn lemma_get_mut_marks<H>(ctx: ContextView<H>, tag: u64, value: Seq<u8>)
    ensures
        ctx.lent(tag, value).watcher.modified.contains(tag),
        ctx.lent(tag, ctx.slot(tag)).watcher.modified.contains(tag),
        ctx.lent(tag, value).slot(tag) == value,
{
}

/// A slot that was deleted is gone, and a later read finds the empty value.
pub proof fn lemma_delete_then_get<H>(ctx: ContextView<H>, tag: u64)
    ensures
        !ctx.deleted(tag).storage.contains_key(tag),
        ctx.deleted(tag).slot(tag) == Seq::<u8>::empty(),
        ctx.deleted(tag).watcher.modified.contains(tag),
{
}

/// The bytes that were written to the stable buffer are the bytes that are
/// read back, whatever was in the buffer before.
pub proof fn lemma_stable_round_trip<H>(ctx: ContextView<H>, data: Seq<u8>)
    ensures
        ctx.stable_stored(data).stable == data,
        ctx.stable_stored(data).stable_restored().stable == data,
{
}

/// The certificate goes with the data that was set last.
pub proof fn lemma_certificate_follows_data<H>(ctx: ContextView<H>, first: Seq<u8>, second: Seq<u8>)
    requires
        first.len() <= MAX_CERTIFIED_DATA_LEN,
        second.len() <= MAX_CERTIFIED_DATA_LEN,
    ensures
        ctx.certified(first).certified(second).certified_data == Some(second),
        ctx.certified(first).certified(second).certificate == Some(certificate_of(second)),
        ctx.certified(first).certified(second).well_formed(),
{
}

/// The index of the first handler that answers a call to `method` of
/// `canister_id`.
pub open spec fn first_accepting(
    handlers: Seq<Handler>,
    canister_id: Seq<u8>,
    method: Seq<char>,
) -> Option<int>
    decreases handlers.len(),
{
    if handlers.len() == 0 {
        None
    } else {
        match first_accepting(handlers.drop_last(), canister_id, method) {
            Some(i) => Some(i),
            None => if handlers.last().accepts(canister_id, method) {
                Some(handlers.len() - 1)
            } else {
                None
            },
        }
    }
}

/// Why the context cannot make the given call, as far as the balance and
/// the handler that would answer it tell; `None` where nothing objects.
pub open spec fn refusal(
    ctx: ContextView<Vec<Handler>>,
    canister_id: Seq<u8>,
    method: Seq<char>,
    args_raw: Seq<u8>,
    cycles: u64,
) -> Option<CallError> {
    if cycles > ctx.balance {
        Some(CallError::InsufficientCycles)
    } else {
        match first_accepting(ctx.handlers@, canister_id, method) {
            Some(k) => if 0 <= k < ctx.handlers@.len() {
                ctx.handlers@[k].verdict(cycles, method, args_raw, None)
            } else {
                None
            },
            None => Some(CallError::NoHandlerFound),
        }
    }
}

/// Where scripted methods alone would answer a call, the call can be made
/// exactly when nothing objects to it.
pub proof fn lemma_refusal(
    ctx: ContextView<Vec<Handler>>,
    canister_id: Seq<u8>,
    method: Seq<char>,
    args_raw: Seq<u8>,
    cycles: u64,
)
    requires
        first_accepting(ctx.handlers@, canister_id, method) matches Some(k)
            ==> ctx.handlers@[k].scripted(method),
    ensures
        can_call(ctx, canister_id, method, args_raw, cycles) <==> refusal(
            ctx,
            canister_id,
            method,
            args_raw,
            cycles,
        ) is None,
{
    lemma_first_accepting(ctx.handlers@, canister_id, method);
    match first_accepting(ctx.handlers@, canister_id, method) {
        Some(k) => {
            ctx.handlers@[k].lemma_verdict(ctx.id, cycles, canister_id, method, args_raw, None);
        },
        None => {},
    }
}

/// A call that no handler answers cannot be made: it is refused because no
/// handler was found, or before that because the balance does not hold the
/// cycles. That holds of a context without handlers too.
pub proof fn lemma_no_handler_no_call(
    ctx: ContextView<Vec<Handler>>,
    canister_id: Seq<u8>,
    method: Seq<char>,
    args_raw: Seq<u8>,
    cycles: u64,
)
    requires
        forall|k: int|
            0 <= k < ctx.handlers@.len() ==> !(#[trigger] ctx.handlers@[k]).accepts(
                canister_id,
                method,
            ),
    ensures
        first_accepting(ctx.handlers@, canister_id, method) is None,
        !can_call(ctx, canister_id, method, args_raw, cycles),
        refusal(ctx, canister_id, method, args_raw, cycles) == Some(
            if cycles > ctx.balance {
                CallError::InsufficientCycles
            } else {
                CallError::NoHandlerFound
            },
        ),
{
    lemma_first_accepting(ctx.handlers@, canister_id, method);
}

/// Whether the context can make the given call: its balance holds the
/// cycles, and the first handler that answers the call can answer it.
pub open spec fn can_call(
    ctx: ContextView<Vec<Handler>>,
    canister_id: Seq<u8>,
    method: Seq<char>,
    args_raw: Seq<u8>,
    cycles: u64,
) -> bool {
    &&& cycles <= ctx.balance
    &&& first_accepting(ctx.handlers@, canister_id, method) matches Some(k)
        && ctx.handlers@[k].ready(ctx.id, cycles, canister_id, method, args_raw, None)
}

/// What a call does to a context. The cycles leave the balance and the
/// first handler that answers the call is asked, with the identity of the
/// context as the caller; `res` is what came of it. Where the handler
/// answered, its outcome is the outcome of the call, its refund comes back
/// to the balance and is remembered, and the watcher has recorded the call.
/// Where the call was given up, nothing comes back and nothing is recorded.
/// Either way the context no longer waits for a reply, and no other handler
/// and nothing else of the context has changed.
pub open spec fn call_made(
    before: ContextView<Vec<Handler>>,
    after: ContextView<Vec<Handler>>,
    canister_id: Seq<u8>,
    method: Seq<char>,
    args_raw: Seq<u8>,
    cycles: u64,
    res: Result<CallResult<Vec<u8>>, CallError>,
) -> bool {
    let k = first_accepting(before.handlers@, canister_id, method)->0;
    &&& after.handlers@.len() == before.handlers@.len()
    &&& forall|j: int|
        0 <= j < before.handlers@.len() && j != k ==> #[trigger] after.handlers@[j]
            == before.handlers@[j]
    &&& match res {
        Ok(outcome) => {
            let refund = after.cycles_refunded;
            &&& after == (ContextView {
                balance: (before.balance - cycles + refund) as u64,
                cycles_refunded: refund,
                is_reply_callback_mode: false,
                watcher: before.watcher.recorded(
                    CallRecord {
                        canister_id,
                        method_name: method,
                        args_raw,
                        cycles_sent: cycles,
                        cycles_refunded: refund,
                    },
                ),
                handlers: after.handlers,
                ..before
            })
            &&& before.handlers@[k].answers(
                before.id,
                cycles,
                canister_id,
                method,
                args_raw,
                None,
                Ok((outcome, refund)),
                None,
                after.handlers@[k],
            )
        },
        Err(e) => {
            &&& after == (ContextView {
                balance: (before.balance - cycles) as u64,
                is_reply_callback_mode: false,
                handlers: after.handlers,
                ..before
            })
            &&& before.handlers@[k].answers(
                before.id,
                cycles,
                canister_id,
                method,
                args_raw,
                None,
                Err(e),
                None,
                after.handlers@[k],
            )
        },
    }
}

/// A call that was answered never brings back more than it sent, and the
/// balance afterwards is the balance before, less what was sent, plus what
/// was refunded.
pub proof fn lemma_call_settles_balance(
    before: ContextView<Vec<Handler>>,
    after: ContextView<Vec<Handler>>,
    canister_id: Seq<u8>,
    method: Seq<char>,
    args_raw: Seq<u8>,
    cycles: u64,
    res: Result<CallResult<Vec<u8>>, CallError>,
)
    requires
        can_call(before, canister_id, method, args_raw, cycles),
        call_made(before, after, canister_id, method, args_raw, cycles, res),
        res is Ok,
    ensures
        after.cycles_refunded <= cycles,
        after.balance == before.balance - cycles + after.cycles_refunded,
        after.balance <= before.balance,
        after.watcher.calls.last().cycles_sent == cycles,
        after.watcher.calls.last().cycles_refunded == after.cycles_refunded,
{
    lemma_first_accepting(before.handlers@, canister_id, method);
    let k = first_accepting(before.handlers@, canister_id, method)->0;
    before.handlers@[k].lemma_refund_bounded(
        before.id,
        cycles,
        canister_id,
        method,
        args_raw,
        None,
        Ok((res->Ok_0, after.cycles_refunded)),
        None,
        after.handlers@[k],
    );
}

/// A call that scripted methods alone answer is answered: it is not given
/// up.
pub proof fn lemma_scripted_call_answered(
    before: ContextView<Vec<Handler>>,
    after: ContextView<Vec<Handler>>,
    canister_id: Seq<u8>,
    method: Seq<char>,
    args_raw: Seq<u8>,
    cycles: u64,
    res: Result<CallResult<Vec<u8>>, CallError>,
)
    requires
        can_call(before, canister_id, method, args_raw, cycles),
        call_made(before, after, canister_id, method, args_raw, cycles, res),
        first_accepting(before.handlers@, canister_id, method) matches Some(k)
            && before.handlers@[k].scripted(method),
    ensures
        res is Ok,
{
    lemma_first_accepting(before.handlers@, canister_id, method);
    let k = first_accepting(before.handlers@, canister_id, method)->0;
    if let Err(e) = res {
        before.handlers@[k].lemma_scripted_answers(
            before.id,
            cycles,
            canister_id,
            method,
            args_raw,
            None,
            Err(e),
            None,
            after.handlers@[k],
        );
    }
}

/// Cycles are neither made nor lost where a canister of the chain answers
/// a call with a scripted method: what leaves the balance of the caller is
/// in the balance of the canister afterwards.
pub proof fn lemma_call_conserves_cycles(
    before: ContextView<Vec<Handler>>,
    after: ContextView<Vec<Handler>>,
    canister_id: Seq<u8>,
    method: Seq<char>,
    args_raw: Seq<u8>,
    cycles: u64,
    res: Result<CallResult<Vec<u8>>, CallError>,
)
    requires
        can_call(before, canister_id, method, args_raw, cycles),
        call_made(before, after, canister_id, method, args_raw, cycles, res),
        first_accepting(before.handlers@, canister_id, method) matches Some(k)
            && before.handlers@[k] matches Handler::Canister(c) && c.target(method) matches Some(
            Handler::Method(_),
        ),
    ensures
        res is Ok,
        first_accepting(before.handlers@, canister_id, method) matches Some(k)
            && before.handlers@[k] matches Handler::Canister(c)
            && after.handlers@[k] matches Handler::Canister(c2) && before.balance
            + c.state().balance == after.balance + c2.state().balance,
{
    lemma_first_accepting(before.handlers@, canister_id, method);
    let k = first_accepting(before.handlers@, canister_id, method)->0;
    match (before.handlers@[k], after.handlers@[k]) {
        (Handler::Canister(c), Handler::Canister(c2)) => {
            let inner: Result<(CallResult<Vec<u8>>, u64), CallError> = match res {
                Ok(outcome) => Ok((outcome, after.cycles_refunded)),
                Err(e) => Err(e),
            };
            c.lemma_accepted_cycles_reach_balance(
                c2,
                before.id,
                cycles,
                canister_id,
                method,
                args_raw,
                inner,
            );
        },
        _ => {},
    }
}

/// The index that `first_accepting` gives is that of a handler that
/// answers the call, and no handler before it does.
pub proof fn lemma_first_accepting(handlers: Seq<Handler>, canister_id: Seq<u8>, method: Seq<char>)
    ensures
        match first_accepting(handlers, canister_id, method) {
            Some(i) => 0 <= i < handlers.len() && handlers[i].accepts(canister_id, method)
                && forall|j: int| 0 <= j < i ==> !(#[trigger] handlers[j]).accepts(canister_id, method),
            None => forall|j: int|
                0 <= j < handlers.len() ==> !(#[trigger] handlers[j]).accepts(canister_id, method),
        },
    decreases handlers.len(),
{
    if handlers.len() > 0 {
        lemma_first_accepting(handlers.drop_last(), canister_id, method);
        assert(forall|j: int|
            0 <= j < handlers.len() - 1 ==> handlers.drop_last()[j] == #[trigger] handlers[j]);
    }
}

/// A handler found among the first handlers is the one found among all.
proof fn lemma_first_accepting_extends(
    handlers: Seq<Handler>,
    canister_id: Seq<u8>,
    method: Seq<char>,
    n: int,
)
    requires
        0 <= n <= handlers.len(),
        first_accepting(handlers.take(n), canister_id, method) is Some,
    ensures
        first_accepting(handlers, canister_id, method) == first_accepting(
            handlers.take(n),
            canister_id,
            method,
        ),
    decreases handlers.len() - n,
{
    if n == handlers.len() {
        assert(handlers.take(n) =~= handlers);
    } else {
        assert(handlers.drop_last().take(n) =~= handlers.take(n));
        lemma_first_accepting_extends(handlers.drop_last(), canister_id, method, n);
    }
}

impl MockContext<Vec<Handler>> {
    /// A context with the defaults: the default identity, a balance of 100
    /// trillion cycles, the anonymous caller, nothing stored and no
    /// handlers.
    pub fn new() -> (ctx: Self)
        ensures
            ctx@ == ContextView::fresh(ctx@.handlers),
            ctx@.handlers@ == Seq::<Handler>::empty(),
    {
        MockContext::with_chain(Vec::new())
    }

    /// Derives the placeholder certificate of certified data, as
    /// `set_certified_data` does.
    pub fn sign(data: &[u8]) -> (cert: Vec<u8>)
        requires
            data@.len() <= MAX_CERTIFIED_DATA_LEN,
        ensures
            cert@ == certificate_of(data@),
            cert@.len() == CERTIFICATE_LEN,
    {
        certificate(data)
    }

    /// Adds a handler behind the handlers that the context has.
    pub fn with_handler(self, handler: Handler) -> (ctx: Self)
        ensures
            ctx@ == (ContextView { handlers: ctx@.handlers, ..self@ }),
            ctx@.handlers@ == self@.handlers@.push(handler),
    {
        let mut ctx = self;
        ctx.handlers.push(handler);
        ctx
    }

    /// Adds a handler that answers every call, accepts at most the given
    /// amount of cycles and refunds the rest.
    pub fn with_accept_cycles_handler(self, cycles: u64) -> (ctx: Self)
        ensures
            ctx@ == (ContextView { handlers: ctx@.handlers, ..self@ }),
            ctx@.handlers@.len() == self@.handlers@.len() + 1,
            ctx@.handlers@.drop_last() == self@.handlers@,
            ctx@.handlers@.last() matches Handler::Method(m) && m@ == (MethodView {
                atoms: seq![MethodAtom::ConsumeCycles(cycles)],
                ..MethodView::empty()
            }),
    {
        let m = Method::new().cycles_consume(cycles);
        proof {
            assert(m@.atoms =~= seq![MethodAtom::ConsumeCycles(cycles)]);
        }
        let ctx = self.with_handler(Handler::Method(m));
        proof {
            assert(ctx@.handlers@.drop_last() =~= self@.handlers@);
        }
        ctx
    }

    /// Adds a handler that answers every call and refunds exactly the given
    /// amount of cycles.
    pub fn with_refund_cycles_handler(self, cycles: u64) -> (ctx: Self)
        ensures
            ctx@ == (ContextView { handlers: ctx@.handlers, ..self@ }),
            ctx@.handlers@.len() == self@.handlers@.len() + 1,
            ctx@.handlers@.drop_last() == self@.handlers@,
            ctx@.handlers@.last() matches Handler::Method(m) && m@ == (MethodView {
                atoms: seq![MethodAtom::RefundCycles(cycles)],
                ..MethodView::empty()
            }),
    {
        let m = Method::new().cycles_refund(cycles);
        proof {
            assert(m@.atoms =~= seq![MethodAtom::RefundCycles(cycles)]);
        }
        let ctx = self.with_handler(Handler::Method(m));
        proof {
            assert(ctx@.handlers@.drop_last() =~= self@.handlers@);
        }
        ctx
    }

    /// Adds a handler that answers every call with the given encoded value
    /// and refunds all the cycles.
    pub fn with_constant_return_handler(self, value: Vec<u8>) -> (ctx: Self)
        ensures
            ctx@ == (ContextView { handlers: ctx@.handlers, ..self@ }),
            ctx@.handlers@.len() == self@.handlers@.len() + 1,
            ctx@.handlers@.drop_last() == self@.handlers@,
            ctx@.handlers@.last() matches Handler::Method(m) && m@ == (MethodView {
                response: Some(value@),
                ..MethodView::empty()
            }),
    {
        let m = Method::new().response(value);
        let ctx = self.with_handler(Handler::Method(m));
        proof {
            assert(ctx@.handlers@.drop_last() =~= self@.handlers@);
        }
        ctx
    }

    /// The first handler that answers a call to `method` of `canister_id`.
    fn find_handler(&self, canister_id: &Principal, method: &str) -> (r: Option<usize>)
        ensures
            match r {
                Some(k) => first_accepting(self@.handlers@, canister_id@, method@) == Some(k as int)
                    && k < self@.handlers@.len(),
                None => first_accepting(self@.handlers@, canister_id@, method@) is None,
            },
    {
        let mut i: usize = 0;
        while i < self.handlers.len()
            invariant
                i <= self.handlers@.len(),
                first_accepting(self.handlers@.take(i as int), canister_id@, method@) is None,
            decreases self.handlers@.len() - i,
        {
            proof {
                assert(self.handlers@.take(i + 1).drop_last() =~= self.handlers@.take(i as int));
            }
            if self.handlers[i].accept(canister_id, method) {
                proof {
                    lemma_first_accepting_extends(self.handlers@, canister_id@, method@, i + 1);
                }
                return Some(i);
            }
            i += 1;
        }
        proof {
            assert(self.handlers@.take(i as int) =~= self.handlers@);
        }
        None
    }

    /// Says whether a call can be made: the handler that would answer it,
    /// or why it cannot be made. A call that sends more cycles than the
    /// balance holds cannot be made, nor one that no handler answers, nor
    /// one that the handler which would answer it objects to. Nothing of
    /// the context changes and no handler is asked to answer.
    pub fn check_call(
        &self,
        canister_id: &Principal,
        method: &str,
        args_raw: &Vec<u8>,
        cycles: u64,
    ) -> (r: Result<usize, CallError>)
        ensures
            match r {
                Ok(k) => refusal(self@, canister_id@, method@, args_raw@, cycles) is None
                    && first_accepting(self@.handlers@, canister_id@, method@) == Some(k as int)
                    && k < self@.handlers@.len(),
                Err(e) => refusal(self@, canister_id@, method@, args_raw@, cycles) == Some(e),
            },
    {
        if cycles > self.balance {
            return Err(CallError::InsufficientCycles);
        }
        match self.find_handler(canister_id, method) {
            Some(k) => match self.handlers[k].check(cycles, method, args_raw, None) {
                Ok(_) => Ok(k),
                Err(e) => Err(e),
            },
            None => Err(CallError::NoHandlerFound),
        }
    }

    /// Calls the method `method` of the canister `id` with the encoded
    /// arguments `args_raw` and sends `cycles` cycles along. The cycles leave
    /// the balance; the first handler that answers the call performs it;
    /// what it refunds comes back to the balance; the call is recorded by
    /// the watcher. Where the handler gives the call up, the reason comes
    /// back instead, nothing is refunded and nothing recorded. While the
    /// handler works the context waits for the reply, and it no longer does
    /// when the call returns.
    pub fn call_raw(&mut self, id: Principal, method: &str, args_raw: Vec<u8>, cycles: u64) -> (res:
        Result<CallResult<Vec<u8>>, CallError>)
        requires
            can_call(old(self)@, id@, method@, args_raw@, cycles),
        ensures
            res is Ok ==> final(self)@.cycles_refunded <= cycles,
            call_made(old(self)@, final(self)@, id@, method@, args_raw@, cycles, res),
    {
        let k = match self.find_handler(&id, method) {
            Some(k) => k,
            None => vstd::pervasive::unreached(),
        };
        self.balance = self.balance - cycles;
        self.is_reply_callback_mode = true;
        let answer = self.handlers[k].perform(&self.id, cycles, &id, method, &args_raw, None);
        self.is_reply_callback_mode = false;
        match answer {
            Ok((outcome, refunded)) => {
                self.cycles_refunded = refunded;
                self.balance = self.balance + refunded;
                self.watcher.record_call(
                    WatcherCall::new(id, method.to_owned(), args_raw, cycles, refunded),
                );
                Ok(outcome)
            },
            Err(e) => Err(e),
        }
    }
}

} // verus!
