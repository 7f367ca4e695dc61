//! The record of what a context was asked to do.

use std::collections::BTreeSet;
use vstd::prelude::*;
use crate::principal::Principal;

verus! {

/// One outbound call as a plain value.
pub struct CallRecord {
    /// The identity that was called.
    pub canister_id: Seq<u8>,
    /// The method that was called.
    pub method_name: Seq<char>,
    /// The encoded arguments of the call.
    pub args_raw: Seq<u8>,
    /// The cycles that went out with the call.
    pub cycles_sent: u64,
    /// The cycles that came back.
    pub cycles_refunded: u64,
}

/// The operations of a context that a watcher tells apart.
#[derive(Clone, Copy, Debug, PartialEq, Eq, Structural)]
pub enum Operation {
    Id,
    Time,
    Balance,
    Caller,
    MsgCyclesAvailable,
    MsgCyclesAccept,
    MsgCyclesRefunded,
    StableStore,
    StableRestore,
    SetCertifiedData,
    DataCertificate,
}

/// A watcher as a plain value.
pub struct WatcherView {
    /// The operations that ran.
    pub called: Set<Operation>,
    /// The tags of the storage slots that were touched mutably.
    pub modified: Set<u64>,
    /// The outbound calls, oldest first.
    pub calls: Seq<CallRecord>,
}

impl CallRecord {
    /// The cycles that the callee kept.
    pub open spec fn consumed(self) -> nat {
        if self.cycles_refunded <= self.cycles_sent {
            (self.cycles_sent - self.cycles_refunded) as nat
        } else {
            0
        }
    }
}

/// The cycles sent over all the calls.
pub open spec fn total_sent(calls: Seq<CallRecord>) -> nat
    decreases calls.len(),
{
    if calls.len() == 0 {
        0
    } else {
        total_sent(calls.drop_last()) + calls.last().cycles_sent as nat
    }
}

/// The cycles refunded over all the calls.
pub open spec fn total_refunded(calls: Seq<CallRecord>) -> nat
    decreases calls.len(),
{
    if calls.len() == 0 {
        0
    } else {
        total_refunded(calls.drop_last()) + calls.last().cycles_refunded as nat
    }
}

/// The cycles that the callees kept over all the calls.
pub open spec fn total_consumed(calls: Seq<CallRecord>) -> nat
    decreases calls.len(),
{
    if calls.len() == 0 {
        0
    } else {
        total_consumed(calls.drop_last()) + calls.last().consumed()
    }
}

/// No call in the record got back more than it sent.
pub open spec fn refunds_bounded(calls: Seq<CallRecord>) -> bool {
    forall|i: int| 0 <= i < calls.len() ==> (#[trigger] calls[i]).cycles_refunded <= calls[i].cycles_sent
}

/// The totals over a prefix of a record never exceed the totals over the
/// whole record.
pub proof fn lemma_totals_monotonic(calls: Seq<CallRecord>, n: int)
    requires
        0 <= n <= calls.len(),
    ensures
        total_sent(calls.take(n)) <= total_sent(calls),
        total_refunded(calls.take(n)) <= total_refunded(calls),
        total_consumed(calls.take(n)) <= total_consumed(calls),
    decreases calls.len() - n,
{
    if n == calls.len() {
        assert(calls.take(n) =~= calls);
    } else {
        lemma_totals_monotonic(calls.drop_last(), n);
        assert(calls.drop_last().take(n) =~= calls.take(n));
    }
}

/// What is sent is what is kept plus what comes back.
pub proof fn lemma_sent_is_consumed_plus_refunded(calls: Seq<CallRecord>)
    requires
        refunds_bounded(calls),
    ensures
        total_sent(calls) == total_consumed(calls) + total_refunded(calls),
    decreases calls.len(),
{
    if calls.len() > 0 {
        lemma_sent_is_consumed_plus_refunded(calls.drop_last());
    }
}

/// One outbound call that a context made.
#[derive(Debug)]
pub struct WatcherCall {
    canister_id: Principal,
    method_name: String,
    args_raw: Vec<u8>,
    cycles_sent: u64,
    cycles_refunded: u64,
}

impl View for WatcherCall {
    type V = CallRecord;

    closed spec fn view(&self) -> CallRecord {
        CallRecord {
            canister_id: self.canister_id@,
            method_name: self.method_name@,
            args_raw: self.args_raw@,
            cycles_sent: self.cycles_sent,
            cycles_refunded: self.cycles_refunded,
        }
    }
}

impl WatcherCall {
    #[verifier::type_invariant]
    spec fn well_formed(self) -> bool {
        self.cycles_refunded <= self.cycles_sent
    }

    /// The record of a call that sent `cycles_sent` cycles and got
    /// `cycles_refunded` of them back.
    pub fn new(
        canister_id: Principal,
        method_name: String,
        args_raw: Vec<u8>,
        cycles_sent: u64,
        cycles_refunded: u64,
    ) -> (call: Self)
        requires
            cycles_refunded <= cycles_sent,
        ensures
            call@ == (CallRecord {
                canister_id: canister_id@,
                method_name: method_name@,
                args_raw: args_raw@,
                cycles_sent,
                cycles_refunded,
            }),
    {
        WatcherCall { canister_id, method_name, args_raw, cycles_sent, cycles_refunded }
    }

    /// The amount of cycles that the callee kept.
    pub fn cycles_consumed(&self) -> (cycles: u64)
        ensures
            self@.cycles_refunded <= self@.cycles_sent,
            cycles == self@.cycles_sent - self@.cycles_refunded,
    {
        proof {
            use_type_invariant(self);
        }
        self.cycles_sent - self.cycles_refunded
    }

    /// The amount of cycles sent with the call.
    pub fn cycles_sent(&self) -> (cycles: u64)
        ensures
            cycles == self@.cycles_sent,
    {
        self.cycles_sent
    }

    /// The amount of cycles that came back from the call.
    pub fn cycles_refunded(&self) -> (cycles: u64)
        ensures
            cycles == self@.cycles_refunded,
            cycles <= self@.cycles_sent,
    {
        proof {
            use_type_invariant(self);
        }
        self.cycles_refunded
    }

    /// The encoded arguments passed to the call.
    pub fn args(&self) -> (bytes: &Vec<u8>)
        ensures
            bytes@ == self@.args_raw,
    {
        &self.args_raw
    }

    /// The name of the method that was called.
    pub fn method_name(&self) -> (name: &str)
        ensures
            name@ == self@.method_name,
    {
        self.method_name.as_str()
    }

    /// The identity that was the target of the call.
    pub fn canister_id(&self) -> (id: Principal)
        ensures
            id@ == self@.canister_id,
    {
        self.canister_id.clone()
    }
}

/// A watcher tells which operations of a context ran and which outbound
/// calls it made since the watcher was last reset.
#[derive(Debug)]
pub struct Watcher {
    /// True if `id()` was called.
    pub called_id: bool,
    /// True if `time()` was called.
    pub called_time: bool,
    /// True if `balance()` was called.
    pub called_balance: bool,
    /// True if `caller()` was called.
    pub called_caller: bool,
    /// True if `msg_cycles_available()` was called.
    pub called_msg_cycles_available: bool,
    /// True if `msg_cycles_accept()` was called.
    pub called_msg_cycles_accept: bool,
    /// True if `msg_cycles_refunded()` was called.
    pub called_msg_cycles_refunded: bool,
    /// True if `stable_store()` was called.
    pub called_stable_store: bool,
    /// True if `stable_restore()` was called.
    pub called_stable_restore: bool,
    /// True if `set_certified_data()` was called.
    pub called_set_certified_data: bool,
    /// True if `data_certificate()` was called.
    pub called_data_certificate: bool,
    /// Tags of the storage slots that were touched mutably.
    pub storage_modified: BTreeSet<u64>,
    /// All the outbound calls that took place, oldest first.
    pub calls: Vec<WatcherCall>,
}

impl View for Watcher {
    type V = WatcherView;

    closed spec fn view(&self) -> WatcherView {
        WatcherView {
            called: Set::new(|op: Operation| self.ran(op)),
            modified: self.storage_modified@,
            calls: self.calls@.map_values(|c: WatcherCall| c@),
        }
    }
}

impl WatcherView {
    /// The watcher that has seen nothing.
    pub open spec fn fresh() -> WatcherView {
        WatcherView { called: Set::empty(), modified: Set::empty(), calls: Seq::empty() }
    }

    /// The watcher after the operation `op` ran.
    pub open spec fn marked(self, op: Operation) -> WatcherView {
        WatcherView { called: self.called.insert(op), ..self }
    }

    /// An operation that ran twice shows as one that ran once.
    pub proof fn lemma_marked_twice(self, op: Operation)
        ensures
            self.marked(op).marked(op) == self.marked(op),
    {
        assert(self.called.insert(op).insert(op) =~= self.called.insert(op));
    }

    /// The order in which two operations ran does not show.
    pub proof fn lemma_marked_commutes(self, a: Operation, b: Operation)
        ensures
            self.marked(a).marked(b) == self.marked(b).marked(a),
    {
        assert(self.called.insert(a).insert(b) =~= self.called.insert(b).insert(a));
    }

    /// The watcher after the slot `tag` of the storage was touched mutably.
    pub open spec fn touched(self, tag: u64) -> WatcherView {
        WatcherView { modified: self.modified.insert(tag), ..self }
    }

    /// The watcher after the call `call` was made.
    pub open spec fn recorded(self, call: CallRecord) -> WatcherView {
        WatcherView { calls: self.calls.push(call), ..self }
    }

    /// Some call in the record went to the method `method_name`.
    pub open spec fn method_called(self, method_name: Seq<char>) -> bool {
        exists|i: int| 0 <= i < self.calls.len() && (#[trigger] self.calls[i]).method_name == method_name
    }

    /// Some call in the record went to the canister `canister_id`.
    pub open spec fn canister_called(self, canister_id: Seq<u8>) -> bool {
        exists|i: int| 0 <= i < self.calls.len() && (#[trigger] self.calls[i]).canister_id == canister_id
    }

    /// Some call in the record went to the method `method_name` of the
    /// canister `canister_id`.
    pub open spec fn called(self, canister_id: Seq<u8>, method_name: Seq<char>) -> bool {
        exists|i: int|
            0 <= i < self.calls.len() && (#[trigger] self.calls[i]).canister_id == canister_id
                && self.calls[i].method_name == method_name
    }
}

impl Default for Watcher {
    fn default() -> (w: Self)
        ensures
            w@ == WatcherView::fresh(),
    {
        let w = Watcher {
            called_id: false,
            called_time: false,
            called_balance: false,
            called_caller: false,
            called_msg_cycles_available: false,
            called_msg_cycles_accept: false,
            called_msg_cycles_refunded: false,
            called_stable_store: false,
            called_stable_restore: false,
            called_set_certified_data: false,
            called_data_certificate: false,
            storage_modified: BTreeSet::new(),
            calls: Vec::with_capacity(3),
        };
        assert(w@.calls =~= Seq::empty());
        assert(w@.called =~= Set::empty());
        w
    }
}

impl Watcher {
    /// Whether the flag of the operation `op` is set.
    spec fn ran(&self, op: Operation) -> bool {
        match op {
            Operation::Id => self.called_id,
            Operation::Time => self.called_time,
            Operation::Balance => self.called_balance,
            Operation::Caller => self.called_caller,
            Operation::MsgCyclesAvailable => self.called_msg_cycles_available,
            Operation::MsgCyclesAccept => self.called_msg_cycles_accept,
            Operation::MsgCyclesRefunded => self.called_msg_cycles_refunded,
            Operation::StableStore => self.called_stable_store,
            Operation::StableRestore => self.called_stable_restore,
            Operation::SetCertifiedData => self.called_set_certified_data,
            Operation::DataCertificate => self.called_data_certificate,
        }
    }

    /// Each flag is set exactly when its operation ran.
    pub proof fn lemma_flags(&self)
        ensures
            self.called_id == self@.called.contains(Operation::Id),
            self.called_time == self@.called.contains(Operation::Time),
            self.called_balance == self@.called.contains(Operation::Balance),
            self.called_caller == self@.called.contains(Operation::Caller),
            self.called_msg_cycles_available == self@.called.contains(
                Operation::MsgCyclesAvailable,
            ),
            self.called_msg_cycles_accept == self@.called.contains(Operation::MsgCyclesAccept),
            self.called_msg_cycles_refunded == self@.called.contains(Operation::MsgCyclesRefunded),
            self.called_stable_store == self@.called.contains(Operation::StableStore),
            self.called_stable_restore == self@.called.contains(Operation::StableRestore),
            self.called_set_certified_data == self@.called.contains(Operation::SetCertifiedData),
            self.called_data_certificate == self@.called.contains(Operation::DataCertificate),
    {
    }

    /// True if the operation `op` ran.
    pub fn was_called(&self, op: Operation) -> (r: bool)
        ensures
            r == self@.called.contains(op),
    {
        match op {
            Operation::Id => self.called_id,
            Operation::Time => self.called_time,
            Operation::Balance => self.called_balance,
            Operation::Caller => self.called_caller,
            Operation::MsgCyclesAvailable => self.called_msg_cycles_available,
            Operation::MsgCyclesAccept => self.called_msg_cycles_accept,
            Operation::MsgCyclesRefunded => self.called_msg_cycles_refunded,
            Operation::StableStore => self.called_stable_store,
            Operation::StableRestore => self.called_stable_restore,
            Operation::SetCertifiedData => self.called_set_certified_data,
            Operation::DataCertificate => self.called_data_certificate,
        }
    }

    /// Notes that the operation `op` ran.
    pub fn mark(&mut self, op: Operation)
        ensures
            final(self)@ == old(self)@.marked(op),
    {
        match op {
            Operation::Id => {
                self.called_id = true;
            },
            Operation::Time => {
                self.called_time = true;
            },
            Operation::Balance => {
                self.called_balance = true;
            },
            Operation::Caller => {
                self.called_caller = true;
            },
            Operation::MsgCyclesAvailable => {
                self.called_msg_cycles_available = true;
            },
            Operation::MsgCyclesAccept => {
                self.called_msg_cycles_accept = true;
            },
            Operation::MsgCyclesRefunded => {
                self.called_msg_cycles_refunded = true;
            },
            Operation::StableStore => {
                self.called_stable_store = true;
            },
            Operation::StableRestore => {
                self.called_stable_restore = true;
            },
            Operation::SetCertifiedData => {
                self.called_set_certified_data = true;
            },
            Operation::DataCertificate => {
                self.called_data_certificate = true;
            },
        }
        assert(self@.called =~= old(self)@.called.insert(op));
    }

    /// Appends a call to the history of the watcher.
    pub fn record_call(&mut self, call: WatcherCall)
        ensures
            final(self)@ == old(self)@.recorded(call@),
    {
        self.calls.push(call);
        assert(self@.calls =~= old(self)@.calls.push(call@));
        assert(self@.called =~= old(self)@.called);
    }

    /// Marks the storage slot with the given tag as touched mutably.
    pub fn mark_modified(&mut self, tag: u64)
        ensures
            final(self)@ == old(self)@.touched(tag),
    {
        self.storage_modified.insert(tag);
        assert(self@.called =~= old(self)@.called);
    }

    /// The number of calls made.
    pub fn call_count(&self) -> (n: usize)
        ensures
            n == self@.calls.len(),
    {
        self.calls.len()
    }

    /// The n-th call made.
    pub fn get_call(&self, n: usize) -> (call: &WatcherCall)
        requires
            n < self@.calls.len(),
        ensures
            call@ == self@.calls[n as int],
    {
        &self.calls[n]
    }

    /// The total amount of cycles that the callees kept.
    pub fn cycles_consumed(&self) -> (total: u64)
        requires
            total_consumed(self@.calls) <= u64::MAX,
        ensures
            total == total_consumed(self@.calls),
    {
        let mut result: u64 = 0;
        let mut i: usize = 0;
        while i < self.calls.len()
            invariant
                i <= self.calls@.len(),
                self@.calls.len() == self.calls@.len(),
                total_consumed(self@.calls) <= u64::MAX,
                result == total_consumed(self@.calls.take(i as int)),
            decreases self.calls@.len() - i,
        {
            proof {
                lemma_totals_monotonic(self@.calls, i + 1);
                assert(self@.calls.take(i + 1).drop_last() =~= self@.calls.take(i as int));
            }
            result = result + self.calls[i].cycles_consumed();
            i += 1;
        }
        assert(self@.calls.take(i as int) =~= self@.calls);
        result
    }

    /// The total amount of cycles that came back from the calls.
    pub fn cycles_refunded(&self) -> (total: u64)
        requires
            total_refunded(self@.calls) <= u64::MAX,
        ensures
            total == total_refunded(self@.calls),
    {
        let mut result: u64 = 0;
        let mut i: usize = 0;
        while i < self.calls.len()
            invariant
                i <= self.calls@.len(),
                self@.calls.len() == self.calls@.len(),
                total_refunded(self@.calls) <= u64::MAX,
                result == total_refunded(self@.calls.take(i as int)),
            decreases self.calls@.len() - i,
        {
            proof {
                lemma_totals_monotonic(self@.calls, i + 1);
                assert(self@.calls.take(i + 1).drop_last() =~= self@.calls.take(i as int));
            }
            result = result + self.calls[i].cycles_refunded();
            i += 1;
        }
        assert(self@.calls.take(i as int) =~= self@.calls);
        result
    }

    /// The total amount of cycles sent with the calls, refunds not deduced.
    pub fn cycles_sent(&self) -> (total: u64)
        requires
            total_sent(self@.calls) <= u64::MAX,
        ensures
            total == total_sent(self@.calls),
    {
        let mut result: u64 = 0;
        let mut i: usize = 0;
        while i < self.calls.len()
            invariant
                i <= self.calls@.len(),
                self@.calls.len() == self.calls@.len(),
                total_sent(self@.calls) <= u64::MAX,
                result == total_sent(self@.calls.take(i as int)),
            decreases self.calls@.len() - i,
        {
            proof {
                lemma_totals_monotonic(self@.calls, i + 1);
                assert(self@.calls.take(i + 1).drop_last() =~= self@.calls.take(i as int));
            }
            result = result + self.calls[i].cycles_sent();
            i += 1;
        }
        assert(self@.calls.take(i as int) =~= self@.calls);
        result
    }

    /// True if the given method was called.
    pub fn is_method_called(&self, method_name: &str) -> (r: bool)
        ensures
            r == self@.method_called(method_name@),
    {
        let wanted = method_name.to_owned();
        let mut i: usize = 0;
        while i < self.calls.len()
            invariant
                i <= self.calls@.len(),
                wanted@ == method_name@,
                self@.calls.len() == self.calls@.len(),
                forall|j: int| 0 <= j < i ==> (#[trigger] self@.calls[j]).method_name != method_name@,
            decreases self.calls@.len() - i,
        {
            if self.calls[i].method_name().to_owned() == wanted {
                assert(self@.calls[i as int].method_name == method_name@);
                return true;
            }
            i += 1;
        }
        false
    }

    /// True if the given canister was called.
    pub fn is_canister_called(&self, canister_id: &Principal) -> (r: bool)
        ensures
            r == self@.canister_called(canister_id@),
    {
        let mut i: usize = 0;
        while i < self.calls.len()
            invariant
                i <= self.calls@.len(),
                self@.calls.len() == self.calls@.len(),
                forall|j: int| 0 <= j < i ==> (#[trigger] self@.calls[j]).canister_id != canister_id@,
            decreases self.calls@.len() - i,
        {
            if self.calls[i].canister_id() == *canister_id {
                assert(self@.calls[i as int].canister_id == canister_id@);
                return true;
            }
            i += 1;
        }
        false
    }

    /// True if the given method of the given canister was called.
    pub fn is_called(&self, canister_id: &Principal, method_name: &str) -> (r: bool)
        ensures
            r == self@.called(canister_id@, method_name@),
    {
        let wanted = method_name.to_owned();
        let mut i: usize = 0;
        while i < self.calls.len()
            invariant
                i <= self.calls@.len(),
                wanted@ == method_name@,
                self@.calls.len() == self.calls@.len(),
                forall|j: int|
                    0 <= j < i ==> !((#[trigger] self@.calls[j]).canister_id == canister_id@
                        && self@.calls[j].method_name == method_name@),
            decreases self.calls@.len() - i,
        {
            if self.calls[i].canister_id() == *canister_id && self.calls[i].method_name().to_owned()
                == wanted {
                assert(self@.calls[i as int].canister_id == canister_id@);
                assert(self@.calls[i as int].method_name == method_name@);
                return true;
            }
            i += 1;
        }
        false
    }

    /// True if the storage slot with the given tag was touched mutably: by
    /// `store`, `get_mut` or `delete`.
    pub fn is_modified(&self, tag: u64) -> (r: bool)
        ensures
            r == self@.modified.contains(tag),
    {
        self.storage_modified.contains(&tag)
    }
}

} // verus!
