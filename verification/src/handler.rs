//! Handlers that answer the outbound calls of a context.

use ic_cdk::api::call::CallResult;
use vstd::prelude::*;
use crate::method::{lemma_remaining_bounded, Method};
use crate::mock::{ContextView, Detached, MockContext};
use crate::principal::Principal;

verus! {

/// The code with which a call is rejected. The handlers only pass it on.
#[verifier::external_type_specification]
#[verifier::external_body]
pub struct ExRejectionCode(ic_cdk::api::call::RejectionCode);

/// Why a call cannot be made or answered.
#[derive(Clone, Copy, Debug, PartialEq, Eq, Structural)]
pub enum CallError {
    /// The call sends more cycles than the balance of the caller holds.
    InsufficientCycles,
    /// No handler answers the call.
    NoHandlerFound,
    /// The arguments of the call are not the ones that the method expects.
    UnexpectedArguments,
    /// A step of the method asks to refund more cycles than it finds.
    RefundExceedsAvailable,
    /// The balance of the context has no room for the cycles that the
    /// method accepts.
    BalanceOverflow,
    /// A canister is asked to work on a context that is not its own.
    ContextSupplied,
    /// A handler of a canister reports a refund that is not what the
    /// context of the canister has available.
    RefundMismatch,
}

/// The answer to a call: the outcome and the cycles that go back to the
/// caller.
pub type Answer = (CallResult<Vec<u8>>, u64);

/// What every target of a call can do: say whether it answers a call, say
/// whether it has an objection to a call, and answer it.
///
/// `accepts`, `verdict`, `ready` and `replies` are the model of a handler:
/// what its `accept` and its `check` return, the calls that its `perform`
/// can take, and what `perform` does with them. They are never run, so an
/// implementation that is not verified gives them any body.
pub trait CallHandler {
    /// Whether the handler answers a call to the method `method` of the
    /// canister `canister_id`.
    spec fn accepts(&self, canister_id: Seq<u8>, method: Seq<char>) -> bool;

    /// Why the handler cannot answer a call to `method` that sends `cycles`
    /// cycles with the arguments `args_raw`, on a context with the balance
    /// `within` if there is one; `None` where it has no objection.
    spec fn verdict(
        &self,
        cycles: u64,
        method: Seq<char>,
        args_raw: Seq<u8>,
        within: Option<u64>,
    ) -> Option<CallError>;

    /// Whether the handler can answer the given call, on the context `ctx`
    /// if there is one.
    spec fn ready(
        &self,
        caller: Seq<u8>,
        cycles: u64,
        canister_id: Seq<u8>,
        method: Seq<char>,
        args_raw: Seq<u8>,
        ctx: Option<ContextView<Detached>>,
    ) -> bool;

    /// What the handler does with the given call on the context `ctx`:
    /// whether `res` is its answer and `ctx_after` is the context as it
    /// leaves it.
    spec fn replies(
        &self,
        caller: Seq<u8>,
        cycles: u64,
        canister_id: Seq<u8>,
        method: Seq<char>,
        args_raw: Seq<u8>,
        ctx: Option<ContextView<Detached>>,
        res: Result<Answer, CallError>,
        ctx_after: Option<ContextView<Detached>>,
    ) -> bool;

    /// Whether the handler answers the given call. A handler that says no
    /// is passed over and the next one is asked.
    fn accept(&self, canister_id: &Principal, method: &str) -> (r: bool)
        ensures
            r == self.accepts(canister_id@, method@),
    ;

    /// Says whether the handler has an objection to the given call, and
    /// which. The call is not made.
    fn check(&self, cycles: u64, method: &str, args_raw: &Vec<u8>, within: Option<u64>) -> (r:
        Result<(), CallError>)
        ensures
            match r {
                Ok(_) => self.verdict(cycles, method@, args_raw@, within) is None,
                Err(e) => self.verdict(cycles, method@, args_raw@, within) == Some(e),
            },
    ;

    /// Answers the call: the outcome and the cycles that go back to the
    /// caller, never more than the call sent; or the reason why the call
    /// had to be given up. A context that is handed in has exactly the
    /// cycles of the call available.
    fn perform(
        &mut self,
        caller: &Principal,
        cycles: u64,
        canister_id: &Principal,
        method: &str,
        args_raw: &Vec<u8>,
        ctx: Option<&mut MockContext<Detached>>,
    ) -> (res: Result<Answer, CallError>)
        requires
            ctx is Some ==> (*ctx->0)@.cycles == cycles,
            old(self).ready(
                caller@,
                cycles,
                canister_id@,
                method@,
                args_raw@,
                match ctx {
                    Some(c) => Some((*c)@),
                    None => None,
                },
            ),
        ensures
            res matches Ok(answer) ==> answer.1 <= cycles,
            old(self).replies(
                caller@,
                cycles,
                canister_id@,
                method@,
                args_raw@,
                match ctx {
                    Some(c) => Some((*c)@),
                    None => None,
                },
                res,
                match ctx {
                    Some(c) => Some((*final(c))@),
                    None => None,
                },
            ),
    ;
}

/// A handler that a context or a canister owns.
pub enum Handler {
    /// A scripted method.
    Method(Method),
    /// A canister with methods of its own.
    Canister(Canister),
    /// Any other handler, such as one that runs a closure.
    Other(Box<dyn CallHandler>),
}

/// A method of a canister: the name it is called by and the handler that
/// answers.
pub struct Entry {
    /// The name of the method.
    pub name: String,
    /// The handler of the method.
    pub handler: Handler,
}

/// Whether no two of the entries have the same name.
pub open spec fn distinct_names(entries: Seq<Entry>) -> bool {
    forall|i: int, j: int|
        0 <= i < j < entries.len() ==> (#[trigger] entries[i]).name@ != (#[trigger] entries[j]).name@
}

/// The methods of a canister, in the order in which they were added. No
/// two have the same name.
struct Methods {
    entries: Vec<Entry>,
}

impl Methods {
    #[verifier::type_invariant]
    spec fn well_formed(self) -> bool {
        distinct_names(self.entries@)
    }

    /// No methods.
    fn new() -> (methods: Self)
        ensures
            methods.entries@ == Seq::<Entry>::empty(),
    {
        Methods { entries: Vec::new() }
    }

    /// The methods with the given entries.
    fn from_entries(entries: Vec<Entry>) -> (methods: Self)
        requires
            distinct_names(entries@),
        ensures
            methods.entries == entries,
    {
        Methods { entries }
    }

    /// The entries of the methods.
    fn into_entries(self) -> (entries: Vec<Entry>)
        ensures
            entries == self.entries,
            distinct_names(entries@),
    {
        proof {
            use_type_invariant(&self);
        }
        let Methods { entries } = self;
        entries
    }
}

/// A canister with its own identity, its own context and methods that are
/// looked up by name. It answers only calls to its own identity.
pub struct Canister {
    /// The identity of the canister.
    id: Principal,
    /// The methods of the canister. No two have the same name.
    methods: Methods,
    /// The handler of the calls that no method answers.
    default: Option<Box<Handler>>,
    /// The context of the canister, which lasts from call to call.
    context: MockContext<Detached>,
}

/// The index of the first entry with the name `method`.
pub open spec fn position(entries: Seq<Entry>, method: Seq<char>) -> Option<int>
    decreases entries.len(),
{
    if entries.len() == 0 {
        None
    } else {
        match position(entries.drop_last(), method) {
            Some(i) => Some(i),
            None => if entries.last().name@ == method {
                Some(entries.len() - 1)
            } else {
                None
            },
        }
    }
}

/// The index that `position` gives is that of an entry with the name, and
/// no entry before it has the name.
pub proof fn lemma_position(entries: Seq<Entry>, method: Seq<char>)
    ensures
        match position(entries, method) {
            Some(i) => 0 <= i < entries.len() && entries[i].name@ == method && forall|j: int|
                0 <= j < i ==> (#[trigger] entries[j]).name@ != method,
            None => forall|j: int| 0 <= j < entries.len() ==> (#[trigger] entries[j]).name@ != method,
        },
    decreases entries.len(),
{
    if entries.len() > 0 {
        lemma_position(entries.drop_last(), method);
        assert(forall|j: int|
            0 <= j < entries.len() - 1 ==> entries.drop_last()[j] == #[trigger] entries[j]);
    }
}

/// A position found in a prefix of the entries is the position in all of
/// them.
pub proof fn lemma_position_extends(entries: Seq<Entry>, method: Seq<char>, n: int)
    requires
        0 <= n <= entries.len(),
        position(entries.take(n), method) is Some,
    ensures
        position(entries, method) == position(entries.take(n), method),
    decreases entries.len() - n,
{
    if n == entries.len() {
        assert(entries.take(n) =~= entries);
    } else {
        assert(entries.drop_last().take(n) =~= entries.take(n));
        lemma_position_extends(entries.drop_last(), method, n);
    }
}

impl Canister {
    /// The identity of the canister.
    pub closed spec fn id(&self) -> Seq<u8> {
        self.id@
    }

    /// The methods of the canister, in the order in which they were added.
    pub closed spec fn entries(&self) -> Seq<Entry> {
        self.methods.entries@
    }

    /// The handler of the calls that no method answers.
    pub closed spec fn fallback(&self) -> Option<Handler> {
        match self.default {
            Some(h) => Some(*h),
            None => None,
        }
    }

    /// The context of the canister.
    pub closed spec fn state(&self) -> ContextView<Detached> {
        self.context@
    }

    /// Whether the canister has a method with the name `method`.
    pub open spec fn has_method(&self, method: Seq<char>) -> bool {
        position(self.entries(), method) is Some
    }

    /// The context that a handler of the canister works on when the call
    /// comes from `caller` with `cycles` cycles.
    pub open spec fn state_for(&self, caller: Seq<u8>, cycles: u64) -> ContextView<Detached> {
        ContextView { caller, cycles, ..self.state() }
    }

    /// The handler that answers a call to `method`: the method of that name,
    /// or the default handler where there is no such method.
    pub open spec fn target(&self, method: Seq<char>) -> Option<Handler> {
        match position(self.entries(), method) {
            Some(i) => Some(self.entries()[i].handler),
            None => self.fallback(),
        }
    }

    /// Whether the canister answers a call to `method` of `canister_id`: the
    /// identity is its own, and it has a default handler or a method of
    /// that name which answers.
    pub open spec fn accepts(&self, canister_id: Seq<u8>, method: Seq<char>) -> bool
        decreases self,
    {
        &&& self.id() == canister_id
        &&& {
            ||| self.fallback() is Some
            ||| match position(self.entries(), method) {
                Some(i) => 0 <= i < self.entries().len() && self.entries()[i].handler.accepts(
                    canister_id,
                    method,
                ),
                None => false,
            }
        }
    }

    /// Whether a call to `method` is answered by scripted methods alone.
    pub open spec fn scripted(&self, method: Seq<char>) -> bool
        decreases self,
    {
        match position(self.entries(), method) {
            Some(i) => 0 <= i < self.entries().len() && self.entries()[i].handler.scripted(method),
            None => match self.fallback() {
                Some(h) => h.scripted(method),
                None => true,
            },
        }
    }

    /// Why the canister cannot answer a call to `method`: the objection of
    /// the handler that would answer on the context of the canister, or
    /// that there is none; `None` where nothing objects.
    pub open spec fn verdict(&self, cycles: u64, method: Seq<char>, args_raw: Seq<u8>) -> Option<
        CallError,
    >
        decreases self,
    {
        match position(self.entries(), method) {
            Some(i) => if 0 <= i < self.entries().len() {
                self.entries()[i].handler.verdict(
                    cycles,
                    method,
                    args_raw,
                    Some(self.state().balance),
                )
            } else {
                None
            },
            None => match self.fallback() {
                Some(h) => h.verdict(cycles, method, args_raw, Some(self.state().balance)),
                None => Some(CallError::NoHandlerFound),
            },
        }
    }

    /// Whether the canister can answer the given call: there is a method of
    /// that name or a default handler, and it can answer on the context of
    /// the canister.
    pub open spec fn ready(
        &self,
        caller: Seq<u8>,
        cycles: u64,
        canister_id: Seq<u8>,
        method: Seq<char>,
        args_raw: Seq<u8>,
    ) -> bool
        decreases self,
    {
        match position(self.entries(), method) {
            Some(i) => 0 <= i < self.entries().len() && self.entries()[i].handler.ready(
                caller,
                cycles,
                canister_id,
                method,
                args_raw,
                Some(self.state_for(caller, cycles)),
            ),
            None => match self.fallback() {
                Some(h) => h.ready(
                    caller,
                    cycles,
                    canister_id,
                    method,
                    args_raw,
                    Some(self.state_for(caller, cycles)),
                ),
                None => false,
            },
        }
    }

    /// What a call to the canister does: the handler of the method, or the
    /// default handler where there is no such method, answers on the
    /// context of the canister, which has the caller and the cycles of the
    /// call. Where the refund of its answer is what the context has
    /// available, the answer is the answer of the canister and the context
    /// has no cycles available afterwards. Where it is not, or where the
    /// handler gave the call up, the call is given up and the context is
    /// left as the handler left it.
    pub open spec fn answers(
        &self,
        caller: Seq<u8>,
        cycles: u64,
        canister_id: Seq<u8>,
        method: Seq<char>,
        args_raw: Seq<u8>,
        res: Result<Answer, CallError>,
        after: Canister,
    ) -> bool
        decreases self, 0nat,
    {
        let before = self.state_for(caller, cycles);
        &&& after.id() == self.id()
        &&& after.entries().len() == self.entries().len()
        &&& match position(self.entries(), method) {
            Some(i) => {
                &&& 0 <= i < self.entries().len()
                &&& self.entries()[i].handler.answers_within(
                    caller,
                    cycles,
                    canister_id,
                    method,
                    args_raw,
                    before,
                    res,
                    after.state(),
                    after.entries()[i].handler,
                )
                &&& after.entries()[i].name == self.entries()[i].name
                &&& forall|j: int|
                    0 <= j < self.entries().len() && j != i ==> #[trigger] after.entries()[j]
                        == self.entries()[j]
                &&& after.fallback() == self.fallback()
            },
            None => match self.fallback() {
                Some(h) => {
                    &&& after.fallback() is Some
                    &&& h.answers_within(
                        caller,
                        cycles,
                        canister_id,
                        method,
                        args_raw,
                        before,
                        res,
                        after.state(),
                        after.fallback()->0,
                    )
                    &&& after.entries() == self.entries()
                },
                None => false,
            },
        }
    }
}

impl Handler {
    /// Whether the handler answers a call to `method` of `canister_id`.
    pub open spec fn accepts(&self, canister_id: Seq<u8>, method: Seq<char>) -> bool
        decreases self,
    {
        match self {
            Handler::Method(m) => m@.accepts(method),
            Handler::Canister(c) => c.accepts(canister_id, method),
            Handler::Other(h) => h.accepts(canister_id, method),
        }
    }

    /// Whether a call to `method` is answered by scripted methods alone.
    pub open spec fn scripted(&self, method: Seq<char>) -> bool
        decreases self,
    {
        match self {
            Handler::Method(m) => true,
            Handler::Canister(c) => c.scripted(method),
            Handler::Other(h) => false,
        }
    }

    /// Why the handler cannot answer a call to `method`, on a context with
    /// the balance `within` if there is one; `None` where it has no
    /// objection.
    pub open spec fn verdict(
        &self,
        cycles: u64,
        method: Seq<char>,
        args_raw: Seq<u8>,
        within: Option<u64>,
    ) -> Option<CallError>
        decreases self,
    {
        match self {
            Handler::Method(m) => m@.verdict(cycles, args_raw, within),
            Handler::Canister(c) => if within is Some {
                Some(CallError::ContextSupplied)
            } else {
                c.verdict(cycles, method, args_raw)
            },
            Handler::Other(h) => h.verdict(cycles, method, args_raw, within),
        }
    }

    /// Whether the handler can answer the given call, on the context `ctx`
    /// if there is one. A canister answers only on its own context.
    pub open spec fn ready(
        &self,
        caller: Seq<u8>,
        cycles: u64,
        canister_id: Seq<u8>,
        method: Seq<char>,
        args_raw: Seq<u8>,
        ctx: Option<ContextView<Detached>>,
    ) -> bool
        decreases self,
    {
        match self {
            Handler::Method(m) => m@.ready(cycles, args_raw, ctx),
            Handler::Canister(c) => ctx is None && c.ready(
                caller,
                cycles,
                canister_id,
                method,
                args_raw,
            ),
            Handler::Other(h) => {
                &&& ctx is Some ==> ctx->0.cycles == cycles
                &&& h.ready(caller, cycles, canister_id, method, args_raw, ctx)
            },
        }
    }

    /// What a call to the handler does: how the answer `res`, the context
    /// afterwards and the handler afterwards relate to the call. A scripted
    /// method gives its reply and its refund and leaves the context as its
    /// ledger says; a canister answers as a canister does; of a handler of
    /// another kind `res` is what it replies to exactly this call.
    pub open spec fn answers(
        &self,
        caller: Seq<u8>,
        cycles: u64,
        canister_id: Seq<u8>,
        method: Seq<char>,
        args_raw: Seq<u8>,
        ctx: Option<ContextView<Detached>>,
        res: Result<Answer, CallError>,
        ctx_after: Option<ContextView<Detached>>,
        after: Handler,
    ) -> bool
        decreases self, 0nat,
    {
        match self {
            Handler::Method(m) => {
                &&& after == *self
                &&& m@.replies(cycles, ctx, res, ctx_after)
            },
            Handler::Canister(c) => {
                &&& after is Canister
                &&& c.answers(caller, cycles, canister_id, method, args_raw, res, after->Canister_0)
            },
            Handler::Other(h) => {
                &&& after is Other
                &&& res matches Ok(answer) ==> answer.1 <= cycles
                &&& h.replies(caller, cycles, canister_id, method, args_raw, ctx, res, ctx_after)
            },
        }
    }

    /// What a call does that the handler answers for a canister, on the
    /// context `before` of the canister. Where the handler answers and the
    /// refund of its answer is what it left available on the context, `res`
    /// is its answer and `state`, the context of the canister afterwards,
    /// is the context as the handler left it, with no cycles available.
    /// Where the refund is something else the call is given up with
    /// `RefundMismatch`, and where the handler gave it up, with the reason
    /// of the handler; `state` is then the context as the handler left it.
    /// Only a handler of another kind than a scripted method or a canister
    /// can bring this about.
    pub open spec fn answers_within(
        &self,
        caller: Seq<u8>,
        cycles: u64,
        canister_id: Seq<u8>,
        method: Seq<char>,
        args_raw: Seq<u8>,
        before: ContextView<Detached>,
        res: Result<Answer, CallError>,
        state: ContextView<Detached>,
        after: Handler,
    ) -> bool
        decreases self, 1nat,
    {
        match res {
            Ok(answer) => {
                &&& state.cycles == 0
                &&& self.answers(
                    caller,
                    cycles,
                    canister_id,
                    method,
                    args_raw,
                    Some(before),
                    res,
                    Some(ContextView { cycles: answer.1, ..state }),
                    after,
                )
            },
            Err(e) => match self {
                Handler::Other(h) => {
                    &&& after is Other
                    &&& exists|inner: Result<Answer, CallError>|
                        {
                            &&& #[trigger] h.replies(
                                caller,
                                cycles,
                                canister_id,
                                method,
                                args_raw,
                                Some(before),
                                inner,
                                Some(state),
                            )
                            &&& match inner {
                                Ok(answer) => answer.1 != state.cycles && e
                                    == CallError::RefundMismatch,
                                Err(reason) => reason == e,
                            }
                        }
                },
                _ => false,
            },
        }
    }

    /// A handler that was ready for a call and has answered it refunds no
    /// more cycles than the call sent.
    pub proof fn lemma_refund_bounded(
        &self,
        caller: Seq<u8>,
        cycles: u64,
        canister_id: Seq<u8>,
        method: Seq<char>,
        args_raw: Seq<u8>,
        ctx: Option<ContextView<Detached>>,
        res: Result<Answer, CallError>,
        ctx_after: Option<ContextView<Detached>>,
        after: Handler,
    )
        requires
            self.ready(caller, cycles, canister_id, method, args_raw, ctx),
            self.answers(caller, cycles, canister_id, method, args_raw, ctx, res, ctx_after, after),
        ensures
            res matches Ok(answer) ==> answer.1 <= cycles,
        decreases self,
    {
        match self {
            Handler::Method(m) => {
                lemma_remaining_bounded(m@.atoms, cycles);
            },
            Handler::Canister(c) => {
                if let Ok(answer) = res {
                    let inner = Some(c.state_for(caller, cycles));
                    let c2 = after->Canister_0;
                    let left = Some(ContextView { cycles: answer.1, ..c2.state() });
                    match position(c.entries(), method) {
                        Some(i) => {
                            lemma_position(c.entries(), method);
                            c.entries()[i].handler.lemma_refund_bounded(
                                caller,
                                cycles,
                                canister_id,
                                method,
                                args_raw,
                                inner,
                                res,
                                left,
                                c2.entries()[i].handler,
                            );
                        },
                        None => match c.fallback() {
                            Some(h) => {
                                h.lemma_refund_bounded(
                                    caller,
                                    cycles,
                                    canister_id,
                                    method,
                                    args_raw,
                                    inner,
                                    res,
                                    left,
                                    c2.fallback()->0,
                                );
                            },
                            None => {},
                        },
                    }
                }
            },
            Handler::Other(h) => {},
        }
    }

    /// A handler that was ready for a call which scripted methods alone
    /// answer does answer it: the call is not given up.
    pub proof fn lemma_scripted_answers(
        &self,
        caller: Seq<u8>,
        cycles: u64,
        canister_id: Seq<u8>,
        method: Seq<char>,
        args_raw: Seq<u8>,
        ctx: Option<ContextView<Detached>>,
        res: Result<Answer, CallError>,
        ctx_after: Option<ContextView<Detached>>,
        after: Handler,
    )
        requires
            self.scripted(method),
            self.ready(caller, cycles, canister_id, method, args_raw, ctx),
            self.answers(caller, cycles, canister_id, method, args_raw, ctx, res, ctx_after, after),
        ensures
            res is Ok,
            ctx is Some ==> ctx_after is Some && ctx_after->0.cycles == res->Ok_0.1,
        decreases self,
    {
        match self {
            Handler::Method(m) => {},
            Handler::Canister(c) => {
                let before = c.state_for(caller, cycles);
                let c2 = after->Canister_0;
                lemma_position(c.entries(), method);
                match position(c.entries(), method) {
                    Some(i) => {
                        c.entries()[i].handler.lemma_scripted_within(
                            caller,
                            cycles,
                            canister_id,
                            method,
                            args_raw,
                            before,
                            res,
                            c2.state(),
                            c2.entries()[i].handler,
                        );
                    },
                    None => match c.fallback() {
                        Some(h) => {
                            h.lemma_scripted_within(
                                caller,
                                cycles,
                                canister_id,
                                method,
                                args_raw,
                                before,
                                res,
                                c2.state(),
                                c2.fallback()->0,
                            );
                        },
                        None => {},
                    },
                }
            },
            Handler::Other(h) => {},
        }
    }

    /// A canister does not give up a call that scripted methods alone
    /// answer for it.
    pub proof fn lemma_scripted_within(
        &self,
        caller: Seq<u8>,
        cycles: u64,
        canister_id: Seq<u8>,
        method: Seq<char>,
        args_raw: Seq<u8>,
        before: ContextView<Detached>,
        res: Result<Answer, CallError>,
        state: ContextView<Detached>,
        after: Handler,
    )
        requires
            self.scripted(method),
            self.ready(caller, cycles, canister_id, method, args_raw, Some(before)),
            self.answers_within(
                caller,
                cycles,
                canister_id,
                method,
                args_raw,
                before,
                res,
                state,
                after,
            ),
        ensures
            res is Ok,
    {
    }

    /// Where scripted methods alone answer a call, the handler can answer
    /// it exactly when it has no objection to it.
    pub proof fn lemma_verdict(
        &self,
        caller: Seq<u8>,
        cycles: u64,
        canister_id: Seq<u8>,
        method: Seq<char>,
        args_raw: Seq<u8>,
        ctx: Option<ContextView<Detached>>,
    )
        requires
            ctx is Some ==> ctx->0.cycles == cycles,
            self.scripted(method),
        ensures
            ({
                let within = match ctx {
                    Some(c) => Some(c.balance),
                    None => None,
                };
                self.ready(caller, cycles, canister_id, method, args_raw, ctx) <==> self.verdict(
                    cycles,
                    method,
                    args_raw,
                    within,
                ) is None
            }),
        decreases self,
    {
        match self {
            Handler::Method(m) => {},
            Handler::Canister(c) => {
                if ctx is None {
                    let inner = Some(c.state_for(caller, cycles));
                    match position(c.entries(), method) {
                        Some(i) => {
                            lemma_position(c.entries(), method);
                            c.entries()[i].handler.lemma_verdict(
                                caller,
                                cycles,
                                canister_id,
                                method,
                                args_raw,
                                inner,
                            );
                        },
                        None => match c.fallback() {
                            Some(h) => {
                                h.lemma_verdict(caller, cycles, canister_id, method, args_raw, inner);
                            },
                            None => {},
                        },
                    }
                }
            },
            Handler::Other(h) => {},
        }
    }
}

impl Canister {
    /// A canister with the given identity and a new context, without
    /// methods.
    pub fn new(id: Principal) -> (c: Self)
        ensures
            c.id() == id@,
            c.entries() == Seq::<Entry>::empty(),
            c.fallback() is None,
            c.state() == (ContextView { id: id@, ..ContextView::fresh(Detached) }),
    {
        let context = MockContext::with_chain(Detached).with_id(id.clone());
        Canister { id, methods: Methods::new(), default: None, context }
    }

    /// The context of the canister.
    pub fn context(&self) -> (ctx: &MockContext<Detached>)
        ensures
            ctx@ == self.state(),
    {
        &self.context
    }

    /// The context of the canister, for changing it.
    pub fn context_mut(&mut self) -> (ctx: &mut MockContext<Detached>)
        ensures
            ctx@ == old(self).state(),
            final(self).state() == final(ctx)@,
            final(self).id() == old(self).id(),
            final(self).entries() == old(self).entries(),
            final(self).fallback() == old(self).fallback(),
    {
        &mut self.context
    }

    /// Sets the balance of the canister.
    pub fn with_balance(self, cycles: u64) -> (c: Self)
        ensures
            c.id() == self.id(),
            c.entries() == self.entries(),
            c.fallback() == self.fallback(),
            c.state() == (ContextView { balance: cycles, ..self.state() }),
    {
        let mut c = self;
        c.context.update_balance(cycles);
        c
    }

    /// Adds a method to the canister. A name is given to one method only.
    pub fn method(self, name: &str, handler: Handler) -> (c: Self)
        requires
            !self.has_method(name@),
        ensures
            c.id() == self.id(),
            c.entries() == self.entries().push(Entry { name: c.entries().last().name, handler }),
            c.entries().last().name@ == name@,
            c.fallback() == self.fallback(),
            c.state() == self.state(),
            c.has_method(name@),
            distinct_names(c.entries()),
    {
        let Canister { id, methods, default, context } = self;
        let mut entries = methods.into_entries();
        let ghost before = entries@;
        entries.push(Entry { name: name.to_owned(), handler });
        proof {
            assert(entries@.drop_last() =~= before);
            lemma_position(before, name@);
            assert forall|i: int, j: int| 0 <= i < j < entries@.len() implies (
            #[trigger] entries@[i]).name@ != (#[trigger] entries@[j]).name@ by {
                if j < before.len() {
                    assert(entries@[i] == before[i] && entries@[j] == before[j]);
                } else {
                    assert(entries@[i] == before[i]);
                }
            }
        }
        Canister { id, methods: Methods::from_entries(entries), default, context }
    }

    /// Whether the canister has a method with the given name. There is at
    /// most one.
    pub fn contains_method(&self, name: &str) -> (r: bool)
        ensures
            r == self.has_method(name@),
            distinct_names(self.entries()),
    {
        proof {
            use_type_invariant(&self.methods);
        }
        self.find(name).is_some()
    }

    /// Whether the canister has a handler for the calls that no method
    /// answers.
    pub fn has_default(&self) -> (r: bool)
        ensures
            r == self.fallback() is Some,
    {
        self.default.is_some()
    }

    /// Sets the handler of the calls that no method answers. There is at
    /// most one.
    pub fn or(self, handler: Handler) -> (c: Self)
        requires
            self.fallback() is None,
        ensures
            c.id() == self.id(),
            c.entries() == self.entries(),
            c.fallback() == Some(handler),
            c.state() == self.state(),
    {
        let mut c = self;
        c.default = Some(Box::new(handler));
        c
    }

    /// The index of the method with the given name.
    fn find(&self, method: &str) -> (r: Option<usize>)
        ensures
            match r {
                Some(i) => position(self.entries(), method@) == Some(i as int) && i
                    < self.entries().len(),
                None => position(self.entries(), method@) is None,
            },
    {
        let wanted = method.to_owned();
        let mut i: usize = 0;
        while i < self.methods.entries.len()
            invariant
                i <= self.methods.entries@.len(),
                wanted@ == method@,
                position(self.methods.entries@.take(i as int), method@) is None,
            decreases self.methods.entries@.len() - i,
        {
            proof {
                assert(self.methods.entries@.take(i + 1).drop_last() =~= self.methods.entries@.take(i as int));
            }
            if self.methods.entries[i].name == wanted {
                proof {
                    lemma_position_extends(self.methods.entries@, method@, i + 1);
                }
                return Some(i);
            }
            i += 1;
        }
        proof {
            assert(self.methods.entries@.take(i as int) =~= self.methods.entries@);
        }
        None
    }

    /// Whether the canister answers a call to `method` of `canister_id`.
    pub fn accept(&self, canister_id: &Principal, method: &str) -> (r: bool)
        ensures
            r == self.accepts(canister_id@, method@),
        decreases self,
    {
        if !(self.id == *canister_id) {
            return false;
        }
        if self.default.is_some() {
            return true;
        }
        match self.find(method) {
            Some(i) => self.methods.entries[i].handler.accept(canister_id, method),
            None => false,
        }
    }

    /// Says whether the canister has an objection to a call to `method` that
    /// sends `cycles` cycles with the arguments `args_raw`, and which: the
    /// objection of the handler that would answer it, or that there is
    /// none.
    pub fn check(&self, cycles: u64, method: &str, args_raw: &Vec<u8>) -> (r: Result<(), CallError>)
        ensures
            match r {
                Ok(_) => self.verdict(cycles, method@, args_raw@) is None,
                Err(e) => self.verdict(cycles, method@, args_raw@) == Some(e),
            },
        decreases self,
    {
        let within = Some(self.context.peek_balance());
        match self.find(method) {
            Some(i) => self.methods.entries[i].handler.check(cycles, method, args_raw, within),
            None => match &self.default {
                Some(h) => h.check(cycles, method, args_raw, within),
                None => Err(CallError::NoHandlerFound),
            },
        }
    }

    /// Answers a call on the context of the canister. The context gets the
    /// caller and the cycles of the call; the handler of the method, or the
    /// default handler where there is no such method, answers on it. The
    /// refund that the handler reports must be what it left available on
    /// the context: then the context has no cycles available any more and
    /// the answer of the handler is the answer of the canister. Otherwise
    /// the call is given up with `RefundMismatch`. A canister works on no
    /// context but its own.
    pub fn perform(
        &mut self,
        caller: &Principal,
        cycles: u64,
        canister_id: &Principal,
        method: &str,
        args_raw: &Vec<u8>,
        ctx: Option<&mut MockContext<Detached>>,
    ) -> (res: Result<Answer, CallError>)
        requires
            ctx is None,
            old(self).ready(caller@, cycles, canister_id@, method@, args_raw@),
        ensures
            res matches Ok(answer) ==> answer.1 <= cycles,
            old(self).answers(
                caller@,
                cycles,
                canister_id@,
                method@,
                args_raw@,
                res,
                *final(self),
            ),
        decreases *old(self),
    {
        self.context.update_caller(caller.clone());
        self.context.update_msg_cycles(cycles);
        let inner = match self.find(method) {
            Some(i) => {
                let mut taken = Methods::new();
                core::mem::swap(&mut self.methods, &mut taken);
                let mut entries = taken.into_entries();
                let ghost before = entries@;
                let inner = entries[i].handler.perform(
                    caller,
                    cycles,
                    canister_id,
                    method,
                    args_raw,
                    Some(&mut self.context),
                );
                proof {
                    assert forall|a: int, b: int| 0 <= a < b < entries@.len() implies (
                    #[trigger] entries@[a]).name@ != (#[trigger] entries@[b]).name@ by {
                        assert(entries@[a].name == before[a].name);
                        assert(entries@[b].name == before[b].name);
                    }
                }
                self.methods = Methods::from_entries(entries);
                inner
            },
            None => match &mut self.default {
                Some(h) => h.perform(
                    caller,
                    cycles,
                    canister_id,
                    method,
                    args_raw,
                    Some(&mut self.context),
                ),
                None => vstd::pervasive::unreached(),
            },
        };
        let ghost mid = self.state();
        proof {
            let before = old(self).state_for(caller@, cycles);
            lemma_position(old(self).entries(), method@);
            match position(old(self).entries(), method@) {
                Some(i) => {
                    assert(old(self).entries()[i].handler.answers(
                        caller@,
                        cycles,
                        canister_id@,
                        method@,
                        args_raw@,
                        Some(before),
                        inner,
                        Some(self.state()),
                        self.entries()[i].handler,
                    ));
                },
                None => {
                    assert(old(self).fallback()->0.answers(
                        caller@,
                        cycles,
                        canister_id@,
                        method@,
                        args_raw@,
                        Some(before),
                        inner,
                        Some(self.state()),
                        self.fallback()->0,
                    ));
                },
            }
        }
        let res = match inner {
            Ok(answer) => {
                if answer.1 != self.context.peek_msg_cycles() {
                    Err(CallError::RefundMismatch)
                } else {
                    self.context.update_msg_cycles(0);
                    Ok(answer)
                }
            },
            Err(e) => Err(e),
        };
        proof {
            let before = old(self).state_for(caller@, cycles);
            let (sub, sub_after) = match position(old(self).entries(), method@) {
                Some(i) => (old(self).entries()[i].handler, self.entries()[i].handler),
                None => (old(self).fallback()->0, self.fallback()->0),
            };
            assert(sub.answers(
                caller@,
                cycles,
                canister_id@,
                method@,
                args_raw@,
                Some(before),
                inner,
                Some(mid),
                sub_after,
            ));
            if res is Ok {
                assert(inner == res);
                assert(mid == (ContextView { cycles: res->Ok_0.1, ..self.state() }));
                assert(self.state().cycles == 0);
                assert(sub.answers_within(
                    caller@,
                    cycles,
                    canister_id@,
                    method@,
                    args_raw@,
                    before,
                    res,
                    self.state(),
                    sub_after,
                ));
            } else {
                assert(self.state() == mid);
                assert(match inner {
                    Ok(answer) => answer.1 != mid.cycles && res->Err_0 == CallError::RefundMismatch,
                    Err(reason) => reason == res->Err_0,
                });
                assert(sub is Other);
                match sub {
                    Handler::Other(h) => {
                        assert(h.replies(
                            caller@,
                            cycles,
                            canister_id@,
                            method@,
                            args_raw@,
                            Some(before),
                            inner,
                            Some(mid),
                        ));
                    },
                    _ => {},
                }
            }
            assert(sub.answers_within(
                caller@,
                cycles,
                canister_id@,
                method@,
                args_raw@,
                before,
                res,
                self.state(),
                sub_after,
            ));
        }
        res
    }

    /// A scripted method of the canister answers the call, and what it does
    /// not refund of the cycles of the call is in the balance of the
    /// canister afterwards. Nothing else of the canister has changed but
    /// the caller it remembers and what its watcher has seen.
    pub proof fn lemma_accepted_cycles_reach_balance(
        &self,
        after: Canister,
        caller: Seq<u8>,
        cycles: u64,
        canister_id: Seq<u8>,
        method: Seq<char>,
        args_raw: Seq<u8>,
        res: Result<Answer, CallError>,
    )
        requires
            self.target(method) matches Some(Handler::Method(_)),
            self.ready(caller, cycles, canister_id, method, args_raw),
            self.answers(caller, cycles, canister_id, method, args_raw, res, after),
        ensures
            res is Ok,
            self.target(method) matches Some(Handler::Method(m)) && {
                let answer = res->Ok_0;
                &&& answer.1 <= cycles
                &&& Some(answer.1) == m@.refund(cycles)
                &&& answer.0 matches Ok(bytes) && bytes@ == m@.reply()
                &&& after.state() == (ContextView {
                    caller,
                    cycles: 0,
                    balance: (self.state().balance + cycles - answer.1) as u64,
                    watcher: m@.watched(self.state().watcher),
                    ..self.state()
                })
                &&& after.state().balance == self.state().balance + cycles - answer.1
            },
            after.entries() == self.entries(),
            after.fallback() == self.fallback(),
    {
        lemma_position(self.entries(), method);
        let before = self.state_for(caller, cycles);
        match self.target(method) {
            Some(Handler::Method(m)) => {
                lemma_remaining_bounded(m@.atoms, cycles);
                match position(self.entries(), method) {
                    Some(i) => {
                        self.entries()[i].handler.lemma_scripted_within(
                            caller,
                            cycles,
                            canister_id,
                            method,
                            args_raw,
                            before,
                            res,
                            after.state(),
                            after.entries()[i].handler,
                        );
                        assert(after.entries() =~= self.entries());
                    },
                    None => {
                        self.fallback()->0.lemma_scripted_within(
                            caller,
                            cycles,
                            canister_id,
                            method,
                            args_raw,
                            before,
                            res,
                            after.state(),
                            after.fallback()->0,
                        );
                    },
                }
            },
            _ => {},
        }
    }
}

impl Handler {
    /// Whether the handler answers a call to `method` of `canister_id`.
    pub fn accept(&self, canister_id: &Principal, method: &str) -> (r: bool)
        ensures
            r == self.accepts(canister_id@, method@),
        decreases self,
    {
        match self {
            Handler::Method(m) => m.accept(canister_id, method),
            Handler::Canister(c) => c.accept(canister_id, method),
            Handler::Other(h) => h.accept(canister_id, method),
        }
    }

    /// Says whether the handler has an objection to a call to `method` that
    /// sends `cycles` cycles with the arguments `args_raw`, on a context
    /// with the balance `within` if there is one, and which.
    pub fn check(&self, cycles: u64, method: &str, args_raw: &Vec<u8>, within: Option<u64>) -> (r:
        Result<(), CallError>)
        ensures
            match r {
                Ok(_) => self.verdict(cycles, method@, args_raw@, within) is None,
                Err(e) => self.verdict(cycles, method@, args_raw@, within) == Some(e),
            },
        decreases self,
    {
        match self {
            Handler::Method(m) => m.check(cycles, args_raw, within),
            Handler::Canister(c) => if within.is_some() {
                Err(CallError::ContextSupplied)
            } else {
                c.check(cycles, method, args_raw)
            },
            Handler::Other(h) => h.check(cycles, method, args_raw, within),
        }
    }

    /// Answers a call: the outcome and the cycles that go back to the
    /// caller, never more than the call sent; or the reason why the call
    /// was given up.
    pub fn perform(
        &mut self,
        caller: &Principal,
        cycles: u64,
        canister_id: &Principal,
        method: &str,
        args_raw: &Vec<u8>,
        ctx: Option<&mut MockContext<Detached>>,
    ) -> (res: Result<Answer, CallError>)
        requires
            old(self).ready(
                caller@,
                cycles,
                canister_id@,
                method@,
                args_raw@,
                match ctx {
                    Some(c) => Some((*c)@),
                    None => None,
                },
            ),
        ensures
            res matches Ok(answer) ==> answer.1 <= cycles,
            old(self).answers(
                caller@,
                cycles,
                canister_id@,
                method@,
                args_raw@,
                match ctx {
                    Some(c) => Some((*c)@),
                    None => None,
                },
                res,
                match ctx {
                    Some(c) => Some((*final(c))@),
                    None => None,
                },
                *final(self),
            ),
        decreases *old(self),
    {
        match self {
            Handler::Method(m) => Ok(
                Method::perform(m, caller, cycles, canister_id, method, args_raw, ctx),
            ),
            Handler::Canister(c) => c.perform(caller, cycles, canister_id, method, args_raw, ctx),
            Handler::Other(h) => h.perform(caller, cycles, canister_id, method, args_raw, ctx),
        }
    }
}

impl CallHandler for Method {
    open spec fn accepts(&self, canister_id: Seq<u8>, method: Seq<char>) -> bool {
        self@.accepts(method)
    }

    open spec fn verdict(
        &self,
        cycles: u64,
        method: Seq<char>,
        args_raw: Seq<u8>,
        within: Option<u64>,
    ) -> Option<CallError> {
        self@.verdict(cycles, args_raw, within)
    }

    open spec fn ready(
        &self,
        caller: Seq<u8>,
        cycles: u64,
        canister_id: Seq<u8>,
        method: Seq<char>,
        args_raw: Seq<u8>,
        ctx: Option<ContextView<Detached>>,
    ) -> bool {
        self@.ready(cycles, args_raw, ctx)
    }

    open spec fn replies(
        &self,
        caller: Seq<u8>,
        cycles: u64,
        canister_id: Seq<u8>,
        method: Seq<char>,
        args_raw: Seq<u8>,
        ctx: Option<ContextView<Detached>>,
        res: Result<Answer, CallError>,
        ctx_after: Option<ContextView<Detached>>,
    ) -> bool {
        self@.replies(cycles, ctx, res, ctx_after)
    }

    fn accept(&self, canister_id: &Principal, method: &str) -> (r: bool) {
        Method::accept(self, canister_id, method)
    }

    fn check(&self, cycles: u64, method: &str, args_raw: &Vec<u8>, within: Option<u64>) -> (r:
        Result<(), CallError>) {
        Method::check(self, cycles, args_raw, within)
    }

    /// Answers the call as the method's own `perform` does, and hands the
    /// method back unchanged.
    fn perform(
        &mut self,
        caller: &Principal,
        cycles: u64,
        canister_id: &Principal,
        method: &str,
        args_raw: &Vec<u8>,
        ctx: Option<&mut MockContext<Detached>>,
    ) -> (res: Result<Answer, CallError>)
        ensures
            *final(self) == *old(self),
    {
        Ok(Method::perform(self, caller, cycles, canister_id, method, args_raw, ctx))
    }
}

impl CallHandler for Canister {
    open spec fn accepts(&self, canister_id: Seq<u8>, method: Seq<char>) -> bool {
        Canister::accepts(self, canister_id, method)
    }

    open spec fn verdict(
        &self,
        cycles: u64,
        method: Seq<char>,
        args_raw: Seq<u8>,
        within: Option<u64>,
    ) -> Option<CallError> {
        if within is Some {
            Some(CallError::ContextSupplied)
        } else {
            Canister::verdict(self, cycles, method, args_raw)
        }
    }

    open spec fn ready(
        &self,
        caller: Seq<u8>,
        cycles: u64,
        canister_id: Seq<u8>,
        method: Seq<char>,
        args_raw: Seq<u8>,
        ctx: Option<ContextView<Detached>>,
    ) -> bool {
        ctx is None && Canister::ready(self, caller, cycles, canister_id, method, args_raw)
    }

    open spec fn replies(
        &self,
        caller: Seq<u8>,
        cycles: u64,
        canister_id: Seq<u8>,
        method: Seq<char>,
        args_raw: Seq<u8>,
        ctx: Option<ContextView<Detached>>,
        res: Result<Answer, CallError>,
        ctx_after: Option<ContextView<Detached>>,
    ) -> bool {
        exists|after: Canister| #[trigger]
            Canister::answers(self, caller, cycles, canister_id, method, args_raw, res, after)
    }

    fn accept(&self, canister_id: &Principal, method: &str) -> (r: bool) {
        Canister::accept(self, canister_id, method)
    }

    fn check(&self, cycles: u64, method: &str, args_raw: &Vec<u8>, within: Option<u64>) -> (r:
        Result<(), CallError>) {
        if within.is_some() {
            Err(CallError::ContextSupplied)
        } else {
            Canister::check(self, cycles, method, args_raw)
        }
    }

    /// Answers a call on the context of the canister, as the canister's own
    /// `perform` does: the handler of the method, or the default handler
    /// where there is no such method, answers on the context of the
    /// canister with the caller and the cycles of the call.
    fn perform(
        &mut self,
        caller: &Principal,
        cycles: u64,
        canister_id: &Principal,
        method: &str,
        args_raw: &Vec<u8>,
        ctx: Option<&mut MockContext<Detached>>,
    ) -> (res: Result<Answer, CallError>)
        ensures
            old(self).answers(
                caller@,
                cycles,
                canister_id@,
                method@,
                args_raw@,
                res,
                *final(self),
            ),
    {
        Canister::perform(self, caller, cycles, canister_id, method, args_raw, ctx)
    }
}

impl CallHandler for Handler {
    open spec fn accepts(&self, canister_id: Seq<u8>, method: Seq<char>) -> bool {
        Handler::accepts(self, canister_id, method)
    }

    open spec fn verdict(
        &self,
        cycles: u64,
        method: Seq<char>,
        args_raw: Seq<u8>,
        within: Option<u64>,
    ) -> Option<CallError> {
        Handler::verdict(self, cycles, method, args_raw, within)
    }

    open spec fn ready(
        &self,
        caller: Seq<u8>,
        cycles: u64,
        canister_id: Seq<u8>,
        method: Seq<char>,
        args_raw: Seq<u8>,
        ctx: Option<ContextView<Detached>>,
    ) -> bool {
        Handler::ready(self, caller, cycles, canister_id, method, args_raw, ctx)
    }

    open spec fn replies(
        &self,
        caller: Seq<u8>,
        cycles: u64,
        canister_id: Seq<u8>,
        method: Seq<char>,
        args_raw: Seq<u8>,
        ctx: Option<ContextView<Detached>>,
        res: Result<Answer, CallError>,
        ctx_after: Option<ContextView<Detached>>,
    ) -> bool {
        exists|after: Handler| #[trigger]
            Handler::answers(
                self,
                caller,
                cycles,
                canister_id,
                method,
                args_raw,
                ctx,
                res,
                ctx_after,
                after,
            )
    }

    fn accept(&self, canister_id: &Principal, method: &str) -> (r: bool) {
        Handler::accept(self, canister_id, method)
    }

    fn check(&self, cycles: u64, method: &str, args_raw: &Vec<u8>, within: Option<u64>) -> (r:
        Result<(), CallError>) {
        Handler::check(self, cycles, method, args_raw, within)
    }

    /// Answers a call as the handler's own `perform` does.
    fn perform(
        &mut self,
        caller: &Principal,
        cycles: u64,
        canister_id: &Principal,
        method: &str,
        args_raw: &Vec<u8>,
        ctx: Option<&mut MockContext<Detached>>,
    ) -> (res: Result<Answer, CallError>)
        ensures
            old(self).answers(
                caller@,
                cycles,
                canister_id@,
                method@,
                args_raw@,
                match ctx {
                    Some(c) => Some((*c)@),
                    None => None,
                },
                res,
                match ctx {
                    Some(c) => Some((*final(c))@),
                    None => None,
                },
                *final(self),
            ),
    {
        Handler::perform(self, caller, cycles, canister_id, method, args_raw, ctx)
    }
}

} // verus!
