//! Handlers that leave the answer to a closure.

use ic_cdk::api::call::CallResult;
use vstd::prelude::*;
use crate::handler::{Answer, CallError, CallHandler};
use crate::mock::{ContextView, Detached, MockContext};
use crate::principal::Principal;
use crate::watcher::Operation;

verus! {

/// A handler that accepts every call and leaves the answer to a closure.
/// The closure takes the context to work on, the encoded arguments, the
/// identity that is called and the name of the method, and gives back the
/// context and the outcome.
pub struct RawHandler<F> {
    handler: F,
}

impl<F> RawHandler<F> {
    /// The closure of the handler.
    pub closed spec fn closure(&self) -> F {
        self.handler
    }
}

/// The context that a closure gets where the call brings none: the defaults
/// with the caller, the cycles and the identity of the call.
pub open spec fn context_of_call(caller: Seq<u8>, cycles: u64, canister_id: Seq<u8>) -> ContextView<
    Detached,
> {
    ContextView { id: canister_id, caller, cycles, ..ContextView::fresh(Detached) }
}

impl<
    F: Fn(MockContext<Detached>, &Vec<u8>, &Principal, &str) -> (
        MockContext<Detached>,
        CallResult<Vec<u8>>,
    ),
> RawHandler<F> {
    /// A handler that answers with the given closure.
    pub fn raw(handler: F) -> (h: Self)
        ensures
            h.closure() == handler,
    {
        RawHandler { handler }
    }

    /// Whether the handler can answer a call on the context `before`: the
    /// closure can be called with it, and never gives back a context with
    /// more cycles available than the call sent.
    pub open spec fn can_answer(
        &self,
        before: ContextView<Detached>,
        cycles: u64,
        canister_id: Seq<u8>,
        method: Seq<char>,
        args_raw: Seq<u8>,
    ) -> bool {
        &&& forall|c: MockContext<Detached>, a: &Vec<u8>, id: &Principal, m: &str|
            c@ == before && a@ == args_raw && id@ == canister_id && m@ == method
                ==> #[trigger] call_requires(self.closure(), (c, a, id, m))
        &&& forall|
            c: MockContext<Detached>,
            a: &Vec<u8>,
            id: &Principal,
            m: &str,
            out: (MockContext<Detached>, CallResult<Vec<u8>>),
        |
            c@ == before && a@ == args_raw && id@ == canister_id && m@ == method
                && #[trigger] call_ensures(self.closure(), (c, a, id, m), out) ==> out.0@.cycles
                <= cycles
    }

    /// What a call to the handler on the context `before` does: the closure
    /// gives the outcome, what its context has available is the refund, and
    /// `after` is its context once the refund was read.
    pub open spec fn answers(
        &self,
        before: ContextView<Detached>,
        canister_id: Seq<u8>,
        method: Seq<char>,
        args_raw: Seq<u8>,
        res: (CallResult<Vec<u8>>, u64),
        after: ContextView<Detached>,
    ) -> bool {
        exists|
            given: MockContext<Detached>,
            a: &Vec<u8>,
            id: &Principal,
            m: &str,
            left: MockContext<Detached>,
        |
            {
                &&& given@ == before && a@ == args_raw && id@ == canister_id && m@ == method
                &&& #[trigger] call_ensures(self.closure(), (given, a, id, m), (left, res.0))
                &&& res.1 == left@.cycles
                &&& after == (ContextView {
                    watcher: left@.watcher.marked(Operation::MsgCyclesAvailable),
                    ..left@
                })
            }
    }

    /// What a call to the handler does on a context of its own, which is
    /// dropped after the call: the closure gives the outcome, and what its
    /// context has available is the refund.
    pub open spec fn answers_alone(
        &self,
        before: ContextView<Detached>,
        canister_id: Seq<u8>,
        method: Seq<char>,
        args_raw: Seq<u8>,
        res: (CallResult<Vec<u8>>, u64),
    ) -> bool {
        exists|after: ContextView<Detached>| #[trigger]
            self.answers(before, canister_id, method, args_raw, res, after)
    }

    /// Whether the handler answers a call: it answers every call.
    pub fn accept(&self, canister_id: &Principal, method: &str) -> (r: bool)
        ensures
            r,
    {
        true
    }

    /// Answers a call with the closure, on `ctx` where one is given and
    /// otherwise on a context with the defaults and the caller, the cycles
    /// and the identity of the call. What the context has available when
    /// the closure is done is the refund.
    pub fn perform(
        &self,
        caller: &Principal,
        cycles: u64,
        canister_id: &Principal,
        method: &str,
        args_raw: &Vec<u8>,
        ctx: Option<&mut MockContext<Detached>>,
    ) -> (res: (CallResult<Vec<u8>>, u64))
        requires
            self.can_answer(
                match ctx {
                    Some(c) => (*c)@,
                    None => context_of_call(caller@, cycles, canister_id@),
                },
                cycles,
                canister_id@,
                method@,
                args_raw@,
            ),
        ensures
            res.1 <= cycles,
            ctx is Some ==> res.1 == final(ctx->0)@.cycles,
            ctx is Some ==> self.answers(
                old(ctx->0)@,
                canister_id@,
                method@,
                args_raw@,
                res,
                final(ctx->0)@,
            ),
            ctx is None ==> self.answers_alone(
                context_of_call(caller@, cycles, canister_id@),
                canister_id@,
                method@,
                args_raw@,
                res,
            ),
    {
        let mut scratch = MockContext::with_chain(Detached).with_caller(
            caller.clone(),
        ).with_msg_cycles(cycles).with_id(canister_id.clone());
        match ctx {
            Some(c) => {
                let ghost before = c@;
                core::mem::swap(c, &mut scratch);
                assert(call_requires(self.closure(), (scratch, args_raw, canister_id, method)));
                let (next, out) = (self.handler)(scratch, args_raw, canister_id, method);
                assert(call_ensures(
                    self.closure(),
                    (scratch, args_raw, canister_id, method),
                    (next, out),
                ));
                *c = next;
                let refund = c.msg_cycles_available();
                let res = (out, refund);
                assert(self.answers(before, canister_id@, method@, args_raw@, res, c@));
                res
            },
            None => {
                let ghost before = context_of_call(caller@, cycles, canister_id@);
                assert(call_requires(self.closure(), (scratch, args_raw, canister_id, method)));
                let (next, out) = (self.handler)(scratch, args_raw, canister_id, method);
                assert(call_ensures(
                    self.closure(),
                    (scratch, args_raw, canister_id, method),
                    (next, out),
                ));
                let mut next = next;
                let refund = next.msg_cycles_available();
                let res = (out, refund);
                assert(self.answers(before, canister_id@, method@, args_raw@, res, next@));
                res
            },
        }
    }
}

impl<
    F: Fn(MockContext<Detached>, &Vec<u8>, &Principal, &str) -> (
        MockContext<Detached>,
        CallResult<Vec<u8>>,
    ),
> CallHandler for RawHandler<F> {
    open spec fn accepts(&self, canister_id: Seq<u8>, method: Seq<char>) -> bool {
        true
    }

    open spec fn verdict(
        &self,
        cycles: u64,
        method: Seq<char>,
        args_raw: Seq<u8>,
        within: Option<u64>,
    ) -> Option<CallError> {
        None
    }

    open spec fn ready(
        &self,
        caller: Seq<u8>,
        cycles: u64,
        canister_id: Seq<u8>,
        method: Seq<char>,
        args_raw: Seq<u8>,
        ctx: Option<ContextView<Detached>>,
    ) -> bool {
        self.can_answer(
            match ctx {
                Some(c) => c,
                None => context_of_call(caller, cycles, canister_id),
            },
            cycles,
            canister_id,
            method,
            args_raw,
        )
    }

    open spec fn replies(
        &self,
        caller: Seq<u8>,
        cycles: u64,
        canister_id: Seq<u8>,
        method: Seq<char>,
        args_raw: Seq<u8>,
        ctx: Option<ContextView<Detached>>,
        res: Result<Answer, CallError>,
        ctx_after: Option<ContextView<Detached>>,
    ) -> bool {
        &&& res is Ok
        &&& match ctx {
            Some(before) => ctx_after is Some && self.answers(
                before,
                canister_id,
                method,
                args_raw,
                res->Ok_0,
                ctx_after->0,
            ),
            None => self.answers_alone(
                context_of_call(caller, cycles, canister_id),
                canister_id,
                method,
                args_raw,
                res->Ok_0,
            ),
        }
    }

    fn accept(&self, canister_id: &Principal, method: &str) -> (r: bool) {
        true
    }

    fn check(&self, cycles: u64, method: &str, args_raw: &Vec<u8>, within: Option<u64>) -> (r:
        Result<(), CallError>) {
        Ok(())
    }

    /// Answers the call with the closure, as the handler's own `perform`
    /// does, and hands the closure back unchanged.
    fn perform(
        &mut self,
        caller: &Principal,
        cycles: u64,
        canister_id: &Principal,
        method: &str,
        args_raw: &Vec<u8>,
        ctx: Option<&mut MockContext<Detached>>,
    ) -> (res: Result<Answer, CallError>)
        ensures
            final(self).closure() == old(self).closure(),
    {
        match ctx {
            Some(c) => {
                let ghost before = c@;
                let answer = RawHandler::perform(
                    self,
                    caller,
                    cycles,
                    canister_id,
                    method,
                    args_raw,
                    Some(&mut *c),
                );
                assert(self.answers(before, canister_id@, method@, args_raw@, answer, c@));
                Ok(answer)
            },
            None => {
                let answer = RawHandler::perform(
                    self,
                    caller,
                    cycles,
                    canister_id,
                    method,
                    args_raw,
                    None,
                );
                Ok(answer)
            },
        }
    }
}

} // verus!
