//! Scripted methods and the ledger of their cycles.

use ic_cdk::api::call::CallResult;
use vstd::prelude::*;
use crate::handler::CallError;
use crate::mock::{ContextView, Detached, MockContext};
use crate::principal::Principal;
use crate::watcher::{Operation, WatcherView};

verus! {

/// One step of the cycle ledger of a scripted method.
#[derive(Clone, Copy, Debug, PartialEq, Eq, Structural)]
pub enum MethodAtom {
    /// Accept all the cycles that are left.
    ConsumeAllCycles,
    /// Accept at most the given amount of cycles.
    ConsumeCycles(u64),
    /// Accept as much as leaves exactly the given amount to refund.
    RefundCycles(u64),
}

impl MethodAtom {
    /// The cycles that the step accepts of `available`, `None` where it
    /// asks to refund more than is available.
    pub open spec fn accepts(self, available: u64) -> Option<u64> {
        match self {
            MethodAtom::ConsumeAllCycles => Some(available),
            MethodAtom::ConsumeCycles(n) => Some(if n > available { available } else { n }),
            MethodAtom::RefundCycles(n) => if n > available {
                None
            } else {
                Some((available - n) as u64)
            },
        }
    }

    /// The cycles that the step leaves of `available`, `None` where it
    /// asks to refund more than is available.
    pub open spec fn leaves(self, available: u64) -> Option<u64> {
        match self.accepts(available) {
            Some(accepted) => Some((available - accepted) as u64),
            None => None,
        }
    }
}

/// The cycles that are left of `available` after the steps ran in order,
/// `None` where one of them asks to refund more than it finds.
pub open spec fn remaining(atoms: Seq<MethodAtom>, available: u64) -> Option<u64>
    decreases atoms.len(),
{
    if atoms.len() == 0 {
        Some(available)
    } else {
        match remaining(atoms.drop_last(), available) {
            Some(left) => atoms.last().leaves(left),
            None => None,
        }
    }
}

/// Steps only take cycles away: what is left is never more than what was
/// available, and every prefix of the steps leaves at least as much as the
/// whole.
pub proof fn lemma_remaining_decreases(atoms: Seq<MethodAtom>, available: u64, n: int)
    requires
        0 <= n <= atoms.len(),
        remaining(atoms, available) is Some,
    ensures
        remaining(atoms.take(n), available) is Some,
        remaining(atoms, available)->0 <= remaining(atoms.take(n), available)->0 <= available,
    decreases atoms.len() - n,
{
    if n == atoms.len() {
        assert(atoms.take(n) =~= atoms);
        lemma_remaining_bounded(atoms, available);
    } else {
        lemma_remaining_decreases(atoms.drop_last(), available, n);
        assert(atoms.drop_last().take(n) =~= atoms.take(n));
    }
}

/// What is left is never more than what was available.
pub proof fn lemma_remaining_bounded(atoms: Seq<MethodAtom>, available: u64)
    requires
        remaining(atoms, available) is Some,
    ensures
        remaining(atoms, available)->0 <= available,
    decreases atoms.len(),
{
    if atoms.len() > 0 {
        lemma_remaining_bounded(atoms.drop_last(), available);
    }
}

/// Once a prefix of the steps asks to refund more than it finds, so does
/// the whole.
pub proof fn lemma_remaining_fails(atoms: Seq<MethodAtom>, available: u64, n: int)
    requires
        0 <= n <= atoms.len(),
        remaining(atoms.take(n), available) is None,
    ensures
        remaining(atoms, available) is None,
    decreases atoms.len() - n,
{
    if n == atoms.len() {
        assert(atoms.take(n) =~= atoms);
    } else {
        assert(atoms.drop_last().take(n) =~= atoms.take(n));
        lemma_remaining_fails(atoms.drop_last(), available, n);
    }
}

/// After a step that consumes all the cycles nothing is left to refund.
pub proof fn lemma_consume_all_leaves_nothing(atoms: Seq<MethodAtom>, available: u64)
    requires
        remaining(atoms, available) is Some,
    ensures
        remaining(atoms.push(MethodAtom::ConsumeAllCycles), available) == Some(0u64),
{
    let all = atoms.push(MethodAtom::ConsumeAllCycles);
    assert(all.drop_last() =~= atoms);
}

/// Steps that hold one that consumes all the cycles leave nothing to
/// refund, wherever it stands among them.
pub proof fn lemma_consume_all_refunds_nothing(atoms: Seq<MethodAtom>, available: u64, i: int)
    requires
        0 <= i < atoms.len(),
        atoms[i] == MethodAtom::ConsumeAllCycles,
        remaining(atoms, available) is Some,
    ensures
        remaining(atoms, available) == Some(0u64),
{
    lemma_remaining_decreases(atoms, available, i + 1);
    lemma_remaining_decreases(atoms, available, i);
    assert(atoms.take(i + 1).drop_last() =~= atoms.take(i));
}

/// A step that refunds exactly `n` cycles leaves exactly `n`, and cannot
/// run where fewer than `n` cycles are left when it is reached.
pub proof fn lemma_refund_exactly(atoms: Seq<MethodAtom>, available: u64, n: u64)
    requires
        remaining(atoms, available) is Some,
    ensures
        remaining(atoms.push(MethodAtom::RefundCycles(n)), available) == if n > remaining(
            atoms,
            available,
        )->0 {
            None
        } else {
            Some(n)
        },
{
    let all = atoms.push(MethodAtom::RefundCycles(n));
    assert(all.drop_last() =~= atoms);
}

/// A step that consumes at most `n` cycles takes `n` of them, or all where
/// fewer are left.
pub proof fn lemma_consume_at_most(atoms: Seq<MethodAtom>, available: u64, n: u64)
    requires
        remaining(atoms, available) is Some,
    ensures
        ({
            let left = remaining(atoms, available)->0;
            remaining(atoms.push(MethodAtom::ConsumeCycles(n)), available) == Some(
                if n > left {
                    0u64
                } else {
                    (left - n) as u64
                },
            )
        }),
{
    let all = atoms.push(MethodAtom::ConsumeCycles(n));
    assert(all.drop_last() =~= atoms);
}

/// Accepting cycles and reading what is available each show once in a
/// watcher, however often and in whatever order they ran.
proof fn lemma_marks_settle(w: WatcherView)
    ensures
        ({
            let accept = Operation::MsgCyclesAccept;
            let read = Operation::MsgCyclesAvailable;
            &&& w.marked(accept).marked(accept) == w.marked(accept)
            &&& w.marked(accept).marked(read).marked(accept) == w.marked(accept).marked(read)
            &&& w.marked(accept).marked(read).marked(read) == w.marked(accept).marked(read)
            &&& w.marked(read).marked(accept) == w.marked(accept).marked(read)
        }),
{
    let accept = Operation::MsgCyclesAccept;
    let read = Operation::MsgCyclesAvailable;
    w.lemma_marked_twice(accept);
    w.lemma_marked_commutes(read, accept);
    w.marked(accept).lemma_marked_twice(read);
    w.marked(accept).lemma_marked_commutes(read, accept);
}

/// A scripted method as a plain value.
pub struct MethodView {
    /// The name that the method answers to; any name where there is none.
    pub name: Option<Seq<char>>,
    /// The steps of the cycle ledger, in the order in which they run.
    pub atoms: Seq<MethodAtom>,
    /// The encoded arguments that every call must bring.
    pub expected_args: Option<Seq<u8>>,
    /// The encoded response to every call.
    pub response: Option<Seq<u8>>,
}

/// The encoding of the empty tuple of values: the magic `DIDL`, an empty
/// type table, no values.
pub open spec fn empty_response() -> Seq<u8> {
    seq![0x44u8, 0x49u8, 0x44u8, 0x4cu8, 0u8, 0u8]
}

impl MethodView {
    /// The method without a name, steps, expected arguments or response.
    pub open spec fn empty() -> MethodView {
        MethodView { name: None, atoms: Seq::empty(), expected_args: None, response: None }
    }

    /// Whether the method answers to the name `method`.
    pub open spec fn accepts(self, method: Seq<char>) -> bool {
        match self.name {
            Some(name) => name == method,
            None => true,
        }
    }

    /// The bytes that the method answers with.
    pub open spec fn reply(self) -> Seq<u8> {
        match self.response {
            Some(bytes) => bytes,
            None => empty_response(),
        }
    }

    /// Whether the method lets a call with the arguments `args_raw` pass.
    pub open spec fn allows(self, args_raw: Seq<u8>) -> bool {
        match self.expected_args {
            Some(expected) => expected == args_raw,
            None => true,
        }
    }

    /// The cycles that the method gives back of `cycles`, `None` where one
    /// of its steps asks to refund more than it finds.
    pub open spec fn refund(self, cycles: u64) -> Option<u64> {
        remaining(self.atoms, cycles)
    }

    /// The watcher of the context that the method ran on: every step
    /// accepts cycles, and the refund is read at the end.
    pub open spec fn watched(self, watcher: WatcherView) -> WatcherView {
        if self.atoms.len() > 0 {
            watcher.marked(Operation::MsgCyclesAccept).marked(Operation::MsgCyclesAvailable)
        } else {
            watcher.marked(Operation::MsgCyclesAvailable)
        }
    }

    /// The context that the method leaves behind when it runs on `ctx` with
    /// `cycles` cycles: the refund stays available, the rest has gone to
    /// the balance.
    pub open spec fn leaves(self, cycles: u64, ctx: ContextView<Detached>) -> ContextView<
        Detached,
    > {
        ContextView {
            cycles: self.refund(cycles)->0,
            balance: (ctx.balance + cycles - self.refund(cycles)->0) as u64,
            watcher: self.watched(ctx.watcher),
            ..ctx
        }
    }

    /// What the method does with a call that sends `cycles` cycles, on the
    /// context `ctx` if there is one: `res` is its reply with its refund,
    /// and `ctx_after` is the context as its ledger leaves it.
    pub open spec fn replies(
        self,
        cycles: u64,
        ctx: Option<ContextView<Detached>>,
        res: Result<(CallResult<Vec<u8>>, u64), CallError>,
        ctx_after: Option<ContextView<Detached>>,
    ) -> bool {
        &&& res matches Ok(answer) && {
            &&& answer.0 matches Ok(bytes) && bytes@ == self.reply()
            &&& Some(answer.1) == self.refund(cycles)
        }
        &&& ctx is Some ==> ctx_after == Some(self.leaves(cycles, ctx->0))
    }

    /// Why the method cannot answer a call that sends `cycles` cycles with
    /// the arguments `args_raw`, on a context with the balance `within` if
    /// there is one; `None` where it can.
    pub open spec fn verdict(self, cycles: u64, args_raw: Seq<u8>, within: Option<u64>) -> Option<
        CallError,
    > {
        if !self.allows(args_raw) {
            Some(CallError::UnexpectedArguments)
        } else if self.refund(cycles) is None {
            Some(CallError::RefundExceedsAvailable)
        } else if within is Some && within->0 + cycles - self.refund(cycles)->0 > u64::MAX {
            Some(CallError::BalanceOverflow)
        } else {
            None
        }
    }

    /// Whether the method can answer a call that sends `cycles` cycles with
    /// the arguments `args_raw`, on the context `ctx` if there is one: the
    /// arguments are the expected ones, no step asks to refund more than it
    /// finds, the context has exactly the cycles of the call available and
    /// its balance has room for what the method accepts.
    pub open spec fn ready(self, cycles: u64, args_raw: Seq<u8>, ctx: Option<ContextView<Detached>>) -> bool {
        &&& self.allows(args_raw)
        &&& self.refund(cycles) is Some
        &&& ctx is Some ==> {
            &&& ctx->0.cycles == cycles
            &&& ctx->0.balance + cycles - self.refund(cycles)->0 <= u64::MAX
        }
    }
}

/// The encoding of the empty tuple of values, by `candid::encode_args`:
/// the four bytes `DIDL`, then a zero for the empty type table and a zero
/// for the number of values. Writing to a vector does not fail.
#[verifier::external_body]
fn encode_empty_args() -> (bytes: Vec<u8>)
    ensures
        bytes@ == empty_response(),
{
    candid::encode_args(()).unwrap()
}

/// A method that is scripted: an optional name, the steps of its cycle
/// ledger, the arguments it expects and the response it gives.
#[derive(Debug)]
pub struct Method {
    /// An optional name for the method.
    name: Option<String>,
    /// The steps that the method runs on the cycles of a call.
    atoms: Vec<MethodAtom>,
    /// If set, every call must bring these arguments.
    expected_args: Option<Vec<u8>>,
    /// The response to send back. By default the empty tuple is returned.
    response: Option<Vec<u8>>,
}

impl View for Method {
    type V = MethodView;

    closed spec fn view(&self) -> MethodView {
        MethodView {
            name: match self.name {
                Some(n) => Some(n@),
                None => None,
            },
            atoms: self.atoms@,
            expected_args: match self.expected_args {
                Some(a) => Some(a@),
                None => None,
            },
            response: match self.response {
                Some(r) => Some(r@),
                None => None,
            },
        }
    }
}

impl Method {
    /// A method that answers every call with the empty tuple and refunds
    /// all the cycles.
    pub fn new() -> (m: Self)
        ensures
            m@ == MethodView::empty(),
    {
        Method { name: None, atoms: Vec::new(), expected_args: None, response: None }
    }

    /// Names the method: it then answers only calls to this name. A method
    /// is named at most once.
    pub fn name(self, name: &str) -> (m: Self)
        requires
            self@.name is None,
        ensures
            m@ == (MethodView { name: Some(name@), ..self@ }),
    {
        let mut m = self;
        m.name = Some(name.to_owned());
        m
    }

    /// Makes the method accept all of the cycles that are left.
    pub fn cycles_consume_all(self) -> (m: Self)
        ensures
            m@ == (MethodView { atoms: self@.atoms.push(MethodAtom::ConsumeAllCycles), ..self@ }),
    {
        let mut m = self;
        m.atoms.push(MethodAtom::ConsumeAllCycles);
        m
    }

    /// Makes the method accept at most the given amount of cycles.
    pub fn cycles_consume(self, cycles: u64) -> (m: Self)
        ensures
            m@ == (MethodView { atoms: self@.atoms.push(MethodAtom::ConsumeCycles(cycles)), ..self@ }),
    {
        let mut m = self;
        m.atoms.push(MethodAtom::ConsumeCycles(cycles));
        m
    }

    /// Makes the method refund exactly the given amount of cycles.
    pub fn cycles_refund(self, cycles: u64) -> (m: Self)
        ensures
            m@ == (MethodView { atoms: self@.atoms.push(MethodAtom::RefundCycles(cycles)), ..self@ }),
    {
        let mut m = self;
        m.atoms.push(MethodAtom::RefundCycles(cycles));
        m
    }

    /// Makes the method expect the given encoded arguments with every call.
    /// Arguments are expected at most once.
    pub fn expect_arguments(self, arguments: Vec<u8>) -> (m: Self)
        requires
            self@.expected_args is None,
        ensures
            m@ == (MethodView { expected_args: Some(arguments@), ..self@ }),
    {
        let mut m = self;
        m.expected_args = Some(arguments);
        m
    }

    /// Makes the method answer every call with the given encoded value. A
    /// response is set at most once.
    pub fn response(self, value: Vec<u8>) -> (m: Self)
        requires
            self@.response is None,
        ensures
            m@ == (MethodView { response: Some(value@), ..self@ }),
    {
        let mut m = self;
        m.response = Some(value);
        m
    }

    /// Whether the method has a name.
    pub fn is_named(&self) -> (r: bool)
        ensures
            r == self@.name is Some,
    {
        self.name.is_some()
    }

    /// Whether the method expects arguments.
    pub fn expects_arguments(&self) -> (r: bool)
        ensures
            r == self@.expected_args is Some,
    {
        self.expected_args.is_some()
    }

    /// Whether the method has a response of its own.
    pub fn has_response(&self) -> (r: bool)
        ensures
            r == self@.response is Some,
    {
        self.response.is_some()
    }

    /// Whether the method answers a call to `method`: it does where it has
    /// no name or `method` is its name.
    pub fn accept(&self, canister_id: &Principal, method: &str) -> (r: bool)
        ensures
            r == self@.accepts(method@),
    {
        match &self.name {
            Some(name) => *name == method.to_owned(),
            None => true,
        }
    }

    /// Runs the steps of the cycle ledger on a context that has the cycles
    /// of the call available, and reads what is left: the refund.
    fn settle(&self, ctx: &mut MockContext<Detached>) -> (refund: u64)
        requires
            self@.refund(old(ctx)@.cycles) is Some,
            old(ctx)@.balance + old(ctx)@.cycles - self@.refund(old(ctx)@.cycles)->0 <= u64::MAX,
        ensures
            Some(refund) == self@.refund(old(ctx)@.cycles),
            refund <= old(ctx)@.cycles,
            final(ctx)@ == self@.leaves(old(ctx)@.cycles, old(ctx)@),
    {
        let ghost start = ctx@;
        let ghost cycles = start.cycles;
        let mut i: usize = 0;
        while i < self.atoms.len()
            invariant
                i <= self.atoms@.len(),
                self@.atoms == self.atoms@,
                start.cycles == cycles,
                self@.refund(cycles) is Some,
                start.balance + cycles - self@.refund(cycles)->0 <= u64::MAX,
                remaining(self.atoms@.take(i as int), cycles) == Some(ctx@.cycles),
                ctx@.cycles <= cycles,
                i == 0 ==> ctx@ == start,
                i > 0 ==> {
                    ||| ctx@.watcher == start.watcher.marked(Operation::MsgCyclesAccept)
                    ||| ctx@.watcher == start.watcher.marked(Operation::MsgCyclesAccept).marked(
                        Operation::MsgCyclesAvailable,
                    )
                },
                ctx@.balance == start.balance + cycles - ctx@.cycles,
                ctx@.same_state(start),
            decreases self.atoms@.len() - i,
        {
            proof {
                assert(self.atoms@.take(i + 1).drop_last() =~= self.atoms@.take(i as int));
                lemma_remaining_decreases(self.atoms@, cycles, i + 1);
                lemma_marks_settle(start.watcher);
            }
            match self.atoms[i] {
                MethodAtom::ConsumeAllCycles => {
                    let _ = ctx.msg_cycles_accept(u64::MAX);
                },
                MethodAtom::ConsumeCycles(n) => {
                    let _ = ctx.msg_cycles_accept(n);
                },
                MethodAtom::RefundCycles(n) => {
                    let available = ctx.msg_cycles_available();
                    let _ = ctx.msg_cycles_accept(available - n);
                },
            }
            i += 1;
        }
        proof {
            assert(self.atoms@.take(i as int) =~= self.atoms@);
            lemma_marks_settle(start.watcher);
        }
        ctx.msg_cycles_available()
    }

    /// Answers a call that sends `cycles` cycles with the arguments
    /// `args_raw`. The steps of the cycle ledger run in order, on `ctx` where
    /// one is given and on a context of its own otherwise. What they leave
    /// is the refund; the answer is the response of the method, or the
    /// empty tuple where it has none.
    pub fn perform(
        &self,
        caller: &Principal,
        cycles: u64,
        canister_id: &Principal,
        method: &str,
        args_raw: &Vec<u8>,
        ctx: Option<&mut MockContext<Detached>>,
    ) -> (res: (CallResult<Vec<u8>>, u64))
        requires
            self@.ready(
                cycles,
                args_raw@,
                match ctx {
                    Some(c) => Some((*c)@),
                    None => None,
                },
            ),
        ensures
            res.0 matches Ok(bytes) && bytes@ == self@.reply(),
            Some(res.1) == self@.refund(cycles),
            res.1 <= cycles,
            ctx is Some ==> final(ctx->0)@ == self@.leaves(cycles, old(ctx->0)@),
    {
        let refund = match ctx {
            Some(c) => self.settle(c),
            None => {
                let mut scratch = MockContext::with_chain(Detached).with_balance(0).with_msg_cycles(
                    cycles,
                );
                self.settle(&mut scratch)
            },
        };
        let reply = match &self.response {
            Some(bytes) => bytes.clone(),
            None => encode_empty_args(),
        };
        (Ok(reply), refund)
    }

    /// Says whether the method can answer a call that sends `cycles` cycles
    /// with the arguments `args_raw`, on a context with the balance `within`
    /// if there is one, and why not.
    pub fn check(&self, cycles: u64, args_raw: &Vec<u8>, within: Option<u64>) -> (r: Result<
        (),
        CallError,
    >)
        ensures
            match r {
                Ok(_) => self@.verdict(cycles, args_raw@, within) is None,
                Err(e) => self@.verdict(cycles, args_raw@, within) == Some(e),
            },
    {
        match self.refund_for(cycles, args_raw) {
            Ok(refund) => {
                proof {
                    lemma_remaining_bounded(self@.atoms, cycles);
                }
                match within {
                    Some(balance) => if cycles - refund > u64::MAX - balance {
                        Err(CallError::BalanceOverflow)
                    } else {
                        Ok(())
                    },
                    None => Ok(()),
                }
            },
            Err(e) => Err(e),
        }
    }

    /// Says what the method would do with a call that sends `cycles` cycles
    /// with the arguments `args_raw`: the cycles that it would refund, or
    /// why it could not answer.
    pub fn refund_for(&self, cycles: u64, args_raw: &Vec<u8>) -> (r: Result<u64, CallError>)
        ensures
            match r {
                Ok(refund) => self@.verdict(cycles, args_raw@, None) is None && self@.refund(cycles)
                    == Some(refund),
                Err(e) => self@.verdict(cycles, args_raw@, None) == Some(e),
            },
    {
        match &self.expected_args {
            Some(expected) => {
                let same = *expected == *args_raw;
                proof {
                    if same {
                        assert(expected@ =~= args_raw@);
                    }
                }
                if !same {
                    return Err(CallError::UnexpectedArguments);
                }
            },
            None => {},
        }
        let mut available: u64 = cycles;
        let mut i: usize = 0;
        while i < self.atoms.len()
            invariant
                i <= self.atoms@.len(),
                self@.allows(args_raw@),
                remaining(self.atoms@.take(i as int), cycles) == Some(available),
            decreases self.atoms@.len() - i,
        {
            proof {
                assert(self.atoms@.take(i + 1).drop_last() =~= self.atoms@.take(i as int));
            }
            match self.atoms[i] {
                MethodAtom::ConsumeAllCycles => {
                    available = 0;
                },
                MethodAtom::ConsumeCycles(n) => {
                    available = if n > available { 0 } else { available - n };
                },
                MethodAtom::RefundCycles(n) => {
                    if n > available {
                        proof {
                            lemma_remaining_fails(self.atoms@, cycles, i + 1);
                        }
                        return Err(CallError::RefundExceedsAvailable);
                    }
                    available = n;
                },
            }
            i += 1;
        }
        proof {
            assert(self.atoms@.take(i as int) =~= self.atoms@);
        }
        Ok(available)
    }
}

} // verus!
