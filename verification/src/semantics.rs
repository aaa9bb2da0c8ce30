//! What one instruction does, stated over mathematical values: the state of
//! the engine as sequences and maps, and `step` from a state to the next
//! state and what the step asks of the outside.

use crate::fault::Fault;
use crate::lexer::{Arithmetic, Equality, Instr, Syscalls, Types};
use crate::memory::{
    lemma_allocate_wf, lemma_load_after_store, lemma_read_after_allocate, lemma_store_wf, Arena,
};
use crate::program::{lemma_lookup_procedure, ProgramView};
use crate::text::{decimal, unescape};
use vstd::prelude::*;
use vstd::string::StringSliceAdditionalSpecFns;

verus! {

/// What a step asks of the outside, as a mathematical value.
pub enum ActionView {
    /// Nothing: go on with the next step.
    Continue,
    /// Print the text as one line.
    Print(Seq<u8>),
    /// Read up to `len` bytes from `fd`, and deliver them.
    Read { fd: u64, len: u64 },
    /// Write the bytes to `fd`.
    Write { fd: u64, bytes: Seq<u8> },
    /// The pointer has left the stream: the run is over.
    Halt,
}

/// The state of the engine.
pub struct Machine {
    /// The index of the next instruction.
    pub ip: usize,
    /// The operand stack, its top last.
    pub stack: Seq<(Types, u64)>,
    /// The return stack, its top last: for each call under way, the index
    /// of the calling instruction and the name of the procedure called.
    pub calls: Seq<(usize, Seq<u8>)>,
    pub memory: Arena,
}

/// A state after a step, and what came of the step.
pub struct Outcome {
    pub state: Machine,
    pub result: Result<ActionView, Fault>,
}

/// 2 to the power 64: the number of values that a payload can take.
pub open spec fn word() -> int {
    0x1_0000_0000_0000_0000
}

/// The most that a read may ask for.
pub const READ_LIMIT: u64 = 199;

/// The first way in which a stack falls short of a list of tags, the top of
/// the stack held against the first of the list: `None` where every tag is
/// met. `Unknown` is met by any value.
pub open spec fn mismatch(stack: Seq<(Types, u64)>, expected: Seq<Types>) -> Option<Fault>
    decreases expected.len(),
{
    if expected.len() == 0 {
        None
    } else if stack.len() == 0 {
        Some(Fault::StackUnderflow)
    } else if expected[0] != Types::Unknown && expected[0] != stack.last().0 {
        Some(Fault::TypeMismatch { expected: expected[0], actual: stack.last().0 })
    } else {
        mismatch(stack.drop_last(), expected.skip(1))
    }
}

/// The tags that an instruction takes whatever the state, top of stack
/// first. A call and a return take what the procedure declares: see
/// `required`.
pub open spec fn signature(op: Instr) -> Seq<Types> {
    match op {
        Instr::Drop | Instr::Dup | Instr::Cast(_) | Instr::Print => seq![Types::Unknown],
        Instr::Swap | Instr::Store => seq![Types::Unknown, Types::Unknown],
        Instr::Rot => seq![Types::Unknown, Types::Unknown, Types::Unknown],
        Instr::Arithmetic(_) | Instr::Equality(_) => seq![Types::Int, Types::Int],
        Instr::If => seq![Types::Bool],
        Instr::Load => seq![Types::Pointer],
        Instr::Syscalls(Syscalls::Read) => seq![Types::Int, Types::Int],
        Instr::Syscalls(Syscalls::Write) => seq![Types::Int, Types::Pointer, Types::Int],
        _ => Seq::empty(),
    }
}

/// The result of an arithmetic instruction on `below` and `top`: `below op
/// top`, modulo 2 to the 64; `None` for a division by zero.
pub open spec fn arithmetic(op: Arithmetic, below: u64, top: u64) -> Option<u64> {
    match op {
        Arithmetic::Plus => Some(((below + top) % word()) as u64),
        Arithmetic::Minus => Some(((below - top) % word()) as u64),
        Arithmetic::Mul => Some(((below * top) % word()) as u64),
        Arithmetic::Div => if top == 0 {
            None
        } else {
            Some(below / top)
        },
    }
}

/// The result of a comparison. `Bigger` holds where the value below is the
/// bigger one, `Smaller` where it is the smaller one.
pub open spec fn comparison(op: Equality, below: u64, top: u64) -> bool {
    match op {
        Equality::Equal => top == below,
        Equality::Bigger => top < below,
        Equality::Smaller => top > below,
    }
}

/// The payload of a truth value.
pub open spec fn truth(b: bool) -> u64 {
    if b {
        1
    } else {
        0
    }
}

/// The line that printing a value gives: a number in decimal, a truth
/// value by its word, and nothing for any other tag.
pub open spec fn printed(value: (Types, u64)) -> Option<Seq<u8>> {
    match value.0 {
        Types::Int | Types::Pointer => Some(decimal(value.1 as nat)),
        Types::Bool => Some(
            if value.1 == 1 {
                "true".spec_bytes()
            } else {
                "false".spec_bytes()
            },
        ),
        _ => None,
    }
}

/// The tags that a value can carry: `String` and `Unknown` are never the
/// tag of a value.
pub open spec fn storable(tag: Types) -> bool {
    tag == Types::Int || tag == Types::Bool || tag == Types::Pointer
}

impl Machine {
    /// The arena is well formed, every value on the stack carries a tag
    /// that a value can carry, and no call was made from the last index
    /// that the machine can hold.
    pub open spec fn wf(self) -> bool {
        &&& self.memory.wf()
        &&& forall|i: int| 0 <= i < self.stack.len() ==> storable((#[trigger] self.stack[i]).0)
        &&& forall|i: int| 0 <= i < self.calls.len() ==> (#[trigger] self.calls[i]).0 < usize::MAX
    }

    /// The state in which a run starts.
    pub open spec fn start(entry: usize) -> Machine {
        Machine { ip: entry, stack: Seq::empty(), calls: Seq::empty(), memory: Arena::empty() }
    }

    /// The stack without its `n` topmost values.
    pub open spec fn below(self, n: int) -> Seq<(Types, u64)> {
        self.stack.take(self.stack.len() - n)
    }

    /// The `n`-th value of the stack, counted from the top, which is the
    /// 0-th.
    pub open spec fn operand(self, n: int) -> (Types, u64) {
        self.stack[self.stack.len() - 1 - n]
    }

    /// This state at the next instruction, with another stack.
    pub open spec fn advance(self, stack: Seq<(Types, u64)>) -> Machine {
        Machine { ip: (self.ip + 1) as usize, stack: stack, ..self }
    }

    pub open spec fn proceed(self) -> Outcome {
        Outcome { state: self, result: Ok(ActionView::Continue) }
    }

    pub open spec fn fail(self, fault: Fault) -> Outcome {
        Outcome { state: self, result: Err(fault) }
    }

    /// The state after a read has been delivered: the 200 bytes of the
    /// buffer and a closing zero stand at 201 new addresses, and a pointer
    /// to the first of them is on the stack.
    pub open spec fn deliver(self, buffer: Seq<u8>) -> Machine {
        Machine {
            stack: self.stack.push((Types::Pointer, self.memory.next() as u64)),
            memory: self.memory.allocate(buffer.push(0)),
            ..self
        }
    }
}

/// The tags that the instruction at the pointer takes, top of stack first.
/// A call takes what the procedure called declares as its parameters. A
/// return takes what the procedure left declares as its results, and
/// nothing where no call is under way.
pub open spec fn required(p: ProgramView, s: Machine) -> Result<Seq<Types>, Fault>
    recommends
        s.ip < p.tokens.len(),
{
    match p.tokens[s.ip as int] {
        Instr::Ident(name) => match p.procedure(name) {
            Some(callee) => Ok(callee.parameters),
            None => Err(Fault::UnknownIdent),
        },
        Instr::Return => if s.calls.len() == 0 {
            Ok(Seq::empty())
        } else {
            match p.procedure(s.calls.last().1) {
                Some(callee) => Ok(callee.returns),
                None => Err(Fault::UnknownIdent),
            }
        },
        op => Ok(signature(op)),
    }
}

/// What the instruction at the pointer does to a state whose stack holds
/// what the instruction takes.
pub open spec fn execute(p: ProgramView, s: Machine) -> Outcome
    recommends
        s.ip < p.tokens.len(),
{
    match p.tokens[s.ip as int] {
        Instr::Drop => s.advance(s.below(1)).proceed(),
        Instr::Dup => s.advance(s.stack.push(s.operand(0))).proceed(),
        Instr::Swap => s.advance(s.below(2).push(s.operand(0)).push(s.operand(1))).proceed(),
        Instr::Rot => s.advance(s.stack).proceed(),
        Instr::Cast(tag) => match tag {
            Types::Int | Types::Pointer | Types::Bool => s.advance(
                s.below(1).push((tag, s.operand(0).1)),
            ).proceed(),
            _ => s.advance(s.below(1)).proceed(),
        },
        Instr::Push(tag, number, text) => match tag {
            Types::Int | Types::Bool => s.advance(s.stack.push((tag, number))).proceed(),
            Types::String => Machine {
                ip: (s.ip + 1) as usize,
                stack: s.stack.push((Types::Pointer, s.memory.next() as u64)),
                memory: s.memory.allocate(unescape(text).push(0)),
                ..s
            }.proceed(),
            _ => s.advance(s.stack).proceed(),
        },
        Instr::Arithmetic(op) => match arithmetic(op, s.operand(1).1, s.operand(0).1) {
            Some(n) => s.advance(s.below(2).push((Types::Int, n))).proceed(),
            None => s.fail(Fault::DivisionByZero),
        },
        Instr::Equality(op) => s.advance(
            s.below(2).push((Types::Bool, truth(comparison(op, s.operand(1).1, s.operand(0).1)))),
        ).proceed(),
        Instr::If => if s.operand(0).1 != 0 {
            s.advance(s.below(1)).proceed()
        } else if p.scopes.contains_key((s.ip + 1) as usize) {
            Machine { ip: p.scopes[(s.ip + 1) as usize], stack: s.below(1), ..s }.proceed()
        } else {
            s.fail(Fault::UnclosedBlock)
        },
        Instr::Goto(word) => match p.label(word) {
            Some(label) => Machine { ip: label.resume, ..s }.proceed(),
            None => s.fail(Fault::UnknownLabel),
        },
        Instr::Ident(name) => match p.procedure(name) {
            Some(callee) => Machine {
                ip: callee.location,
                calls: s.calls.push((s.ip, callee.name)),
                ..s
            }.proceed(),
            None => s.fail(Fault::UnknownIdent),
        },
        Instr::Return => if s.calls.len() == 0 {
            Machine { ip: p.tokens.len() as usize, ..s }.proceed()
        } else {
            Machine {
                ip: (s.calls.last().0 + 1) as usize,
                calls: s.calls.drop_last(),
                ..s
            }.proceed()
        },
        Instr::Load => s.advance(
            s.below(1).push((Types::Int, s.memory.load(s.operand(0).1))),
        ).proceed(),
        Instr::Store => Machine {
            ip: (s.ip + 1) as usize,
            stack: s.below(2),
            memory: s.memory.store(s.operand(0).1, s.operand(1).1),
            ..s
        }.proceed(),
        Instr::Print => Outcome {
            state: s.advance(s.below(1)),
            result: Ok(
                match printed(s.operand(0)) {
                    Some(line) => ActionView::Print(line),
                    None => ActionView::Continue,
                },
            ),
        },
        Instr::Syscalls(Syscalls::Open) => s.advance(s.stack).proceed(),
        Instr::Syscalls(Syscalls::Read) => if s.operand(1).1 > READ_LIMIT {
            s.fail(Fault::ReadTooLong)
        } else {
            Outcome {
                state: s.advance(s.below(2)),
                result: Ok(ActionView::Read { fd: s.operand(0).1, len: s.operand(1).1 }),
            }
        },
        Instr::Syscalls(Syscalls::Write) => Outcome {
            state: s.advance(s.below(3)),
            result: Ok(
                ActionView::Write {
                    fd: s.operand(0).1,
                    bytes: s.memory.read(s.operand(1).1, s.operand(2).1 as nat),
                },
            ),
        },
        Instr::EOP => s.advance(s.stack).proceed(),
    }
}

/// One step of the engine. Past the end of the stream the run is over.
/// Before it, the instruction at the pointer holds the stack against the
/// tags it takes, and only then acts. A step that fails leaves the state as
/// it was.
pub open spec fn step(p: ProgramView, s: Machine) -> Outcome {
    if s.ip >= p.tokens.len() {
        Outcome { state: s, result: Ok(ActionView::Halt) }
    } else {
        match required(p, s) {
            Err(fault) => s.fail(fault),
            Ok(expected) => match mismatch(s.stack, expected) {
                Some(fault) => s.fail(fault),
                None => execute(p, s),
            },
        }
    }
}

/// Up to `fuel` steps, ending early with the first step that fails or that
/// asks anything of the outside.
pub open spec fn run(p: ProgramView, s: Machine, fuel: nat) -> Outcome
    decreases fuel,
{
    if fuel == 0 {
        s.proceed()
    } else {
        let first = step(p, s);
        if first.result == Ok::<ActionView, Fault>(ActionView::Continue) {
            run(p, first.state, (fuel - 1) as nat)
        } else {
            first
        }
    }
}

/// Whether a stack, from its top down, carries the tags of a list, where
/// `Unknown` asks for no tag.
pub open spec fn meets(stack: Seq<(Types, u64)>, expected: Seq<Types>) -> bool {
    &&& stack.len() >= expected.len()
    &&& forall|i: int|
        0 <= i < expected.len() ==> #[trigger] expected[i] == Types::Unknown || expected[i]
            == stack[stack.len() - 1 - i].0
}

/// Nothing is reported of a stack exactly when it carries the tags of the
/// list.
pub proof fn lemma_meets(stack: Seq<(Types, u64)>, expected: Seq<Types>)
    ensures
        mismatch(stack, expected) is None <==> meets(stack, expected),
    decreases expected.len(),
{
    if expected.len() > 0 && stack.len() > 0 {
        let below = stack.drop_last();
        let rest = expected.skip(1);
        lemma_meets(below, rest);
        if mismatch(stack, expected) is None {
            assert forall|i: int| 0 <= i < expected.len() implies #[trigger] expected[i]
                == Types::Unknown || expected[i] == stack[stack.len() - 1 - i].0 by {
                if i > 0 {
                    assert(rest[i - 1] == expected[i]);
                }
            }
        }
    }
}

/// What is reported of a stack is an underflow or a tag that is not met,
/// and nothing else.
pub proof fn lemma_mismatch_kinds(stack: Seq<(Types, u64)>, expected: Seq<Types>)
    ensures
        mismatch(stack, expected) matches Some(fault) ==> fault == Fault::StackUnderflow
            || fault is TypeMismatch,
    decreases expected.len(),
{
    if expected.len() > 0 && stack.len() > 0 {
        lemma_mismatch_kinds(stack.drop_last(), expected.skip(1));
    }
}

/// A step that fails leaves the whole state as it was.
pub proof fn lemma_failure_keeps_state(p: ProgramView, s: Machine)
    ensures
        step(p, s).result is Err ==> step(p, s).state == s,
{
}

/// Whatever the instruction, a step on a stack with fewer values than the
/// instruction takes reports an underflow or a tag that is not met, and
/// leaves the state as it was, memory and return stack included.
pub proof fn lemma_short_stack_is_reported(p: ProgramView, s: Machine, expected: Seq<Types>)
    requires
        s.ip < p.tokens.len(),
        required(p, s) == Ok::<Seq<Types>, Fault>(expected),
        s.stack.len() < expected.len(),
    ensures
        step(p, s).result matches Err(fault) && (fault == Fault::StackUnderflow
            || fault is TypeMismatch),
        step(p, s).state == s,
        step(p, s).state.memory == s.memory,
        step(p, s).state.calls == s.calls,
{
    lemma_meets(s.stack, expected);
    lemma_mismatch_kinds(s.stack, expected);
}

/// A step keeps a state well formed.
pub proof fn lemma_step_wf(p: ProgramView, s: Machine)
    requires
        s.wf(),
        p.tokens.len() <= usize::MAX,
    ensures
        step(p, s).state.wf(),
{
    if s.ip < p.tokens.len() && step(p, s).result is Ok {
        let expected = required(p, s)->Ok_0;
        lemma_meets(s.stack, expected);
        match p.tokens[s.ip as int] {
            Instr::Push(tag, number, text) => {
                lemma_allocate_wf(s.memory, unescape(text).push(0));
            },
            Instr::Store => {
                lemma_store_wf(s.memory, s.operand(0).1, s.operand(1).1);
            },
            _ => {},
        }
    }
}

/// `dup` and then `drop` leave the stack as it was before the `dup`,
/// whatever the value on top.
pub proof fn lemma_dup_then_drop(p: ProgramView, s: Machine)
    requires
        p.tokens.len() <= usize::MAX,
        s.ip + 1 < p.tokens.len(),
        p.tokens[s.ip as int] == Instr::Dup,
        p.tokens[s.ip + 1] == Instr::Drop,
        s.stack.len() >= 1,
    ensures
        step(p, s).result == Ok::<ActionView, Fault>(ActionView::Continue),
        step(p, step(p, s).state).result == Ok::<ActionView, Fault>(ActionView::Continue),
        step(p, step(p, s).state).state == (Machine { ip: (s.ip + 2) as usize, ..s }),
{
    lemma_meets(s.stack, seq![Types::Unknown]);
    let mid = step(p, s).state;
    lemma_meets(mid.stack, seq![Types::Unknown]);
    assert(mid.below(1) =~= s.stack);
}

/// A call of a procedure whose first instruction is its return comes back
/// one past the call, with both stacks as they were: the stack is held
/// against the parameters on the way in and against the results on the way
/// out, and nothing is taken from it.
pub proof fn lemma_call_and_return(p: ProgramView, s: Machine, name: Seq<u8>)
    requires
        p.tokens.len() <= usize::MAX,
        s.ip < p.tokens.len(),
        p.tokens[s.ip as int] == Instr::Ident(name),
        p.procedure(name) matches Some(callee) && callee.location < p.tokens.len()
            && p.tokens[callee.location as int] == Instr::Return && meets(
            s.stack,
            callee.parameters,
        ) && meets(s.stack, callee.returns),
    ensures
        step(p, s).result == Ok::<ActionView, Fault>(ActionView::Continue),
        step(p, step(p, s).state).result == Ok::<ActionView, Fault>(ActionView::Continue),
        step(p, step(p, s).state).state == (Machine { ip: (s.ip + 1) as usize, ..s }),
{
    lemma_lookup_procedure(p.procedures, name);
    let callee = p.procedure(name)->Some_0;
    lemma_meets(s.stack, callee.parameters);
    lemma_meets(s.stack, callee.returns);
    let mid = step(p, s).state;
    assert(mid.calls.drop_last() =~= s.calls);
}

/// A `store` of a value to an address and then a `load` from that address
/// give the value, whatever the address held before. The `load` may come
/// at any later point of the run, as long as no other `store` has changed
/// the memory in between.
pub proof fn lemma_store_then_load(p: ProgramView, s: Machine, t: Machine)
    requires
        s.wf(),
        s.ip < p.tokens.len(),
        p.tokens[s.ip as int] == Instr::Store,
        s.stack.len() >= 2,
        t.ip < p.tokens.len(),
        p.tokens[t.ip as int] == Instr::Load,
        t.memory == step(p, s).state.memory,
        t.stack.len() >= 1,
        t.stack.last() == (Types::Pointer, s.operand(0).1),
    ensures
        step(p, s).result == Ok::<ActionView, Fault>(ActionView::Continue),
        step(p, t).result == Ok::<ActionView, Fault>(ActionView::Continue),
        step(p, t).state.stack == t.stack.drop_last().push((Types::Int, s.operand(1).1)),
{
    lemma_meets(s.stack, seq![Types::Unknown, Types::Unknown]);
    lemma_meets(t.stack, seq![Types::Pointer]);
    lemma_load_after_store(s.memory, s.operand(0).1, s.operand(1).1);
}

/// A `load` from an address that was never written gives 0.
pub proof fn lemma_load_of_unwritten(p: ProgramView, s: Machine, addr: u64)
    requires
        s.ip < p.tokens.len(),
        p.tokens[s.ip as int] == Instr::Load,
        s.stack.len() >= 1,
        s.stack.last() == (Types::Pointer, addr),
        !s.memory.index.contains_key(addr),
    ensures
        step(p, s).result == Ok::<ActionView, Fault>(ActionView::Continue),
        step(p, s).state.stack == s.stack.drop_last().push((Types::Int, 0u64)),
{
    lemma_meets(s.stack, seq![Types::Pointer]);
}

/// An `if` on a false condition moves the pointer forward to the end of
/// its block: none of the instructions of the block is dispatched.
pub proof fn lemma_false_branch_skips_block(p: ProgramView, s: Machine)
    requires
        p.wf(),
        s.ip < p.tokens.len(),
        p.tokens[s.ip as int] == Instr::If,
        s.stack.len() >= 1,
        s.stack.last() == (Types::Bool, 0u64),
        p.scopes.contains_key((s.ip + 1) as usize),
    ensures
        step(p, s).result == Ok::<ActionView, Fault>(ActionView::Continue),
        step(p, s).state.ip == p.scopes[(s.ip + 1) as usize],
        s.ip < step(p, s).state.ip <= p.tokens.len(),
        step(p, s).state.stack == s.stack.drop_last(),
        step(p, s).state.memory == s.memory,
        step(p, s).state.calls == s.calls,
{
    lemma_meets(s.stack, seq![Types::Bool]);
}

/// A run may be cut into bursts at will: `a + b` steps at once come to the
/// same as `a` steps and then, where these ended with nothing to do for the
/// outside, `b` steps more.
pub proof fn lemma_run_in_bursts(p: ProgramView, s: Machine, a: nat, b: nat)
    ensures
        run(p, s, a + b) == (if run(p, s, a).result == Ok::<ActionView, Fault>(
            ActionView::Continue,
        ) {
            run(p, run(p, s, a).state, b)
        } else {
            run(p, s, a)
        }),
    decreases a,
{
    if a > 0 {
        let first = step(p, s);
        if first.result == Ok::<ActionView, Fault>(ActionView::Continue) {
            lemma_run_in_bursts(p, first.state, (a - 1) as nat, b);
        }
    }
}

/// In a program in which every `if` has its closed block, no step fails
/// for want of a block to skip.
pub proof fn lemma_resolved_never_unclosed(p: ProgramView, s: Machine)
    requires
        p.resolved(),
        p.tokens.len() <= usize::MAX,
    ensures
        step(p, s).result != Err::<ActionView, Fault>(Fault::UnclosedBlock),
{
    if s.ip < p.tokens.len() {
        if p.tokens[s.ip as int] == Instr::If {
        }
        match required(p, s) {
            Ok(expected) => {
                lemma_mismatch_kinds(s.stack, expected);
            },
            Err(_) => {},
        }
    }
}

/// The bytes of a string literal are the bytes that a `write` from its
/// pointer hands out, for any count up to the length of the literal. The
/// `write` may come at any later point of the run, as long as the memory
/// has not changed in between.
pub proof fn lemma_write_of_literal(
    p: ProgramView,
    s: Machine,
    t: Machine,
    number: u64,
    text: Seq<u8>,
)
    requires
        s.wf(),
        s.ip < p.tokens.len(),
        p.tokens[s.ip as int] == Instr::Push(Types::String, number, text),
        s.memory.next() + unescape(text).len() < u64::MAX,
        t.ip < p.tokens.len(),
        p.tokens[t.ip as int] == Instr::Syscalls(Syscalls::Write),
        t.memory == step(p, s).state.memory,
        t.stack.len() >= 3,
        t.operand(0).0 == Types::Int,
        t.operand(1) == step(p, s).state.stack.last(),
        t.operand(2).0 == Types::Int,
        t.operand(2).1 <= unescape(text).len(),
    ensures
        step(p, s).result == Ok::<ActionView, Fault>(ActionView::Continue),
        step(p, t).result == Ok::<ActionView, Fault>(
            ActionView::Write {
                fd: t.operand(0).1,
                bytes: unescape(text).take(t.operand(2).1 as int),
            },
        ),
{
    lemma_meets(s.stack, Seq::<Types>::empty());
    lemma_meets(t.stack, seq![Types::Int, Types::Pointer, Types::Int]);
    let bytes = unescape(text).push(0);
    let count = t.operand(2).1 as nat;
    lemma_read_after_allocate(s.memory, bytes, count);
    assert(bytes.take(count as int) =~= unescape(text).take(count as int));
}

} // verus!
