//! The engine: the state of a run, and the step that dispatches one
//! instruction. What the outside has to do for a step (print, read, write)
//! is handed back as an `Action`; the engine itself touches nothing.

use crate::fault::Fault;
use crate::lexer::{Arithmetic, Equality, Instr, OpCodes, Syscalls, Types};
use crate::memory::Memory;
use crate::program::Program;
use crate::semantics::{
    arithmetic, comparison, execute, lemma_meets, mismatch, printed, run, signature, step,
    ActionView, Machine, READ_LIMIT,
};
use crate::text::{decode_escapes, render_decimal};
use crate::words::copy_bytes;
use crate::Args;
use vstd::prelude::*;
use vstd::string::{StrSliceExecFns, StringSliceAdditionalSpecFns};

verus! {

/// What a step asks of the outside.
#[derive(Debug, PartialEq, Eq, Clone)]
pub enum Action {
    /// Nothing: go on with the next step.
    Continue,
    /// Print the text as one line.
    Print(Vec<u8>),
    /// Read up to `len` bytes from `fd` into a buffer of 200 zeros, and hand
    /// the buffer to `deliver`.
    Read { fd: u64, len: u64 },
    /// Write the bytes to `fd`, and hand what the write returned to
    /// `written`.
    Write { fd: u64, bytes: Vec<u8> },
    /// The pointer has left the stream: the run is over.
    Halt,
}

impl View for Action {
    type V = ActionView;

    open spec fn view(&self) -> ActionView {
        match *self {
            Action::Continue => ActionView::Continue,
            Action::Print(line) => ActionView::Print(line@),
            Action::Read { fd, len } => ActionView::Read { fd, len },
            Action::Write { fd, bytes } => ActionView::Write { fd, bytes: bytes@ },
            Action::Halt => ActionView::Halt,
        }
    }
}

/// What came of a step, as a mathematical value.
pub open spec fn outcome_view(result: Result<Action, Fault>) -> Result<ActionView, Fault> {
    match result {
        Ok(action) => Ok(action@),
        Err(fault) => Err(fault),
    }
}

/// The return stack as a mathematical value.
pub open spec fn call_views(calls: Seq<(usize, Vec<u8>)>) -> Seq<(usize, Seq<u8>)> {
    Seq::new(calls.len(), |i: int| (calls[i].0, calls[i].1@))
}

/// The tags that an instruction takes whatever the state.
pub fn operands(op: &OpCodes) -> (tags: Vec<Types>)
    ensures
        tags@ == signature(op@),
{
    let mut tags: Vec<Types> = Vec::new();
    match op {
        OpCodes::Drop | OpCodes::Dup | OpCodes::Cast(_) | OpCodes::Print => {
            tags.push(Types::Unknown);
        },
        OpCodes::Swap | OpCodes::Store => {
            tags.push(Types::Unknown);
            tags.push(Types::Unknown);
        },
        OpCodes::Rot => {
            tags.push(Types::Unknown);
            tags.push(Types::Unknown);
            tags.push(Types::Unknown);
        },
        OpCodes::Arithmetic(_) | OpCodes::Equality(_) => {
            tags.push(Types::Int);
            tags.push(Types::Int);
        },
        OpCodes::If => {
            tags.push(Types::Bool);
        },
        OpCodes::Load => {
            tags.push(Types::Pointer);
        },
        OpCodes::Syscalls(Syscalls::Read) => {
            tags.push(Types::Int);
            tags.push(Types::Int);
        },
        OpCodes::Syscalls(Syscalls::Write) => {
            tags.push(Types::Int);
            tags.push(Types::Pointer);
            tags.push(Types::Int);
        },
        _ => {},
    }
    tags
}

/// Computes `below op top`; `None` for a division by zero.
pub fn compute(op: Arithmetic, below: u64, top: u64) -> (result: Option<u64>)
    ensures
        result == arithmetic(op, below, top),
{
    match op {
        Arithmetic::Plus => {
            Some(below.wrapping_add(top))
        },
        Arithmetic::Minus => {
            Some(below.wrapping_sub(top))
        },
        Arithmetic::Mul => {
            Some(below.wrapping_mul(top))
        },
        Arithmetic::Div => {
            if top == 0 {
                None
            } else {
                Some(below / top)
            }
        },
    }
}

/// Decides a comparison of the value below with the one on top.
pub fn compare(op: Equality, below: u64, top: u64) -> (holds: bool)
    ensures
        holds == comparison(op, below, top),
{
    match op {
        Equality::Equal => top == below,
        Equality::Bigger => top < below,
        Equality::Smaller => top > below,
    }
}

/// The line that printing a value gives, if any.
pub fn render(value: (Types, u64)) -> (line: Option<Vec<u8>>)
    ensures
        match line {
            Some(text) => printed(value) == Some(text@),
            None => printed(value) is None,
        },
{
    match value.0 {
        Types::Int | Types::Pointer => Some(render_decimal(value.1)),
        Types::Bool => {
            if value.1 == 1 {
                Some("true".as_bytes_vec())
            } else {
                Some("false".as_bytes_vec())
            }
        },
        _ => None,
    }
}

/// The engine of one run.
#[derive(Debug)]
pub struct Interpreter {
    ip: usize,
    stack: Vec<(Types, u64)>,
    return_stack: Vec<(usize, Vec<u8>)>,
    memory: Memory,
}

impl View for Interpreter {
    type V = Machine;

    closed spec fn view(&self) -> Machine {
        Machine {
            ip: self.ip,
            stack: self.stack@,
            calls: call_views(self.return_stack@),
            memory: self.memory@,
        }
    }
}

impl Interpreter {
    /// Holds a stack against a list of tags, the top of the stack against
    /// the first of the list, and reports the first tag that is not met.
    pub fn expect(stack: &Vec<(Types, u64)>, expected_types: &Vec<Types>) -> (result: Result<
        (),
        Fault,
    >)
        ensures
            result == (match mismatch(stack@, expected_types@) {
                Some(fault) => Err::<(), Fault>(fault),
                None => Ok(()),
            }),
    {
        let mut i: usize = 0;
        proof {
            assert(stack@.take(stack.len() as int) == stack@);
            assert(expected_types@.skip(0) == expected_types@);
        }
        while i < expected_types.len()
            invariant
                i <= expected_types.len(),
                i <= stack.len(),
                mismatch(stack@, expected_types@) == mismatch(
                    stack@.take(stack.len() - i),
                    expected_types@.skip(i as int),
                ),
            decreases expected_types.len() - i,
        {
            let ghost held = stack@.take(stack.len() - i);
            let ghost rest = expected_types@.skip(i as int);
            proof {
                assert(rest.skip(1) =~= expected_types@.skip(i + 1));
            }
            if stack.len() == i {
                return Err(Fault::StackUnderflow);
            }
            let expected = expected_types[i];
            let actual = stack[stack.len() - 1 - i].0;
            proof {
                assert(held.drop_last() =~= stack@.take(stack.len() - (i + 1)));
            }
            if expected != Types::Unknown && expected != actual {
                return Err(Fault::TypeMismatch { expected, actual });
            }
            i += 1;
        }
        Ok(())
    }

    /// The engine at the start of a run: at the first instruction of
    /// `main`, with nothing on its stacks and nothing in memory. Fails
    /// where the program has no `main`.
    pub fn new(program: &Program) -> (result: Result<Interpreter, Fault>)
        ensures
            match result {
                Ok(engine) => {
                    &&& program@.procedure(main_name()) matches Some(main)
                    &&& engine@ == Machine::start(main.location)
                    &&& engine@.wf()
                },
                Err(fault) => fault == Fault::MissingMain && program@.procedure(main_name())
                    is None,
            },
    {
        match program.procedure("main".as_bytes()) {
            None => Err(Fault::MissingMain),
            Some(main) => {
                let engine = Interpreter {
                    ip: main.Location,
                    stack: Vec::new(),
                    return_stack: Vec::new(),
                    memory: Memory::new(),
                };
                proof {
                    assert(engine@.calls =~= Machine::start(main.Location).calls);
                }
                Ok(engine)
            },
        }
    }

    /// Takes the topmost value off the stack.
    fn pop(&mut self) -> (value: (Types, u64))
        requires
            old(self)@.stack.len() > 0,
        ensures
            value == old(self)@.operand(0),
            final(self)@ == (Machine { stack: old(self)@.below(1), ..old(self)@ }),
    {
        let value = self.stack[self.stack.len() - 1];
        self.stack.pop();
        value
    }

    /// Puts a value on the stack.
    fn push(&mut self, value: (Types, u64))
        ensures
            final(self)@ == (Machine { stack: old(self)@.stack.push(value), ..old(self)@ }),
    {
        self.stack.push(value);
    }

    /// Moves the pointer to the next instruction.
    fn next(&mut self)
        requires
            old(self)@.ip < usize::MAX,
        ensures
            final(self)@ == (Machine { ip: (old(self)@.ip + 1) as usize, ..old(self)@ }),
    {
        self.ip = self.ip + 1;
    }

    /// A call: the stack is held against the parameters of the procedure,
    /// the call is noted on the return stack, and the pointer moves to the
    /// first instruction of the procedure.
    fn call(&mut self, program: &Program, name: &[u8]) -> (result: Result<Action, Fault>)
        requires
            old(self)@.wf(),
            old(self)@.ip < program@.tokens.len(),
            program@.tokens[old(self)@.ip as int] == Instr::Ident(name@),
        ensures
            final(self)@ == step(program@, old(self)@).state,
            outcome_view(result) == step(program@, old(self)@).result,
            final(self)@.wf(),
    {
        match program.procedure(name) {
            None => Err(Fault::UnknownIdent),
            Some(callee) => {
                match Self::expect(&self.stack, &callee.ParameterTypes) {
                    Err(fault) => Err(fault),
                    Ok(()) => {
                        let site = self.ip;
                        self.return_stack.push((site, copy_bytes(&callee.Proc)));
                        self.ip = callee.Location;
                        proof {
                            vstd::std_specs::vec::axiom_spec_len(&program.tokens);
                            assert(self@.calls =~= step(program@, old(self)@).state.calls);
                        }
                        Ok(Action::Continue)
                    },
                }
            },
        }
    }

    /// A return: with no call under way the pointer leaves the stream.
    /// Otherwise the stack is held against the results of the procedure
    /// left, and the pointer moves one past the calling instruction.
    fn leave(&mut self, program: &Program) -> (result: Result<Action, Fault>)
        requires
            old(self)@.wf(),
            old(self)@.ip < program@.tokens.len(),
            program@.tokens[old(self)@.ip as int] == Instr::Return,
        ensures
            final(self)@ == step(program@, old(self)@).state,
            outcome_view(result) == step(program@, old(self)@).result,
            final(self)@.wf(),
    {
        let depth = self.return_stack.len();
        if depth == 0 {
            self.ip = program.tokens.len();
            return Ok(Action::Continue);
        }
        match program.procedure(&self.return_stack[depth - 1].1) {
            None => Err(Fault::UnknownIdent),
            Some(callee) => {
                match Self::expect(&self.stack, &callee.ReturnTypes) {
                    Err(fault) => Err(fault),
                    Ok(()) => {
                        let site = self.return_stack[depth - 1].0;
                        self.return_stack.pop();
                        self.ip = site + 1;
                        proof {
                            assert(self@.calls =~= step(program@, old(self)@).state.calls);
                        }
                        Ok(Action::Continue)
                    },
                }
            },
        }
    }

    /// One step: dispatches the instruction at the pointer, or reports that
    /// the run is over.
    pub fn step(&mut self, program: &Program) -> (result: Result<Action, Fault>)
        requires
            old(self)@.wf(),
        ensures
            final(self)@ == step(program@, old(self)@).state,
            outcome_view(result) == step(program@, old(self)@).result,
            final(self)@.wf(),
    {
        if self.ip >= program.tokens.len() {
            return Ok(Action::Halt);
        }
        let op = &program.tokens[self.ip];
        match op {
            OpCodes::Ident(name) => self.call(program, name),
            OpCodes::Return => self.leave(program),
            _ => match Self::expect(&self.stack, &operands(op)) {
                Err(fault) => Err(fault),
                Ok(()) => self.dispatch(program, op),
            },
        }
    }

    /// What an instruction other than a call and a return does, once the
    /// stack is known to hold what the instruction takes.
    fn dispatch(&mut self, program: &Program, op: &OpCodes) -> (result: Result<Action, Fault>)
        requires
            old(self)@.wf(),
            old(self)@.ip < program@.tokens.len(),
            op@ == program@.tokens[old(self)@.ip as int],
            !(op is Ident),
            !(op is Return),
            mismatch(old(self)@.stack, signature(op@)) is None,
        ensures
            final(self)@ == execute(program@, old(self)@).state,
            outcome_view(result) == execute(program@, old(self)@).result,
            final(self)@.wf(),
    {
        let ghost s = self@;
        proof {
            lemma_meets(s.stack, signature(op@));
            vstd::std_specs::vec::axiom_spec_len(&program.tokens);
        }
        match op {
            OpCodes::Drop => {
                self.pop();
                self.next();
                Ok(Action::Continue)
            },
            OpCodes::Dup => {
                let top = self.stack[self.stack.len() - 1];
                self.push(top);
                self.next();
                Ok(Action::Continue)
            },
            OpCodes::Swap => {
                let top = self.pop();
                let second = self.pop();
                self.push(top);
                self.push(second);
                self.next();
                proof {
                    assert(s.below(1).take(s.below(1).len() - 1) =~= s.below(2));
                }
                Ok(Action::Continue)
            },
            OpCodes::Rot => {
                self.next();
                Ok(Action::Continue)
            },
            OpCodes::Cast(tag) => {
                let top = self.pop();
                match tag {
                    Types::Int | Types::Pointer | Types::Bool => {
                        self.push((*tag, top.1));
                    },
                    _ => {},
                }
                self.next();
                Ok(Action::Continue)
            },
            OpCodes::Push(tag, number, text) => {
                match tag {
                    Types::Int | Types::Bool => {
                        self.push((*tag, *number));
                    },
                    Types::String => {
                        let mut bytes = decode_escapes(text);
                        bytes.push(0);
                        let base = self.memory.allocate(&bytes);
                        self.push((Types::Pointer, base));
                    },
                    _ => {},
                }
                self.next();
                Ok(Action::Continue)
            },
            OpCodes::Arithmetic(operator) => {
                let top = self.stack[self.stack.len() - 1];
                let second = self.stack[self.stack.len() - 2];
                match compute(*operator, second.1, top.1) {
                    None => Err(Fault::DivisionByZero),
                    Some(n) => {
                        self.pop();
                        self.pop();
                        self.push((Types::Int, n));
                        self.next();
                        proof {
                            assert(s.below(1).take(s.below(1).len() - 1) =~= s.below(2));
                        }
                        Ok(Action::Continue)
                    },
                }
            },
            OpCodes::Equality(operator) => {
                let top = self.pop();
                let second = self.pop();
                let holds = compare(*operator, second.1, top.1);
                self.push((Types::Bool, if holds { 1 } else { 0 }));
                self.next();
                proof {
                    assert(s.below(1).take(s.below(1).len() - 1) =~= s.below(2));
                }
                Ok(Action::Continue)
            },
            OpCodes::If => {
                let top = self.stack[self.stack.len() - 1];
                if top.1 != 0 {
                    self.pop();
                    self.next();
                    Ok(Action::Continue)
                } else {
                    match program.scope_end(self.ip + 1) {
                        None => Err(Fault::UnclosedBlock),
                        Some(close) => {
                            self.pop();
                            self.ip = close;
                            Ok(Action::Continue)
                        },
                    }
                }
            },
            OpCodes::Goto(word) => {
                match program.label(word) {
                    None => Err(Fault::UnknownLabel),
                    Some(resume) => {
                        self.ip = resume;
                        Ok(Action::Continue)
                    },
                }
            },
            OpCodes::Load => {
                let top = self.pop();
                let value = self.memory.load(top.1);
                self.push((Types::Int, value));
                self.next();
                Ok(Action::Continue)
            },
            OpCodes::Store => {
                let top = self.pop();
                let second = self.pop();
                self.memory.store(top.1, second.1);
                self.next();
                proof {
                    assert(s.below(1).take(s.below(1).len() - 1) =~= s.below(2));
                }
                Ok(Action::Continue)
            },
            OpCodes::Print => {
                let top = self.pop();
                self.next();
                match render(top) {
                    Some(line) => Ok(Action::Print(line)),
                    None => Ok(Action::Continue),
                }
            },
            OpCodes::Syscalls(Syscalls::Open) => {
                self.next();
                Ok(Action::Continue)
            },
            OpCodes::Syscalls(Syscalls::Read) => {
                let fd = self.stack[self.stack.len() - 1];
                let len = self.stack[self.stack.len() - 2];
                if len.1 > READ_LIMIT {
                    Err(Fault::ReadTooLong)
                } else {
                    self.pop();
                    self.pop();
                    self.next();
                    proof {
                        assert(s.below(1).take(s.below(1).len() - 1) =~= s.below(2));
                    }
                    Ok(Action::Read { fd: fd.1, len: len.1 })
                }
            },
            OpCodes::Syscalls(Syscalls::Write) => {
                let fd = self.pop();
                let ptr = self.pop();
                let len = self.pop();
                let bytes = self.memory.read(ptr.1, len.1);
                self.next();
                proof {
                    assert(s.below(1).take(s.below(1).len() - 1) =~= s.below(2));
                    assert(s.below(2).take(s.below(2).len() - 1) =~= s.below(3));
                }
                Ok(Action::Write { fd: fd.1, bytes })
            },
            OpCodes::EOP => {
                self.next();
                Ok(Action::Continue)
            },
            OpCodes::Ident(_) | OpCodes::Return => unreached(),
        }
    }

    /// Up to `fuel` steps, ending early with the first step that fails or
    /// that asks anything of the outside. In debug mode at most one step is
    /// made, so that the caller sees the pointer before every instruction.
    /// `Action::Continue` says that the steps were made and the run can go
    /// on.
    pub fn run(&mut self, program: &Program, args: &Args, fuel: usize) -> (result: Result<
        Action,
        Fault,
    >)
        requires
            old(self)@.wf(),
        ensures
            final(self)@ == run(program@, old(self)@, burst(args.debug, fuel)).state,
            outcome_view(result) == run(program@, old(self)@, burst(args.debug, fuel)).result,
            final(self)@.wf(),
    {
        let limit: usize = if args.debug && fuel > 1 {
            1
        } else {
            fuel
        };
        let mut left: usize = limit;
        while left > 0
            invariant
                self@.wf(),
                limit as nat == burst(args.debug, fuel),
                run(program@, old(self)@, limit as nat) == run(program@, self@, left as nat),
            decreases left,
        {
            match self.step(program) {
                Ok(Action::Continue) => {
                    left -= 1;
                },
                other => {
                    return other;
                },
            }
        }
        Ok(Action::Continue)
    }

    /// Takes in what a read brought: the 200 bytes of the buffer and a
    /// closing zero are written to 201 new addresses, and a pointer to the
    /// first of them is put on the stack.
    pub fn deliver(&mut self, buffer: &[u8; 200])
        requires
            old(self)@.wf(),
        ensures
            final(self)@ == old(self)@.deliver(buffer@),
            final(self)@.wf(),
    {
        let mut bytes: Vec<u8> = Vec::new();
        let mut i: usize = 0;
        while i < 200
            invariant
                i <= 200,
                bytes@ == buffer@.take(i as int),
            decreases 200 - i,
        {
            bytes.push(buffer[i]);
            i += 1;
        }
        proof {
            assert(buffer@.take(200) =~= buffer@);
        }
        bytes.push(0);
        let base = self.memory.allocate(&bytes);
        self.push((Types::Pointer, base));
    }

    /// Judges what a write returned: a negative status is a failure.
    pub fn written(status: isize) -> (result: Result<(), Fault>)
        ensures
            result == (if status < 0 {
                Err::<(), Fault>(Fault::WriteFailed)
            } else {
                Ok(())
            }),
    {
        if status < 0 {
            Err(Fault::WriteFailed)
        } else {
            Ok(())
        }
    }

    /// The index of the next instruction.
    pub fn ip(&self) -> (ip: usize)
        ensures
            ip == self@.ip,
    {
        self.ip
    }

    /// The operand stack, its top last.
    pub fn stack(&self) -> (stack: &Vec<(Types, u64)>)
        ensures
            stack@ == self@.stack,
    {
        &self.stack
    }

    /// The return stack, its top last.
    pub fn return_stack(&self) -> (calls: &Vec<(usize, Vec<u8>)>)
        ensures
            call_views(calls@) == self@.calls,
    {
        &self.return_stack
    }

    pub fn memory(&self) -> (memory: &Memory)
        ensures
            memory@ == self@.memory,
    {
        &self.memory
    }
}

/// The number of steps that one call of `run` may make.
pub open spec fn burst(debug: bool, fuel: usize) -> nat {
    if debug && fuel > 1 {
        1
    } else {
        fuel as nat
    }
}

/// The name of the procedure with which a run starts.
pub open spec fn main_name() -> Seq<u8> {
    "main".spec_bytes()
}

} // verus!
