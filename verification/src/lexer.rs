//! The instruction set and the loader that resolves source text into it.

use crate::fault::Fault;
use crate::loading::{
    lemma_feed_balanced, lemma_feed_wf, lemma_finish_closed, lemma_finish_wf,
    lemma_splice_balanced, lemma_splice_wf, moved_label, moved_procedure, moved_scopes,
    moved_scopes_below, scan, LexerView, Mode, ScanView,
};
use crate::program::{label_views, procedure_views, Label, LabelView, Program, ProgramView};
use crate::words::{
    copy_bytes, copy_tags, ends_word, read_tag, read_word, spells, Word, BACKSLASH, COLON, QUOTE,
    SPACE,
};
use std::collections::HashMap;
use vstd::prelude::*;

verus! {

broadcast use vstd::std_specs::hash::group_hash_axioms;

/// The tag of a value. `Unknown` only occurs in operand requirements, where
/// it admits a value of any tag.
#[derive(Debug, PartialEq, Eq, Clone, Copy, Structural)]
pub enum Types {
    Int,
    Bool,
    String,
    Pointer,
    Unknown,
}

#[derive(Debug, PartialEq, Eq, Clone, Copy, Structural)]
pub enum Arithmetic {
    Plus,
    Minus,
    Mul,
    Div,
}

#[derive(Debug, PartialEq, Eq, Clone, Copy, Structural)]
pub enum Equality {
    Equal,
    Bigger,
    Smaller,
}

/// What opened a block.
#[derive(Debug, PartialEq, Eq, Clone, Copy, Structural)]
pub enum ScopeTypes {
    Proc,
    If,
}

#[derive(Debug, PartialEq, Eq, Clone, Copy, Structural)]
pub enum Syscalls {
    Read,
    Write,
    Open,
}

/// One instruction of the resolved stream. Names and string literals are
/// kept as the bytes of the source.
#[derive(Debug, PartialEq, Eq, Clone)]
pub enum OpCodes {
    Push(Types, u64, Vec<u8>),
    Arithmetic(Arithmetic),
    Equality(Equality),
    Cast(Types),
    Ident(Vec<u8>),
    Goto(Vec<u8>),
    Syscalls(Syscalls),
    Return,
    Load,
    Store,
    Dup,
    Swap,
    Rot,
    Drop,
    If,
    EOP,
    Print,
}

/// The mathematical value of an instruction.
pub enum Instr {
    Push(Types, u64, Seq<u8>),
    Arithmetic(Arithmetic),
    Equality(Equality),
    Cast(Types),
    Ident(Seq<u8>),
    Goto(Seq<u8>),
    Syscalls(Syscalls),
    Return,
    Load,
    Store,
    Dup,
    Swap,
    Rot,
    Drop,
    If,
    EOP,
    Print,
}

impl View for OpCodes {
    type V = Instr;

    open spec fn view(&self) -> Instr {
        match *self {
            OpCodes::Push(t, n, s) => Instr::Push(t, n, s@),
            OpCodes::Arithmetic(a) => Instr::Arithmetic(a),
            OpCodes::Equality(e) => Instr::Equality(e),
            OpCodes::Cast(t) => Instr::Cast(t),
            OpCodes::Ident(s) => Instr::Ident(s@),
            OpCodes::Goto(s) => Instr::Goto(s@),
            OpCodes::Syscalls(s) => Instr::Syscalls(s),
            OpCodes::Return => Instr::Return,
            OpCodes::Load => Instr::Load,
            OpCodes::Store => Instr::Store,
            OpCodes::Dup => Instr::Dup,
            OpCodes::Swap => Instr::Swap,
            OpCodes::Rot => Instr::Rot,
            OpCodes::Drop => Instr::Drop,
            OpCodes::If => Instr::If,
            OpCodes::EOP => Instr::EOP,
            OpCodes::Print => Instr::Print,
        }
    }
}

/// The instructions of a stream, each by its mathematical value.
pub open spec fn instrs(tokens: Seq<OpCodes>) -> Seq<Instr> {
    Seq::new(tokens.len(), |i: int| tokens[i]@)
}

/// A procedure: its name, the index of its first instruction, and the tags
/// it takes and leaves, each list written top of stack first.
#[allow(non_snake_case)]
#[derive(Debug, PartialEq, Eq, Clone)]
pub struct Procedure {
    pub Proc: Vec<u8>,
    pub Location: usize,
    pub ParameterTypes: Vec<Types>,
    pub ReturnTypes: Vec<Types>,
}

/// The mathematical value of a procedure.
pub struct ProcView {
    pub name: Seq<u8>,
    pub location: usize,
    pub parameters: Seq<Types>,
    pub returns: Seq<Types>,
}

impl View for Procedure {
    type V = ProcView;

    open spec fn view(&self) -> ProcView {
        ProcView {
            name: self.Proc@,
            location: self.Location,
            parameters: self.ParameterTypes@,
            returns: self.ReturnTypes@,
        }
    }
}

/// How a scan of a source ended.
#[derive(Debug, PartialEq, Eq, Clone)]
pub enum Scan {
    /// The source is read to its end.
    Done,
    /// The source named by `path` is to be loaded and spliced in; the scan
    /// then goes on at `next`.
    Include { path: Vec<u8>, next: usize },
}

impl View for Scan {
    type V = ScanView;

    open spec fn view(&self) -> ScanView {
        match *self {
            Scan::Done => ScanView::Done,
            Scan::Include { path, next } => ScanView::Include { path: path@, next: next },
        }
    }
}

/// What came of a byte, as a mathematical value.
pub open spec fn fed_view(result: Result<Option<Vec<u8>>, Fault>) -> Result<
    Option<Seq<u8>>,
    Fault,
> {
    match result {
        Ok(Some(path)) => Ok(Some(path@)),
        Ok(None) => Ok(None),
        Err(fault) => Err(fault),
    }
}

/// How a scan ended, as a mathematical value.
pub open spec fn scan_view(result: Result<Scan, Fault>) -> Result<ScanView, Fault> {
    match result {
        Ok(scan) => Ok(scan@),
        Err(fault) => Err(fault),
    }
}

/// The loader. It is fed the bytes of a source and builds the instruction
/// stream and its tables. Where the source includes another, the loader
/// hands out the path and takes the loaded program back.
#[derive(Debug)]
pub struct Lexer {
    tokens: Vec<OpCodes>,
    open: Vec<(usize, ScopeTypes)>,
    scopes: HashMap<usize, usize>,
    procedures: Vec<Procedure>,
    labels: Vec<Label>,
    mode: Mode,
    token: Vec<u8>,
    header: Procedure,
}

impl View for Lexer {
    type V = LexerView;

    closed spec fn view(&self) -> LexerView {
        LexerView {
            tokens: instrs(self.tokens@),
            open: self.open@,
            scopes: self.scopes@,
            procedures: procedure_views(self.procedures@),
            labels: label_views(self.labels@),
            mode: self.mode,
            token: self.token@,
            header: self.header@,
        }
    }
}

impl Lexer {
    /// The loader before the first byte.
    pub fn new() -> (lexer: Lexer)
        ensures
            lexer@ == LexerView::start(),
            lexer@.wf(),
            lexer@.balanced(),
    {
        let lexer = Lexer {
            tokens: Vec::new(),
            open: Vec::new(),
            scopes: HashMap::new(),
            procedures: Vec::new(),
            labels: Vec::new(),
            mode: Mode::Words,
            token: Vec::new(),
            header: Procedure {
                Proc: Vec::new(),
                Location: 0,
                ParameterTypes: Vec::new(),
                ReturnTypes: Vec::new(),
            },
        };
        proof {
            let start = LexerView::start();
            assert(lexer@.tokens =~= start.tokens);
            assert(lexer@.procedures =~= start.procedures);
            assert(lexer@.labels =~= start.labels);
        }
        lexer
    }

    /// The byte joins the word being read.
    fn grow(&mut self, byte: u8)
        ensures
            final(self)@ == old(self)@.grow(byte),
    {
        self.token.push(byte);
    }

    /// The instruction joins the stream.
    fn emit(&mut self, op: OpCodes)
        ensures
            final(self)@ == old(self)@.emit(op@),
    {
        self.tokens.push(op);
        proof {
            assert(self@.tokens =~= old(self)@.tokens.push(op@));
        }
    }

    /// Takes the word being read, and leaves none.
    fn take(&mut self) -> (word: Vec<u8>)
        ensures
            word@ == old(self)@.token,
            final(self)@ == (LexerView { token: Seq::empty(), ..old(self)@ }),
    {
        let mut word: Vec<u8> = Vec::new();
        core::mem::swap(&mut word, &mut self.token);
        word
    }

    /// Drops the word being read, and reads on in `mode`.
    fn enter(&mut self, mode: Mode)
        ensures
            final(self)@ == old(self)@.enter(mode),
    {
        self.token = Vec::new();
        self.mode = mode;
    }

    /// The end of a word in the program text.
    fn word(&mut self) -> (result: Result<(), Fault>)
        ensures
            final(self)@ == old(self)@.word().state,
            match result {
                Ok(()) => old(self)@.word().result == Ok::<Option<Seq<u8>>, Fault>(None),
                Err(fault) => old(self)@.word().result == Err::<Option<Seq<u8>>, Fault>(fault),
            },
    {
        match read_word(&self.token) {
            Word::Emit(op) => {
                self.emit(op);
                self.enter(Mode::Words);
            },
            Word::If => {
                self.tokens.push(OpCodes::If);
                let at = self.tokens.len();
                self.open.push((at, ScopeTypes::If));
                proof {
                    assert(self@.tokens =~= old(self)@.tokens.push(Instr::If));
                }
                self.enter(Mode::Words);
            },
            Word::End => {
                let depth = self.open.len();
                if depth == 0 {
                    return Err(Fault::UnexpectedEnd);
                }
                let (at, kind) = self.open[depth - 1];
                self.open.pop();
                let close = self.tokens.len();
                self.scopes.insert(at, close);
                if kind == ScopeTypes::Proc {
                    self.emit(OpCodes::Return);
                }
                self.enter(Mode::Words);
            },
            Word::Use => {
                self.enter(Mode::Use);
            },
            Word::Proc => {
                self.enter(Mode::Name);
            },
            Word::Goto => {
                self.enter(Mode::Goto);
            },
            Word::Label(name) => {
                let resume = self.tokens.len();
                self.labels.push(Label { name, resume });
                proof {
                    assert(self@.labels =~= old(self)@.labels.push(
                        LabelView { name: old(self)@.token, resume: resume },
                    ));
                }
                self.enter(Mode::Words);
            },
        }
        Ok(())
    }

    /// The end of a word among the result tags of a procedure header.
    fn result_word(&mut self)
        ensures
            final(self)@ == old(self)@.result_word(),
    {
        if spells(&self.token, "in") {
            let at = self.tokens.len();
            let procedure = Procedure {
                Proc: copy_bytes(&self.header.Proc),
                Location: at,
                ParameterTypes: copy_tags(&self.header.ParameterTypes),
                ReturnTypes: copy_tags(&self.header.ReturnTypes),
            };
            self.procedures.push(procedure);
            self.open.push((at, ScopeTypes::Proc));
            proof {
                assert(self@.procedures =~= old(self)@.procedures.push(
                    ProcView { location: at, ..old(self)@.header },
                ));
            }
            self.enter(Mode::Words);
        } else if self.token.len() == 0 {
        } else {
            let tag = read_tag(&self.token);
            self.header.ReturnTypes.push(tag);
            self.enter(Mode::Returns);
        }
    }

    /// Takes one byte of a source. Hands back the path of a source that is
    /// to be included at this point, if the byte ended one.
    pub fn feed(&mut self, byte: u8) -> (result: Result<Option<Vec<u8>>, Fault>)
        ensures
            final(self)@ == old(self)@.feed(byte).state,
            fed_view(result) == old(self)@.feed(byte).result,
            old(self)@.wf() ==> final(self)@.wf(),
            old(self)@.balanced() ==> final(self)@.balanced(),
    {
        let result = self.feed_byte(byte);
        proof {
            vstd::std_specs::vec::axiom_spec_len(&self.tokens);
            if old(self)@.wf() {
                lemma_feed_wf(old(self)@, byte);
            }
            if old(self)@.balanced() {
                lemma_feed_balanced(old(self)@, byte);
            }
        }
        result
    }

    fn feed_byte(&mut self, byte: u8) -> (result: Result<Option<Vec<u8>>, Fault>)
        ensures
            final(self)@ == old(self)@.feed(byte).state,
            fed_view(result) == old(self)@.feed(byte).result,
    {
        match self.mode {
            Mode::Words => {
                if byte == QUOTE {
                    self.mode = Mode::Text;
                } else if !ends_word(byte) {
                    self.grow(byte);
                } else if self.token.len() == 0 {
                } else {
                    match self.word() {
                        Ok(()) => {},
                        Err(fault) => {
                            return Err(fault);
                        },
                    }
                }
                Ok(None)
            },
            Mode::Text => {
                if byte == QUOTE {
                    let text = self.take();
                    self.emit(OpCodes::Push(Types::String, 0, text));
                    self.mode = Mode::Words;
                } else if byte == BACKSLASH {
                    self.grow(byte);
                    self.mode = Mode::Escape;
                } else {
                    self.grow(byte);
                }
                Ok(None)
            },
            Mode::Escape => {
                self.grow(byte);
                self.mode = Mode::Text;
                Ok(None)
            },
            Mode::Use => {
                if ends_word(byte) {
                    let path = self.take();
                    self.mode = Mode::Words;
                    Ok(Some(path))
                } else {
                    self.grow(byte);
                    Ok(None)
                }
            },
            Mode::Name => {
                if ends_word(byte) {
                    let name = self.take();
                    self.header = Procedure {
                        Proc: name,
                        Location: 0,
                        ParameterTypes: Vec::new(),
                        ReturnTypes: Vec::new(),
                    };
                    self.mode = Mode::Parameters;
                } else {
                    self.grow(byte);
                }
                Ok(None)
            },
            Mode::Parameters => {
                if ends_word(byte) {
                    let tag = read_tag(&self.token);
                    self.header.ParameterTypes.push(tag);
                    self.enter(Mode::Parameters);
                } else if byte == COLON {
                    self.enter(Mode::Returns);
                } else {
                    self.grow(byte);
                }
                Ok(None)
            },
            Mode::Returns => {
                if ends_word(byte) {
                    self.result_word();
                } else {
                    self.grow(byte);
                }
                Ok(None)
            },
            Mode::Goto => {
                if ends_word(byte) {
                    let word = self.take();
                    self.emit(OpCodes::Goto(word));
                    self.mode = Mode::Words;
                } else {
                    self.grow(byte);
                }
                Ok(None)
            },
        }
    }

    /// Takes the bytes of a source from `from` on, up to the end of the
    /// source, the first error, or the first source to include.
    pub fn tokenize(&mut self, source: &[u8], from: usize) -> (result: Result<Scan, Fault>)
        ensures
            final(self)@ == scan(old(self)@, source@, from as int).state,
            scan_view(result) == scan(old(self)@, source@, from as int).result,
            old(self)@.wf() ==> final(self)@.wf(),
            old(self)@.balanced() ==> final(self)@.balanced(),
    {
        let mut i: usize = from;
        while i < source.len()
            invariant
                from <= i,
                scan(old(self)@, source@, from as int) == scan(self@, source@, i as int),
                old(self)@.wf() ==> self@.wf(),
                old(self)@.balanced() ==> self@.balanced(),
            decreases source.len() - i,
        {
            match self.feed(source[i]) {
                Err(fault) => {
                    return Err(fault);
                },
                Ok(Some(path)) => {
                    return Ok(Scan::Include { path, next: i + 1 });
                },
                Ok(None) => {},
            }
            i += 1;
        }
        Ok(Scan::Done)
    }

    /// Takes in the closed blocks of a program, moved by `base`.
    fn graft_scopes(&mut self, scopes: &HashMap<usize, usize>, base: usize, count: usize)
        requires
            base + count <= usize::MAX,
            forall|k: usize| #[trigger] scopes@.contains_key(k) ==> k <= scopes@[k] <= count,
        ensures
            final(self)@ == (LexerView {
                scopes: old(self)@.scopes.union_prefer_right(moved_scopes(scopes@, base as int)),
                ..old(self)@
            }),
    {
        let mut k: usize = 0;
        let mut done = false;
        let ghost mut seen: int = 0;
        proof {
            assert(self@.scopes =~= old(self)@.scopes.union_prefer_right(
                moved_scopes_below(scopes@, base as int, 0),
            ));
        }
        while !done
            invariant
                k <= count,
                done ==> k == count,
                base + count <= usize::MAX,
                seen == (if done {
                    k + 1
                } else {
                    k as int
                }),
                forall|k: usize| #[trigger] scopes@.contains_key(k) ==> k <= scopes@[k] <= count,
                self@ == (LexerView {
                    scopes: old(self)@.scopes.union_prefer_right(
                        moved_scopes_below(scopes@, base as int, seen),
                    ),
                    ..old(self)@
                }),
            decreases count + 1 - seen,
        {
            match scopes.get(&k) {
                Some(close) => {
                    self.scopes.insert(base + k, base + *close);
                },
                None => {},
            }
            proof {
                assert(self@.scopes =~= old(self)@.scopes.union_prefer_right(
                    moved_scopes_below(scopes@, base as int, seen + 1),
                ));
                seen = seen + 1;
            }
            if k == count {
                done = true;
            } else {
                k += 1;
            }
        }
        proof {
            assert(moved_scopes_below(scopes@, base as int, count + 1) =~= moved_scopes(
                scopes@,
                base as int,
            ));
        }
    }

    /// Takes in the procedures of a program, moved by `base`.
    fn graft_procedures(&mut self, procedures: &Vec<Procedure>, base: usize, count: usize)
        requires
            base + count <= usize::MAX,
            forall|i: int|
                0 <= i < procedures.len() ==> (#[trigger] procedures[i]).Location <= count,
        ensures
            final(self)@ == (LexerView {
                procedures: old(self)@.procedures + Seq::new(
                    procedures.len() as nat,
                    |i: int| moved_procedure(procedures[i]@, base as int),
                ),
                ..old(self)@
            }),
    {
        let mut i: usize = 0;
        while i < procedures.len()
            invariant
                i <= procedures.len(),
                base + count <= usize::MAX,
                forall|i: int|
                    0 <= i < procedures.len() ==> (#[trigger] procedures[i]).Location <= count,
                self@ == (LexerView {
                    procedures: old(self)@.procedures + Seq::new(
                        i as nat,
                        |j: int| moved_procedure(procedures[j]@, base as int),
                    ),
                    ..old(self)@
                }),
            decreases procedures.len() - i,
        {
            let entry = &procedures[i];
            let moved = Procedure {
                Proc: copy_bytes(&entry.Proc),
                Location: entry.Location + base,
                ParameterTypes: copy_tags(&entry.ParameterTypes),
                ReturnTypes: copy_tags(&entry.ReturnTypes),
            };
            let ghost before = self@.procedures;
            let ghost added = moved@;
            self.procedures.push(moved);
            proof {
                assert(self@.procedures =~= before.push(added));
                assert(self@.procedures =~= old(self)@.procedures + Seq::new(
                    (i + 1) as nat,
                    |j: int| moved_procedure(procedures[j]@, base as int),
                ));
            }
            i += 1;
        }
    }

    /// Takes in the labels of a program, moved by `base`.
    fn graft_labels(&mut self, labels: &Vec<Label>, base: usize, count: usize)
        requires
            base + count <= usize::MAX,
            forall|i: int| 0 <= i < labels.len() ==> (#[trigger] labels[i]).resume <= count,
        ensures
            final(self)@ == (LexerView {
                labels: old(self)@.labels + Seq::new(
                    labels.len() as nat,
                    |i: int| moved_label(labels[i]@, base as int),
                ),
                ..old(self)@
            }),
    {
        let mut i: usize = 0;
        while i < labels.len()
            invariant
                i <= labels.len(),
                base + count <= usize::MAX,
                forall|i: int| 0 <= i < labels.len() ==> (#[trigger] labels[i]).resume <= count,
                self@ == (LexerView {
                    labels: old(self)@.labels + Seq::new(
                        i as nat,
                        |j: int| moved_label(labels[j]@, base as int),
                    ),
                    ..old(self)@
                }),
            decreases labels.len() - i,
        {
            let entry = &labels[i];
            let moved = Label { name: copy_bytes(&entry.name), resume: entry.resume + base };
            let ghost before = self@.labels;
            let ghost added = moved@;
            self.labels.push(moved);
            proof {
                assert(self@.labels =~= before.push(added));
                assert(self@.labels =~= old(self)@.labels + Seq::new(
                    (i + 1) as nat,
                    |j: int| moved_label(labels[j]@, base as int),
                ));
            }
            i += 1;
        }
    }

    /// Takes in a loaded program at the point reached: its instructions
    /// follow those read so far, and every index in its tables moves by the
    /// number of instructions read so far. This is how a source that a
    /// `use` names becomes part of the program, wherever the `use` stands.
    pub fn splice(&mut self, included: Program)
        requires
            old(self)@.wf(),
            included@.wf(),
        ensures
            final(self)@ == old(self)@.splice(included@),
            final(self)@.wf(),
            old(self)@.balanced() && included@.closed() ==> final(self)@.balanced(),
    {
        let mut included = included;
        let ghost given = included@;
        let base = self.tokens.len();
        let count = included.tokens.len();
        self.tokens.append(&mut included.tokens);
        proof {
            vstd::std_specs::vec::axiom_spec_len(&self.tokens);
            assert(self@.tokens =~= old(self)@.tokens + given.tokens);
            assert forall|i: int| 0 <= i < included.procedures.len() implies (
            #[trigger] included.procedures[i]).Location <= count by {
                assert(given.procedures[i].location == included.procedures[i].Location);
            }
            assert forall|i: int| 0 <= i < included.labels.len() implies (
            #[trigger] included.labels[i]).resume <= count by {
                assert(given.labels[i].resume == included.labels[i].resume);
            }
        }
        self.graft_scopes(&included.scopes, base, count);
        self.graft_procedures(&included.procedures, base, count);
        self.graft_labels(&included.labels, base, count);
        proof {
            let after = old(self)@.splice(given);
            assert(self@.procedures =~= after.procedures);
            assert(self@.labels =~= after.labels);
            lemma_splice_wf(old(self)@, given);
            if old(self)@.balanced() && given.closed() {
                lemma_splice_balanced(old(self)@, given);
            }
        }
    }

    /// Ends the loading at the end of the source. The end of the source
    /// ends the last word as a space would. A source that ends inside a
    /// string literal, a procedure header, the path of a `use` or the label
    /// of a `goto` is refused, and so is one that ends with a block still
    /// open. Otherwise the end marker closes the stream, and the program is
    /// handed over.
    pub fn finish(self) -> (result: Result<Program, Fault>)
        ensures
            match result {
                Ok(program) => self@.finish() == Ok::<ProgramView, Fault>(program@),
                Err(fault) => self@.finish() == Err::<ProgramView, Fault>(fault),
            },
            self@.wf() ==> (result matches Ok(program) ==> program@.wf()),
            self@.balanced() ==> (result matches Ok(program) ==> program@.closed()),
    {
        let mut lexer = self;
        if lexer.mode != Mode::Words {
            return Err(Fault::Unfinished);
        }
        match lexer.feed(SPACE) {
            Err(fault) => {
                return Err(fault);
            },
            Ok(_) => {},
        }
        if lexer.mode != Mode::Words {
            return Err(Fault::Unfinished);
        }
        if lexer.open.len() > 0 {
            return Err(Fault::UnclosedBlock);
        }
        let mut tokens = lexer.tokens;
        tokens.push(OpCodes::EOP);
        let program = Program {
            tokens,
            scopes: lexer.scopes,
            procedures: lexer.procedures,
            labels: lexer.labels,
        };
        proof {
            assert(program@.tokens =~= self@.feed(SPACE).state.program().tokens);
            vstd::std_specs::vec::axiom_spec_len(&program.tokens);
            if self@.wf() {
                lemma_finish_wf(self@);
            }
            if self@.balanced() {
                lemma_finish_closed(self@);
            }
        }
        Ok(program)
    }

    /// The number of blocks that are open.
    pub fn depth(&self) -> (depth: usize)
        ensures
            depth == self@.open.len(),
    {
        self.open.len()
    }

    /// What the loader is reading.
    pub fn mode(&self) -> (mode: Mode)
        ensures
            mode == self@.mode,
    {
        self.mode
    }
}

} // verus!
