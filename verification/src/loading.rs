//! What the loader does with each byte of a source, stated over
//! mathematical values: the state of the loader as sequences and maps, and
//! `feed` from a state and a byte to the next state.

use crate::fault::Fault;
use crate::lexer::{Instr, ProcView, ScopeTypes, Types};
use crate::program::{LabelView, ProgramView};
use crate::words::{classify, is_space, tag_of, WordView, BACKSLASH, COLON, QUOTE, SPACE};
use vstd::prelude::*;
use vstd::string::StringSliceAdditionalSpecFns;

verus! {

/// What the loader is reading.
#[derive(Debug, PartialEq, Eq, Clone, Copy, Structural)]
pub enum Mode {
    /// Words, each ended by a space or a line feed.
    Words,
    /// A string literal, up to the first quote that is not escaped.
    Text,
    /// The byte after a backslash in a string literal.
    Escape,
    /// The path of a source to include.
    Use,
    /// The name of a procedure.
    Name,
    /// The parameter tags of a procedure, up to the colon.
    Parameters,
    /// The result tags of a procedure, up to the word `in`.
    Returns,
    /// The label of a jump.
    Goto,
}

/// The state of the loader.
pub struct LexerView {
    /// The instructions so far.
    pub tokens: Seq<Instr>,
    /// The blocks that are open, the innermost last: for each, the index of
    /// its first instruction and what opened it.
    pub open: Seq<(usize, ScopeTypes)>,
    /// The blocks that are closed: from the index of the first instruction
    /// to the index one past the last.
    pub scopes: Map<usize, usize>,
    pub procedures: Seq<ProcView>,
    pub labels: Seq<LabelView>,
    pub mode: Mode,
    /// The bytes of the word being read.
    pub token: Seq<u8>,
    /// The header of the procedure being declared.
    pub header: ProcView,
}

/// A state after a byte, and what came of the byte: an error, or the path
/// of a source that is to be included at this point, if any.
pub struct Fed {
    pub state: LexerView,
    pub result: Result<Option<Seq<u8>>, Fault>,
}

/// How a scan of a source ended, as a mathematical value.
pub enum ScanView {
    /// The source is read to its end.
    Done,
    /// The source named by `path` is to be included; the scan goes on at
    /// `next`.
    Include { path: Seq<u8>, next: usize },
}

/// A state after a scan, and how the scan ended.
pub struct Scanned {
    pub state: LexerView,
    pub result: Result<ScanView, Fault>,
}

/// The procedure header with nothing in it.
pub open spec fn blank_header() -> ProcView {
    ProcView {
        name: Seq::empty(),
        location: 0,
        parameters: Seq::empty(),
        returns: Seq::empty(),
    }
}

/// A procedure moved by `base` instructions.
pub open spec fn moved_procedure(p: ProcView, base: int) -> ProcView {
    ProcView { location: (p.location + base) as usize, ..p }
}

/// A label moved by `base` instructions.
pub open spec fn moved_label(l: LabelView, base: int) -> LabelView {
    LabelView { resume: (l.resume + base) as usize, ..l }
}

/// A table of closed blocks moved by `base` instructions.
pub open spec fn moved_scopes(scopes: Map<usize, usize>, base: int) -> Map<usize, usize> {
    Map::new(
        |k: usize| k >= base && scopes.contains_key((k - base) as usize),
        |k: usize| (scopes[(k - base) as usize] + base) as usize,
    )
}

/// The blocks of a table that open before `limit`, moved by `base`
/// instructions.
pub open spec fn moved_scopes_below(scopes: Map<usize, usize>, base: int, limit: int) -> Map<
    usize,
    usize,
> {
    Map::new(
        |k: usize| k >= base && k - base < limit && scopes.contains_key((k - base) as usize),
        |k: usize| (scopes[(k - base) as usize] + base) as usize,
    )
}

impl LexerView {
    /// The state before the first byte.
    pub open spec fn start() -> LexerView {
        LexerView {
            tokens: Seq::empty(),
            open: Seq::empty(),
            scopes: Map::empty(),
            procedures: Seq::empty(),
            labels: Seq::empty(),
            mode: Mode::Words,
            token: Seq::empty(),
            header: blank_header(),
        }
    }

    /// Every index that the state holds lies within the stream or one past
    /// its end, and no block closes before it opens.
    pub open spec fn wf(self) -> bool {
        &&& self.tokens.len() <= usize::MAX
        &&& forall|k: usize| #[trigger]
            self.scopes.contains_key(k) ==> k <= self.scopes[k] <= self.tokens.len()
        &&& forall|i: int|
            0 <= i < self.open.len() ==> (#[trigger] self.open[i]).0 <= self.tokens.len()
        &&& forall|i: int, j: int|
            0 <= i <= j < self.open.len() ==> (#[trigger] self.open[i]).0 <= (
            #[trigger] self.open[j]).0
        &&& forall|i: int|
            0 <= i < self.procedures.len() ==> (#[trigger] self.procedures[i]).location
                <= self.tokens.len()
        &&& forall|i: int|
            0 <= i < self.labels.len() ==> (#[trigger] self.labels[i]).resume <= self.tokens.len()
    }

    /// Whether a block that opens at `at` is open.
    pub open spec fn awaits(self, at: int) -> bool {
        exists|j: int| 0 <= j < self.open.len() && (#[trigger] self.open[j]).0 == at
    }

    /// Every `if` of the stream and every procedure has a block that is
    /// closed or still open.
    pub open spec fn balanced(self) -> bool {
        &&& forall|i: int|
            0 <= i < self.tokens.len() && #[trigger] self.tokens[i] == Instr::If
                ==> self.scopes.contains_key((i + 1) as usize) || self.awaits(i + 1)
        &&& forall|i: int|
            0 <= i < self.procedures.len() ==> self.scopes.contains_key(
                (#[trigger] self.procedures[i]).location,
            ) || self.awaits(self.procedures[i].location as int)
    }

    /// The byte joins the word being read.
    pub open spec fn grow(self, byte: u8) -> LexerView {
        LexerView { token: self.token.push(byte), ..self }
    }

    /// The instruction joins the stream.
    pub open spec fn emit(self, instr: Instr) -> LexerView {
        LexerView { tokens: self.tokens.push(instr), ..self }
    }

    /// The word being read is dropped, and the loader reads on in `mode`.
    pub open spec fn enter(self, mode: Mode) -> LexerView {
        LexerView { mode: mode, token: Seq::empty(), ..self }
    }

    pub open spec fn fine(self) -> Fed {
        Fed { state: self, result: Ok(None) }
    }

    /// The end of a word in the program text. A word with a fixed meaning,
    /// a number and a name each put one instruction into the stream. `if`
    /// puts its instruction and opens a block at the instruction after it.
    /// `end` closes the innermost block at the instruction that comes next,
    /// and where a procedure opened the block puts a return; with no block
    /// open it is an error. A label is registered at the instruction that
    /// comes next. `use`, `proc` and `goto` change what is read next.
    pub open spec fn word(self) -> Fed {
        match classify(self.token) {
            WordView::Emit(instr) => self.emit(instr).enter(Mode::Words).fine(),
            WordView::If => LexerView {
                tokens: self.tokens.push(Instr::If),
                open: self.open.push(((self.tokens.len() + 1) as usize, ScopeTypes::If)),
                ..self
            }.enter(Mode::Words).fine(),
            WordView::End => if self.open.len() == 0 {
                Fed { state: self, result: Err(Fault::UnexpectedEnd) }
            } else {
                let closed = LexerView {
                    open: self.open.drop_last(),
                    scopes: self.scopes.insert(self.open.last().0, self.tokens.len() as usize),
                    ..self
                };
                if self.open.last().1 == ScopeTypes::Proc {
                    closed.emit(Instr::Return).enter(Mode::Words).fine()
                } else {
                    closed.enter(Mode::Words).fine()
                }
            },
            WordView::Use => self.enter(Mode::Use).fine(),
            WordView::Proc => self.enter(Mode::Name).fine(),
            WordView::Goto => self.enter(Mode::Goto).fine(),
            WordView::Label => LexerView {
                labels: self.labels.push(
                    LabelView { name: self.token, resume: self.tokens.len() as usize },
                ),
                ..self
            }.enter(Mode::Words).fine(),
        }
    }

    /// The end of a word among the result tags of a procedure header. `in`
    /// ends the header: the procedure is registered at the instruction that
    /// comes next, and its block opens there. No word at all is passed
    /// over. Any other word is one more result tag.
    pub open spec fn result_word(self) -> LexerView {
        if self.token == "in".spec_bytes() {
            LexerView {
                procedures: self.procedures.push(
                    ProcView { location: self.tokens.len() as usize, ..self.header },
                ),
                open: self.open.push((self.tokens.len() as usize, ScopeTypes::Proc)),
                ..self
            }.enter(Mode::Words)
        } else if self.token.len() == 0 {
            self
        } else {
            LexerView {
                header: ProcView {
                    returns: self.header.returns.push(tag_of(self.token)),
                    ..self.header
                },
                ..self
            }.enter(Mode::Returns)
        }
    }

    /// One byte of a source.
    pub open spec fn feed(self, byte: u8) -> Fed {
        match self.mode {
            Mode::Words => if byte == QUOTE {
                LexerView { mode: Mode::Text, ..self }.fine()
            } else if !is_space(byte) {
                self.grow(byte).fine()
            } else if self.token.len() == 0 {
                self.fine()
            } else {
                self.word()
            },
            Mode::Text => if byte == QUOTE {
                self.emit(Instr::Push(Types::String, 0, self.token)).enter(Mode::Words).fine()
            } else if byte == BACKSLASH {
                LexerView { mode: Mode::Escape, ..self.grow(byte) }.fine()
            } else {
                self.grow(byte).fine()
            },
            Mode::Escape => LexerView { mode: Mode::Text, ..self.grow(byte) }.fine(),
            Mode::Use => if is_space(byte) {
                Fed { state: self.enter(Mode::Words), result: Ok(Some(self.token)) }
            } else {
                self.grow(byte).fine()
            },
            Mode::Name => if is_space(byte) {
                LexerView {
                    header: ProcView { name: self.token, ..blank_header() },
                    ..self
                }.enter(Mode::Parameters).fine()
            } else {
                self.grow(byte).fine()
            },
            Mode::Parameters => if is_space(byte) {
                LexerView {
                    header: ProcView {
                        parameters: self.header.parameters.push(tag_of(self.token)),
                        ..self.header
                    },
                    ..self
                }.enter(Mode::Parameters).fine()
            } else if byte == COLON {
                self.enter(Mode::Returns).fine()
            } else {
                self.grow(byte).fine()
            },
            Mode::Returns => if is_space(byte) {
                self.result_word().fine()
            } else {
                self.grow(byte).fine()
            },
            Mode::Goto => if is_space(byte) {
                self.emit(Instr::Goto(self.token)).enter(Mode::Words).fine()
            } else {
                self.grow(byte).fine()
            },
        }
    }

    /// A loaded program joins the state at the point reached: its
    /// instructions follow those of the state, and every index in its
    /// tables moves by the number of instructions that the state held.
    pub open spec fn splice(self, included: ProgramView) -> LexerView {
        let base = self.tokens.len() as int;
        LexerView {
            tokens: self.tokens + included.tokens,
            scopes: self.scopes.union_prefer_right(moved_scopes(included.scopes, base)),
            procedures: self.procedures + Seq::new(
                included.procedures.len(),
                |i: int| moved_procedure(included.procedures[i], base),
            ),
            labels: self.labels + Seq::new(
                included.labels.len(),
                |i: int| moved_label(included.labels[i], base),
            ),
            ..self
        }
    }

    /// The stream with the end marker at its end, and the tables as they
    /// stand.
    pub open spec fn program(self) -> ProgramView {
        ProgramView {
            tokens: self.tokens.push(Instr::EOP),
            scopes: self.scopes,
            procedures: self.procedures,
            labels: self.labels,
        }
    }

    /// What the state comes to at the end of the source. The end of the
    /// source ends the last word of the program text as a space would. A
    /// source that ends inside a string literal, a procedure header, the
    /// path of a `use` or the label of a `goto` is refused, and so is a
    /// source that ends with a block still open. What is left is the
    /// program of the source.
    pub open spec fn finish(self) -> Result<ProgramView, Fault> {
        if self.mode != Mode::Words {
            Err(Fault::Unfinished)
        } else {
            let last = self.feed(SPACE);
            if last.result is Err {
                Err(last.result->Err_0)
            } else if last.state.mode != Mode::Words {
                Err(Fault::Unfinished)
            } else if last.state.open.len() > 0 {
                Err(Fault::UnclosedBlock)
            } else {
                Ok(last.state.program())
            }
        }
    }
}

/// The bytes of a source from `from` on, one after the other, up to the end
/// of the source, the first error, or the first source to include.
pub open spec fn scan(s: LexerView, source: Seq<u8>, from: int) -> Scanned
    decreases source.len() - from,
{
    if from < 0 || from >= source.len() {
        Scanned { state: s, result: Ok(ScanView::Done) }
    } else {
        let fed = s.feed(source[from]);
        match fed.result {
            Err(fault) => Scanned { state: fed.state, result: Err(fault) },
            Ok(Some(path)) => Scanned {
                state: fed.state,
                result: Ok(ScanView::Include { path: path, next: (from + 1) as usize }),
            },
            Ok(None) => scan(fed.state, source, from + 1),
        }
    }
}

/// A byte keeps a state well formed.
pub proof fn lemma_feed_wf(s: LexerView, byte: u8)
    requires
        s.wf(),
        s.feed(byte).state.tokens.len() <= usize::MAX,
    ensures
        s.feed(byte).state.wf(),
{
}

/// A byte takes nothing back: what the stream and the tables of names held
/// before, they hold after, at the same places.
pub proof fn lemma_feed_extends(s: LexerView, byte: u8)
    ensures
        s.tokens.is_prefix_of(s.feed(byte).state.tokens),
        s.procedures.is_prefix_of(s.feed(byte).state.procedures),
        s.labels.is_prefix_of(s.feed(byte).state.labels),
        s.scopes.dom().subset_of(s.feed(byte).state.scopes.dom()),
{
}

/// A label is registered under its word, and the instruction before it is
/// the last one that was read before it.
pub proof fn lemma_label_precedes(s: LexerView)
    requires
        s.tokens.len() <= usize::MAX,
        classify(s.token) == WordView::Label,
    ensures
        s.word().result == Ok::<Option<Seq<u8>>, Fault>(None),
        s.word().state.labels == s.labels.push(s.word().state.labels.last()),
        s.word().state.labels.last().name == s.token,
        s.word().state.labels.last().preceding() == s.tokens.len() - 1,
        s.word().state.tokens == s.tokens,
{
}

/// A byte that fails leaves the state as it was.
pub proof fn lemma_feed_failure_keeps_state(s: LexerView, byte: u8)
    ensures
        s.feed(byte).result is Err ==> s.feed(byte).state == s,
        s.feed(byte).result is Err ==> s.feed(byte).result == Err::<Option<Seq<u8>>, Fault>(
            Fault::UnexpectedEnd,
        ),
{
}

/// A state that is well formed comes to a program that is well formed.
pub proof fn lemma_finish_wf(s: LexerView)
    requires
        s.wf(),
        s.finish() matches Ok(p) && p.tokens.len() <= usize::MAX,
    ensures
        s.finish() matches Ok(p) && p.wf(),
{
    lemma_feed_wf(s, SPACE);
}

/// Splicing keeps a state well formed.
pub proof fn lemma_splice_wf(s: LexerView, included: ProgramView)
    requires
        s.wf(),
        included.wf(),
        s.tokens.len() + included.tokens.len() <= usize::MAX,
    ensures
        s.splice(included).wf(),
{
}

/// A byte keeps a state balanced.
pub proof fn lemma_feed_balanced(s: LexerView, byte: u8)
    requires
        s.balanced(),
        s.feed(byte).state.tokens.len() <= usize::MAX,
    ensures
        s.feed(byte).state.balanced(),
{
    let after = s.feed(byte).state;
    assert forall|i: int| 0 <= i < after.tokens.len() && #[trigger] after.tokens[i] == Instr::If
        implies after.scopes.contains_key((i + 1) as usize) || after.awaits(i + 1) by {
        if i < s.tokens.len() {
            if !s.scopes.contains_key((i + 1) as usize) {
                let j = choose|j: int| 0 <= j < s.open.len() && (#[trigger] s.open[j]).0 == i + 1;
                if j < after.open.len() {
                    assert(after.open[j] == s.open[j]);
                }
            }
        } else {
            assert(after.open[s.open.len() as int].0 == i + 1);
        }
    }
    assert forall|i: int| 0 <= i < after.procedures.len() implies after.scopes.contains_key(
        (#[trigger] after.procedures[i]).location,
    ) || after.awaits(after.procedures[i].location as int) by {
        if i < s.procedures.len() {
            assert(after.procedures[i] == s.procedures[i]);
            let at = s.procedures[i].location;
            if !s.scopes.contains_key(at) {
                let j = choose|j: int| 0 <= j < s.open.len() && (#[trigger] s.open[j]).0 == at;
                if j < after.open.len() {
                    assert(after.open[j] == s.open[j]);
                }
            }
        } else {
            assert(after.open[s.open.len() as int].0 == after.procedures[i].location);
        }
    }
}

/// Splicing a program in which every block is closed keeps a state
/// balanced.
pub proof fn lemma_splice_balanced(s: LexerView, included: ProgramView)
    requires
        s.balanced(),
        included.wf(),
        included.closed(),
        s.tokens.len() + included.tokens.len() <= usize::MAX,
    ensures
        s.splice(included).balanced(),
{
    let after = s.splice(included);
    let base = s.tokens.len() as int;
    assert forall|i: int| 0 <= i < after.tokens.len() && #[trigger] after.tokens[i] == Instr::If
        implies after.scopes.contains_key((i + 1) as usize) || after.awaits(i + 1) by {
        if i < base {
            if !s.scopes.contains_key((i + 1) as usize) {
                let j = choose|j: int| 0 <= j < s.open.len() && (#[trigger] s.open[j]).0 == i + 1;
                assert(after.open[j] == s.open[j]);
            }
        }
    }
    assert forall|i: int| 0 <= i < after.procedures.len() implies after.scopes.contains_key(
        (#[trigger] after.procedures[i]).location,
    ) || after.awaits(after.procedures[i].location as int) by {
        if i < s.procedures.len() {
            assert(after.procedures[i] == s.procedures[i]);
            let at = s.procedures[i].location;
            if !s.scopes.contains_key(at) {
                let j = choose|j: int| 0 <= j < s.open.len() && (#[trigger] s.open[j]).0 == at;
                assert(after.open[j] == s.open[j]);
            }
        } else {
            let given = included.procedures[i - s.procedures.len()];
            assert(after.procedures[i] == moved_procedure(given, base));
            assert(included.scopes.contains_key(given.location));
            let key = (given.location + base) as usize;
            assert((key - base) as usize == given.location);
            assert(moved_scopes(included.scopes, base).contains_key(key));
        }
    }
}

/// Of a balanced state, the program that the end of the source leaves has
/// every block closed.
pub proof fn lemma_finish_closed(s: LexerView)
    requires
        s.balanced(),
        s.finish() matches Ok(p) && p.tokens.len() <= usize::MAX,
    ensures
        s.finish() matches Ok(p) && p.closed(),
{
    lemma_feed_balanced(s, SPACE);
    let last = s.feed(SPACE).state;
    let p = last.program();
    assert forall|i: int| 0 <= i < p.tokens.len() && #[trigger] p.tokens[i] == Instr::If
        implies p.scopes.contains_key((i + 1) as usize) by {
        assert(last.tokens[i] == p.tokens[i]);
    }
}

/// The end of a source is refused exactly where the source ends inside a
/// literal, a header, a path or a jump target, where its last word is an
/// `end` too many, or where a block is still open.
pub proof fn lemma_finish_refuses(s: LexerView)
    ensures
        s.finish() is Ok <==> s.mode == Mode::Words && s.feed(SPACE).result is Ok && s.feed(
            SPACE,
        ).state.mode == Mode::Words && s.feed(SPACE).state.open.len() == 0,
        s.finish() matches Err(fault) ==> fault == Fault::Unfinished || fault
            == Fault::UnexpectedEnd || fault == Fault::UnclosedBlock,
{
}

/// A scan keeps a state well formed and balanced.
pub proof fn lemma_scan_keeps(s: LexerView, source: Seq<u8>, from: int)
    requires
        0 <= from,
        s.tokens.len() + source.len() - from <= usize::MAX,
    ensures
        s.wf() ==> scan(s, source, from).state.wf(),
        s.balanced() ==> scan(s, source, from).state.balanced(),
    decreases source.len() - from,
{
    if from < source.len() {
        let fed = s.feed(source[from]);
        if s.wf() {
            lemma_feed_wf(s, source[from]);
        }
        if s.balanced() {
            lemma_feed_balanced(s, source[from]);
        }
        if fed.result == Ok::<Option<Seq<u8>>, Fault>(None) {
            lemma_scan_keeps(fed.state, source, from + 1);
        }
    }
}

/// A source may be scanned in parts: a scan of the whole comes to the same
/// as a scan of the bytes before `mid` and then, where these were read to
/// their end, a scan of the rest.
pub proof fn lemma_scan_in_parts(s: LexerView, source: Seq<u8>, from: int, mid: int)
    requires
        0 <= from <= mid <= source.len(),
    ensures
        scan(s, source, from) == (if scan(s, source.take(mid), from).result == Ok::<
            ScanView,
            Fault,
        >(ScanView::Done) {
            scan(scan(s, source.take(mid), from).state, source, mid)
        } else {
            scan(s, source.take(mid), from)
        }),
    decreases mid - from,
{
    if from < mid {
        let fed = s.feed(source[from]);
        if fed.result == Ok::<Option<Seq<u8>>, Fault>(None) {
            lemma_scan_in_parts(fed.state, source, from + 1, mid);
        }
    }
}

} // verus!
