//! Loading a source with all that it includes. The loader asks for one
//! source at a time and is handed its bytes; sources that wait for one they
//! include are kept on a stack.

use crate::fault::Fault;
use crate::lexer::{Lexer, Scan};
use crate::loading::{scan, LexerView, ScanView};
use crate::program::{Program, ProgramView};
use vstd::prelude::*;

verus! {

/// A source that waits for one it includes, as a mathematical value: the
/// state its loading has reached, its bytes, and where its scan goes on.
pub struct FrameView {
    pub lexer: LexerView,
    pub source: Seq<u8>,
    pub at: usize,
}

/// What the loader asks for or hands over, as a mathematical value.
pub enum RequestView {
    /// The bytes of the source named by the path are needed.
    Need(Seq<u8>),
    /// The first source is read to its end: its program.
    Done(ProgramView),
}

/// The sources that wait, the innermost last, and what came of a source.
pub struct Settled {
    pub frames: Seq<FrameView>,
    pub result: Result<RequestView, Fault>,
}

/// Whether the loading of every source that waits is well formed and
/// balanced.
pub open spec fn frames_wf(frames: Seq<FrameView>) -> bool {
    forall|i: int|
        0 <= i < frames.len() ==> (#[trigger] frames[i]).lexer.wf() && frames[i].lexer.balanced()
}

/// The scan of a source goes on. Where it meets a `use`, the source joins
/// those that wait, and the path is asked for. Where it comes to the end of
/// the source, the source has to end well: then its program is spliced into
/// the source that waited for it, whose scan goes on in the same way, and
/// the program of a source for which none waited is handed over. An error
/// in the source or at its end is reported; the source is given up, and
/// those that waited still wait.
pub open spec fn settle(parents: Seq<FrameView>, current: FrameView) -> Settled
    decreases parents.len(),
{
    let scanned = scan(current.lexer, current.source, current.at as int);
    match scanned.result {
        Err(fault) => Settled { frames: parents, result: Err(fault) },
        Ok(ScanView::Include { path, next }) => Settled {
            frames: parents.push(
                FrameView { lexer: scanned.state, source: current.source, at: next },
            ),
            result: Ok(RequestView::Need(path)),
        },
        Ok(ScanView::Done) => match scanned.state.finish() {
            Err(fault) => Settled { frames: parents, result: Err(fault) },
            Ok(program) => if parents.len() == 0 {
                Settled { frames: parents, result: Ok(RequestView::Done(program)) }
            } else {
                settle(
                    parents.drop_last(),
                    FrameView { lexer: parents.last().lexer.splice(program), ..parents.last() },
                )
            },
        },
    }
}

/// The bytes of a source are handed in: its loading starts, and goes on as
/// `settle` says.
pub open spec fn supply(frames: Seq<FrameView>, source: Seq<u8>) -> Settled {
    settle(frames, FrameView { lexer: LexerView::start(), source: source, at: 0 })
}

/// A source that includes nothing and for which none waits is loaded at
/// once: its program is what a scan from its first byte to its end comes
/// to, and where the source does not end well it is refused.
pub proof fn lemma_supply_plain(source: Seq<u8>)
    requires
        scan(LexerView::start(), source, 0).result == Ok::<ScanView, Fault>(ScanView::Done),
    ensures
        supply(Seq::empty(), source) == (Settled {
            frames: Seq::empty(),
            result: match scan(LexerView::start(), source, 0).state.finish() {
                Ok(program) => Ok(RequestView::Done(program)),
                Err(fault) => Err(fault),
            },
        }),
{
}

/// A source that includes another waits for it, and nothing changes for the
/// sources that waited before.
pub proof fn lemma_supply_asks(frames: Seq<FrameView>, source: Seq<u8>)
    requires
        scan(LexerView::start(), source, 0).result matches Ok(ScanView::Include { .. }),
    ensures
        supply(frames, source).frames.len() == frames.len() + 1,
        supply(frames, source).frames.drop_last() == frames,
        supply(frames, source).frames.last().source == source,
        scan(LexerView::start(), source, 0).result matches Ok(ScanView::Include { path, next })
            && supply(frames, source).result == Ok::<RequestView, Fault>(RequestView::Need(path))
            && supply(frames, source).frames.last().at == next,
{
    assert(supply(frames, source).frames.drop_last() =~= frames);
}

/// A source with a block still open at its end, or one that ends inside a
/// literal, a header, a path or a jump target, is never handed over, and
/// nor is any source that includes it: the loading ends with the error.
pub proof fn lemma_settle_refuses(parents: Seq<FrameView>, current: FrameView)
    requires
        scan(current.lexer, current.source, current.at as int).result == Ok::<ScanView, Fault>(
            ScanView::Done,
        ),
        scan(current.lexer, current.source, current.at as int).state.finish() is Err,
    ensures
        settle(parents, current).result == Err::<RequestView, Fault>(
            scan(current.lexer, current.source, current.at as int).state.finish()->Err_0,
        ),
        settle(parents, current).frames == parents,
{
}

/// What the loader asks for or hands over.
#[derive(Debug)]
pub enum Request {
    /// The bytes of the source named by the path are needed.
    Need(Vec<u8>),
    /// The first source is read to its end: its program.
    Done(Program),
}

impl View for Request {
    type V = RequestView;

    open spec fn view(&self) -> RequestView {
        match *self {
            Request::Need(path) => RequestView::Need(path@),
            Request::Done(program) => RequestView::Done(program@),
        }
    }
}

/// What came of a source, as a mathematical value.
pub open spec fn request_view(result: Result<Request, Fault>) -> Result<RequestView, Fault> {
    match result {
        Ok(request) => Ok(request@),
        Err(fault) => Err(fault),
    }
}

/// A source that waits for one it includes.
#[derive(Debug)]
pub struct Frame {
    lexer: Lexer,
    source: Vec<u8>,
    at: usize,
}

impl View for Frame {
    type V = FrameView;

    closed spec fn view(&self) -> FrameView {
        FrameView { lexer: self.lexer@, source: self.source@, at: self.at }
    }
}

/// The loader of a source and all that it includes.
#[derive(Debug)]
pub struct Loader {
    frames: Vec<Frame>,
}

impl View for Loader {
    type V = Seq<FrameView>;

    closed spec fn view(&self) -> Seq<FrameView> {
        Seq::new(self.frames@.len(), |i: int| self.frames@[i]@)
    }
}

impl Loader {
    /// A loader for which no source waits.
    pub fn new() -> (loader: Loader)
        ensures
            loader@ == Seq::<FrameView>::empty(),
            frames_wf(loader@),
    {
        let loader = Loader { frames: Vec::new() };
        proof {
            assert(loader@ =~= Seq::<FrameView>::empty());
        }
        loader
    }

    /// The number of sources that wait for one they include.
    pub fn depth(&self) -> (depth: usize)
        ensures
            depth == self@.len(),
    {
        self.frames.len()
    }

    /// Takes the bytes of the source that was asked for, or of the first
    /// source, and loads on until the next source is needed, the first
    /// source is done, or an error is met. The program handed over at the
    /// end has every block closed: a source that leaves a block open is
    /// refused.
    pub fn supply(&mut self, source: Vec<u8>) -> (result: Result<Request, Fault>)
        requires
            frames_wf(old(self)@),
        ensures
            final(self)@ == supply(old(self)@, source@).frames,
            request_view(result) == supply(old(self)@, source@).result,
            frames_wf(final(self)@),
            result matches Ok(Request::Done(program)) ==> program@.wf() && program@.closed(),
    {
        let mut lexer = Lexer::new();
        let mut bytes = source;
        let mut at: usize = 0;
        loop
            invariant
                lexer@.wf(),
                lexer@.balanced(),
                frames_wf(self@),
                supply(old(self)@, source@) == settle(
                    self@,
                    FrameView { lexer: lexer@, source: bytes@, at: at },
                ),
            decreases self@.len(),
        {
            let ghost parents = self@;
            let scanned = lexer.tokenize(bytes.as_slice(), at);
            match scanned {
                Err(fault) => {
                    return Err(fault);
                },
                Ok(Scan::Include { path, next }) => {
                    let ghost frame = FrameView { lexer: lexer@, source: bytes@, at: next };
                    self.wait(lexer, bytes, next);
                    proof {
                        assert(self@ == parents.push(frame));
                    }
                    return Ok(Request::Need(path));
                },
                Ok(Scan::Done) => {
                    match lexer.finish() {
                        Err(fault) => {
                            return Err(fault);
                        },
                        Ok(program) => {
                            match self.resume() {
                                None => {
                                    return Ok(Request::Done(program));
                                },
                                Some(parent) => {
                                    lexer = parent.lexer;
                                    bytes = parent.source;
                                    at = parent.at;
                                    lexer.splice(program);
                                },
                            }
                        },
                    }
                },
            }
        }
    }

    /// A source joins those that wait.
    fn wait(&mut self, lexer: Lexer, source: Vec<u8>, at: usize)
        requires
            frames_wf(old(self)@),
            lexer@.wf(),
            lexer@.balanced(),
        ensures
            final(self)@ == old(self)@.push(
                FrameView { lexer: lexer@, source: source@, at: at },
            ),
            frames_wf(final(self)@),
    {
        let ghost frame = FrameView { lexer: lexer@, source: source@, at: at };
        self.frames.push(Frame { lexer, source, at });
        proof {
            assert(self@ =~= old(self)@.push(frame));
            assert forall|i: int| 0 <= i < self@.len() implies (#[trigger] self@[i]).lexer.wf()
                && self@[i].lexer.balanced() by {
                if i < old(self)@.len() {
                    assert(self@[i] == old(self)@[i]);
                }
            }
        }
    }

    /// The source that waited last, if any, leaves those that wait.
    fn resume(&mut self) -> (parent: Option<Frame>)
        requires
            frames_wf(old(self)@),
        ensures
            match parent {
                Some(frame) => old(self)@.len() > 0 && frame@ == old(self)@.last()
                    && final(self)@ == old(self)@.drop_last() && frame@.lexer.wf()
                    && frame@.lexer.balanced(),
                None => old(self)@.len() == 0 && final(self)@ == old(self)@,
            },
            frames_wf(final(self)@),
    {
        let parent = self.frames.pop();
        proof {
            if old(self)@.len() > 0 {
                assert(old(self)@[old(self)@.len() - 1].lexer.wf());
                assert(self@ =~= old(self)@.drop_last());
                assert forall|i: int| 0 <= i < self@.len() implies (
                #[trigger] self@[i]).lexer.wf() && self@[i].lexer.balanced() by {
                    assert(self@[i] == old(self)@[i]);
                }
            } else {
                assert(self@ =~= old(self)@);
            }
        }
        parent
    }
}

} // verus!
