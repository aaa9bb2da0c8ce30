//! A loaded program: the instruction stream and the three tables that the
//! loader resolved, frozen for the engine.

use crate::lexer::{instrs, Instr, OpCodes, Procedure, ProcView};
use crate::words::same_bytes;
use std::collections::HashMap;
use vstd::prelude::*;

verus! {

broadcast use vstd::std_specs::hash::group_hash_axioms;

/// A label: its word as written, colon included, and the index at which a
/// jump to it resumes. The instruction before the label stands one below.
#[derive(Debug, PartialEq, Eq, Clone)]
pub struct Label {
    pub name: Vec<u8>,
    pub resume: usize,
}

/// The mathematical value of a label.
pub struct LabelView {
    pub name: Seq<u8>,
    pub resume: usize,
}

impl LabelView {
    /// The index of the instruction immediately before the label; -1 for a
    /// label that stands before the first instruction.
    pub open spec fn preceding(self) -> int {
        self.resume - 1
    }
}

impl View for Label {
    type V = LabelView;

    open spec fn view(&self) -> LabelView {
        LabelView { name: self.name@, resume: self.resume }
    }
}

pub open spec fn procedure_views(procedures: Seq<Procedure>) -> Seq<ProcView> {
    Seq::new(procedures.len(), |i: int| procedures[i]@)
}

pub open spec fn label_views(labels: Seq<Label>) -> Seq<LabelView> {
    Seq::new(labels.len(), |i: int| labels[i]@)
}

/// The procedure that a name stands for: of those registered under the
/// name, the one registered last.
pub open spec fn lookup_procedure(procedures: Seq<ProcView>, name: Seq<u8>) -> Option<
    ProcView,
>
    decreases procedures.len(),
{
    if procedures.len() == 0 {
        None
    } else if procedures.last().name == name {
        Some(procedures.last())
    } else {
        lookup_procedure(procedures.drop_last(), name)
    }
}

/// The label that a word stands for: of those registered under the word,
/// the one registered last.
pub open spec fn lookup_label(labels: Seq<LabelView>, name: Seq<u8>) -> Option<LabelView>
    decreases labels.len(),
{
    if labels.len() == 0 {
        None
    } else if labels.last().name == name {
        Some(labels.last())
    } else {
        lookup_label(labels.drop_last(), name)
    }
}

/// The procedure found under a name carries that name, and is one of those
/// registered.
pub proof fn lemma_lookup_procedure(procedures: Seq<ProcView>, name: Seq<u8>)
    ensures
        lookup_procedure(procedures, name) matches Some(found) ==> found.name == name
            && procedures.contains(found),
        lookup_procedure(procedures, name) is None ==> forall|i: int|
            0 <= i < procedures.len() ==> (#[trigger] procedures[i]).name != name,
    decreases procedures.len(),
{
    if procedures.len() > 0 && procedures.last().name != name {
        let rest = procedures.drop_last();
        lemma_lookup_procedure(rest, name);
        if lookup_procedure(rest, name) is None {
            assert forall|i: int| 0 <= i < procedures.len() implies (#[trigger] procedures[i]).name
                != name by {
                if i < rest.len() {
                    assert(rest[i] == procedures[i]);
                }
            }
        }
    }
}

/// The label found under a word carries that word, and is one of those
/// registered.
pub proof fn lemma_lookup_label(labels: Seq<LabelView>, name: Seq<u8>)
    ensures
        lookup_label(labels, name) matches Some(found) ==> found.name == name && labels.contains(
            found,
        ),
        lookup_label(labels, name) is None ==> forall|i: int|
            0 <= i < labels.len() ==> (#[trigger] labels[i]).name != name,
    decreases labels.len(),
{
    if labels.len() > 0 && labels.last().name != name {
        let rest = labels.drop_last();
        lemma_lookup_label(rest, name);
        if lookup_label(rest, name) is None {
            assert forall|i: int| 0 <= i < labels.len() implies (#[trigger] labels[i]).name
                != name by {
                if i < rest.len() {
                    assert(rest[i] == labels[i]);
                }
            }
        }
    }
}

/// The mathematical value of a program.
pub struct ProgramView {
    pub tokens: Seq<Instr>,
    pub scopes: Map<usize, usize>,
    pub procedures: Seq<ProcView>,
    pub labels: Seq<LabelView>,
}

impl ProgramView {
    /// Every index that a table holds lies within the stream or one past its
    /// end, and no block closes before it opens.
    pub open spec fn wf(self) -> bool {
        &&& self.tokens.len() <= usize::MAX
        &&& forall|k: usize| #[trigger]
            self.scopes.contains_key(k) ==> k <= self.scopes[k] <= self.tokens.len()
        &&& forall|i: int|
            0 <= i < self.procedures.len() ==> (#[trigger] self.procedures[i]).location
                <= self.tokens.len()
        &&& forall|i: int|
            0 <= i < self.labels.len() ==> (#[trigger] self.labels[i]).resume <= self.tokens.len()
    }

    /// Every `if` of the stream has a closed block to skip.
    pub open spec fn resolved(self) -> bool {
        forall|i: int|
            0 <= i < self.tokens.len() && #[trigger] self.tokens[i] == Instr::If
                ==> self.scopes.contains_key((i + 1) as usize)
    }

    /// Every procedure has a closed block, which starts at its first
    /// instruction.
    pub open spec fn anchored(self) -> bool {
        forall|i: int|
            0 <= i < self.procedures.len() ==> self.scopes.contains_key(
                (#[trigger] self.procedures[i]).location,
            )
    }

    /// Every block that the stream opens is closed: each `if` and each
    /// procedure has its closed block.
    pub open spec fn closed(self) -> bool {
        self.resolved() && self.anchored()
    }

    pub open spec fn procedure(self, name: Seq<u8>) -> Option<ProcView> {
        lookup_procedure(self.procedures, name)
    }

    pub open spec fn label(self, name: Seq<u8>) -> Option<LabelView> {
        lookup_label(self.labels, name)
    }
}

/// What the loader hands to the engine.
#[derive(Debug)]
pub struct Program {
    /// The instruction stream.
    pub tokens: Vec<OpCodes>,
    /// For each closed block, from the index of its first instruction to the
    /// index one past its last.
    pub scopes: HashMap<usize, usize>,
    /// The procedures in the order they were registered.
    pub procedures: Vec<Procedure>,
    /// The labels in the order they were registered.
    pub labels: Vec<Label>,
}

impl View for Program {
    type V = ProgramView;

    open spec fn view(&self) -> ProgramView {
        ProgramView {
            tokens: instrs(self.tokens@),
            scopes: self.scopes@,
            procedures: procedure_views(self.procedures@),
            labels: label_views(self.labels@),
        }
    }
}

impl Program {
    /// The procedure registered last under a name.
    pub fn procedure(&self, name: &[u8]) -> (found: Option<&Procedure>)
        ensures
            match found {
                Some(p) => self@.procedure(name@) == Some(p@),
                None => self@.procedure(name@) is None,
            },
    {
        let ghost all = procedure_views(self.procedures@);
        let mut i: usize = self.procedures.len();
        proof {
            assert(all.take(all.len() as int) == all);
        }
        while i > 0
            invariant
                i <= self.procedures.len(),
                all == procedure_views(self.procedures@),
                lookup_procedure(all, name@) == lookup_procedure(all.take(i as int), name@),
            decreases i,
        {
            i -= 1;
            proof {
                assert(all.take(i + 1).drop_last() =~= all.take(i as int));
            }
            if same_bytes(self.procedures[i].Proc.as_slice(), name) {
                return Some(&self.procedures[i]);
            }
        }
        None
    }

    /// The index at which a jump to a label resumes, for the label
    /// registered last under a word.
    pub fn label(&self, name: &[u8]) -> (found: Option<usize>)
        ensures
            match found {
                Some(resume) => self@.label(name@) == Some(
                    LabelView { name: name@, resume: resume },
                ),
                None => self@.label(name@) is None,
            },
    {
        let ghost all = label_views(self.labels@);
        let mut i: usize = self.labels.len();
        proof {
            assert(all.take(all.len() as int) == all);
        }
        while i > 0
            invariant
                i <= self.labels.len(),
                all == label_views(self.labels@),
                lookup_label(all, name@) == lookup_label(all.take(i as int), name@),
            decreases i,
        {
            i -= 1;
            proof {
                assert(all.take(i + 1).drop_last() =~= all.take(i as int));
            }
            if same_bytes(self.labels[i].name.as_slice(), name) {
                return Some(self.labels[i].resume);
            }
        }
        None
    }

    /// The index one past the block whose first instruction stands at
    /// `open`, where such a block was closed.
    pub fn scope_end(&self, open: usize) -> (found: Option<usize>)
        ensures
            found == (if self@.scopes.contains_key(open) {
                Some(self@.scopes[open])
            } else {
                None
            }),
    {
        match self.scopes.get(&open) {
            Some(close) => Some(*close),
            None => None,
        }
    }
}

} // verus!
