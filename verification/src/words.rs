//! The words of the language: which word stands for which instruction or
//! directive, and which words are numbers.

use crate::lexer::{Arithmetic, Equality, Instr, OpCodes, Syscalls, Types};
use vstd::prelude::*;
use vstd::string::StringSliceAdditionalSpecFns;

verus! {

pub const NEWLINE: u8 = 10;

pub const SPACE: u8 = 32;

pub const QUOTE: u8 = 34;

pub const PLUS: u8 = 43;

pub const COLON: u8 = 58;

pub const BACKSLASH: u8 = 92;

/// Whether a byte ends a word: a space or a line feed does, and nothing
/// else.
pub open spec fn is_space(byte: u8) -> bool {
    byte == SPACE || byte == NEWLINE
}

pub fn ends_word(byte: u8) -> (ends: bool)
    ensures
        ends == is_space(byte),
{
    byte == SPACE || byte == NEWLINE
}

/// Whether two byte strings are the same.
pub fn same_bytes(a: &[u8], b: &[u8]) -> (same: bool)
    ensures
        same == (a@ == b@),
{
    if a.len() != b.len() {
        return false;
    }
    let mut i: usize = 0;
    while i < a.len()
        invariant
            i <= a.len(),
            a.len() == b.len(),
            a@.take(i as int) == b@.take(i as int),
        decreases a.len() - i,
    {
        if a[i] != b[i] {
            return false;
        }
        i += 1;
    }
    proof {
        assert(a@.take(a.len() as int) == a@);
        assert(b@.take(b.len() as int) == b@);
    }
    true
}

/// Whether a word is the given text.
pub fn spells(word: &[u8], text: &str) -> (same: bool)
    ensures
        same == (word@ == text.spec_bytes()),
{
    same_bytes(word, text.as_bytes())
}

/// A copy of a byte string.
pub fn copy_bytes(bytes: &[u8]) -> (copy: Vec<u8>)
    ensures
        copy@ == bytes@,
{
    let mut copy: Vec<u8> = Vec::new();
    let mut i: usize = 0;
    while i < bytes.len()
        invariant
            i <= bytes.len(),
            copy@ == bytes@.take(i as int),
        decreases bytes.len() - i,
    {
        copy.push(bytes[i]);
        i += 1;
    }
    copy
}

/// Whether every byte is a decimal digit.
pub open spec fn all_digits(digits: Seq<u8>) -> bool {
    forall|i: int| 0 <= i < digits.len() ==> 48 <= #[trigger] digits[i] <= 57
}

/// The number that decimal digits write.
pub open spec fn digits_value(digits: Seq<u8>) -> nat
    decreases digits.len(),
{
    if digits.len() == 0 {
        0
    } else {
        digits_value(digits.drop_last()) * 10 + (digits.last() - 48) as nat
    }
}

/// The digits of a word that may start with a plus sign.
pub open spec fn unsigned(word: Seq<u8>) -> Seq<u8> {
    if word.len() > 0 && word[0] == PLUS {
        word.skip(1)
    } else {
        word
    }
}

/// The number that a word writes: the word is one or more decimal digits,
/// a plus sign may stand before them, and the number fits in 64 bits.
pub open spec fn number(word: Seq<u8>) -> Option<u64> {
    let digits = unsigned(word);
    if digits.len() > 0 && all_digits(digits) && digits_value(digits) <= u64::MAX {
        Some(digits_value(digits) as u64)
    } else {
        None
    }
}

/// More digits never write a smaller number.
pub proof fn lemma_digits_grow(digits: Seq<u8>, n: int)
    requires
        all_digits(digits),
        0 <= n <= digits.len(),
    ensures
        digits_value(digits.take(n)) <= digits_value(digits),
    decreases digits.len() - n,
{
    if n < digits.len() {
        lemma_digits_grow(digits, n + 1);
        assert(digits.take(n + 1).drop_last() =~= digits.take(n));
    } else {
        assert(digits.take(n) =~= digits);
    }
}

/// Digits before which no plus sign stands write their number.
pub proof fn lemma_number_of_digits(digits: Seq<u8>)
    requires
        digits.len() > 0,
        all_digits(digits),
        digits_value(digits) <= u64::MAX,
    ensures
        number(digits) == Some(digits_value(digits) as u64),
{
}

/// Reads a word as a number.
pub fn parse_number(word: &[u8]) -> (parsed: Option<u64>)
    ensures
        parsed == number(word@),
{
    let start: usize = if word.len() > 0 && word[0] == PLUS {
        1
    } else {
        0
    };
    let ghost digits = unsigned(word@);
    if start == word.len() {
        return None;
    }
    let mut value: u64 = 0;
    let mut i: usize = start;
    while i < word.len()
        invariant
            start <= i <= word.len(),
            start < word.len(),
            digits == unsigned(word@),
            digits == word@.skip(start as int),
            all_digits(digits.take(i - start)),
            value == digits_value(digits.take(i - start)),
        decreases word.len() - i,
    {
        let byte = word[i];
        let ghost seen = digits.take(i - start);
        let ghost more = digits.take(i - start + 1);
        proof {
            assert(digits[i - start] == byte);
            assert(more.drop_last() =~= seen);
        }
        if byte < 48 || byte > 57 {
            return None;
        }
        let digit: u64 = (byte - 48) as u64;
        let next = match value.checked_mul(10) {
            Some(tens) => tens.checked_add(digit),
            None => None,
        };
        match next {
            Some(n) => {
                value = n;
            },
            None => {
                proof {
                    if all_digits(digits) {
                        lemma_digits_grow(digits, i - start + 1);
                    }
                }
                return None;
            },
        }
        i += 1;
    }
    proof {
        assert(digits.take(i - start) =~= digits);
    }
    Some(value)
}

/// The tag that a word of a procedure header stands for. Any word that is
/// none of `int`, `bool` and `ptr` stands for `Int`.
pub open spec fn tag_of(word: Seq<u8>) -> Types {
    if word == "bool".spec_bytes() {
        Types::Bool
    } else if word == "ptr".spec_bytes() {
        Types::Pointer
    } else {
        Types::Int
    }
}

pub fn read_tag(word: &[u8]) -> (tag: Types)
    ensures
        tag == tag_of(word@),
{
    if spells(word, "bool") {
        Types::Bool
    } else if spells(word, "ptr") {
        Types::Pointer
    } else {
        Types::Int
    }
}

/// What a word of the program text stands for, as a mathematical value.
pub enum WordView {
    /// A word that puts one instruction into the stream.
    Emit(Instr),
    If,
    End,
    Use,
    Proc,
    Goto,
    /// A word that marks a place in the stream.
    Label,
}

/// What a word of the program text stands for.
pub enum Word {
    Emit(OpCodes),
    If,
    End,
    Use,
    Proc,
    Goto,
    Label(Vec<u8>),
}

impl View for Word {
    type V = WordView;

    open spec fn view(&self) -> WordView {
        match *self {
            Word::Emit(op) => WordView::Emit(op@),
            Word::If => WordView::If,
            Word::End => WordView::End,
            Word::Use => WordView::Use,
            Word::Proc => WordView::Proc,
            Word::Goto => WordView::Goto,
            Word::Label(_) => WordView::Label,
        }
    }
}

/// The instruction that a word with a fixed meaning stands for.
pub open spec fn fixed(word: Seq<u8>) -> Option<Instr> {
    if word == "+".spec_bytes() {
        Some(Instr::Arithmetic(Arithmetic::Plus))
    } else if word == "-".spec_bytes() {
        Some(Instr::Arithmetic(Arithmetic::Minus))
    } else if word == "*".spec_bytes() {
        Some(Instr::Arithmetic(Arithmetic::Mul))
    } else if word == "/".spec_bytes() {
        Some(Instr::Arithmetic(Arithmetic::Div))
    } else if word == ".".spec_bytes() {
        Some(Instr::Print)
    } else if word == "=".spec_bytes() {
        Some(Instr::Equality(Equality::Equal))
    } else if word == ">".spec_bytes() {
        Some(Instr::Equality(Equality::Bigger))
    } else if word == "<".spec_bytes() {
        Some(Instr::Equality(Equality::Smaller))
    } else if word == "true".spec_bytes() {
        Some(Instr::Push(Types::Bool, 1, Seq::empty()))
    } else if word == "false".spec_bytes() {
        Some(Instr::Push(Types::Bool, 0, Seq::empty()))
    } else if word == "(int)".spec_bytes() {
        Some(Instr::Cast(Types::Int))
    } else if word == "(ptr)".spec_bytes() {
        Some(Instr::Cast(Types::Pointer))
    } else if word == "(bool)".spec_bytes() {
        Some(Instr::Cast(Types::Bool))
    } else if word == "load".spec_bytes() {
        Some(Instr::Load)
    } else if word == "store".spec_bytes() {
        Some(Instr::Store)
    } else if word == "dup".spec_bytes() {
        Some(Instr::Dup)
    } else if word == "swap".spec_bytes() {
        Some(Instr::Swap)
    } else if word == "rot".spec_bytes() {
        Some(Instr::Rot)
    } else if word == "drop".spec_bytes() {
        Some(Instr::Drop)
    } else if word == "write".spec_bytes() {
        Some(Instr::Syscalls(Syscalls::Write))
    } else if word == "read".spec_bytes() {
        Some(Instr::Syscalls(Syscalls::Read))
    } else if word == "open".spec_bytes() {
        Some(Instr::Syscalls(Syscalls::Open))
    } else {
        None
    }
}

/// What a word stands for. The words with a fixed meaning come first, then
/// the directives; of the others a number is a literal, a word of more than
/// one byte that ends in a colon is a label, and the rest are names.
pub open spec fn classify(word: Seq<u8>) -> WordView {
    if fixed(word) is Some {
        WordView::Emit(fixed(word)->Some_0)
    } else if word == "if".spec_bytes() {
        WordView::If
    } else if word == "end".spec_bytes() {
        WordView::End
    } else if word == "use".spec_bytes() {
        WordView::Use
    } else if word == "proc".spec_bytes() {
        WordView::Proc
    } else if word == "goto".spec_bytes() {
        WordView::Goto
    } else if number(word) is Some {
        WordView::Emit(Instr::Push(Types::Int, number(word)->Some_0, Seq::empty()))
    } else if word.len() > 1 && word.last() == COLON {
        WordView::Label
    } else {
        WordView::Emit(Instr::Ident(word))
    }
}

/// The instruction of a word with a fixed meaning.
pub fn read_fixed(word: &[u8]) -> (op: Option<OpCodes>)
    ensures
        match op {
            Some(op) => fixed(word@) == Some(op@),
            None => fixed(word@) is None,
        },
{
    if spells(word, "+") {
        Some(OpCodes::Arithmetic(Arithmetic::Plus))
    } else if spells(word, "-") {
        Some(OpCodes::Arithmetic(Arithmetic::Minus))
    } else if spells(word, "*") {
        Some(OpCodes::Arithmetic(Arithmetic::Mul))
    } else if spells(word, "/") {
        Some(OpCodes::Arithmetic(Arithmetic::Div))
    } else if spells(word, ".") {
        Some(OpCodes::Print)
    } else if spells(word, "=") {
        Some(OpCodes::Equality(Equality::Equal))
    } else if spells(word, ">") {
        Some(OpCodes::Equality(Equality::Bigger))
    } else if spells(word, "<") {
        Some(OpCodes::Equality(Equality::Smaller))
    } else if spells(word, "true") {
        Some(OpCodes::Push(Types::Bool, 1, Vec::new()))
    } else if spells(word, "false") {
        Some(OpCodes::Push(Types::Bool, 0, Vec::new()))
    } else if spells(word, "(int)") {
        Some(OpCodes::Cast(Types::Int))
    } else if spells(word, "(ptr)") {
        Some(OpCodes::Cast(Types::Pointer))
    } else if spells(word, "(bool)") {
        Some(OpCodes::Cast(Types::Bool))
    } else if spells(word, "load") {
        Some(OpCodes::Load)
    } else if spells(word, "store") {
        Some(OpCodes::Store)
    } else if spells(word, "dup") {
        Some(OpCodes::Dup)
    } else if spells(word, "swap") {
        Some(OpCodes::Swap)
    } else if spells(word, "rot") {
        Some(OpCodes::Rot)
    } else if spells(word, "drop") {
        Some(OpCodes::Drop)
    } else if spells(word, "write") {
        Some(OpCodes::Syscalls(Syscalls::Write))
    } else if spells(word, "read") {
        Some(OpCodes::Syscalls(Syscalls::Read))
    } else if spells(word, "open") {
        Some(OpCodes::Syscalls(Syscalls::Open))
    } else {
        None
    }
}

/// Decides what a word stands for. A label and a name carry a copy of the
/// word.
pub fn read_word(word: &[u8]) -> (read: Word)
    ensures
        read@ == classify(word@),
        read matches Word::Label(name) ==> name@ == word@,
{
    match read_fixed(word) {
        Some(op) => {
            return Word::Emit(op);
        },
        None => {},
    }
    if spells(word, "if") {
        Word::If
    } else if spells(word, "end") {
        Word::End
    } else if spells(word, "use") {
        Word::Use
    } else if spells(word, "proc") {
        Word::Proc
    } else if spells(word, "goto") {
        Word::Goto
    } else {
        match parse_number(word) {
            Some(n) => Word::Emit(OpCodes::Push(Types::Int, n, Vec::new())),
            None => {
                if word.len() > 1 && word[word.len() - 1] == COLON {
                    Word::Label(copy_bytes(word))
                } else {
                    Word::Emit(OpCodes::Ident(copy_bytes(word)))
                }
            },
        }
    }
}

/// A copy of a list of tags.
pub fn copy_tags(tags: &[Types]) -> (copy: Vec<Types>)
    ensures
        copy@ == tags@,
{
    let mut copy: Vec<Types> = Vec::new();
    let mut i: usize = 0;
    while i < tags.len()
        invariant
            i <= tags.len(),
            copy@ == tags@.take(i as int),
        decreases tags.len() - i,
    {
        copy.push(tags[i]);
        i += 1;
    }
    copy
}

} // verus!
