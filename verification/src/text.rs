//! The two pieces of text handling that the engine needs: numbers as
//! decimal digits, and the escapes of a string literal.

use crate::words::{all_digits, digits_value, lemma_number_of_digits, number, BACKSLASH, NEWLINE};
use vstd::prelude::*;

verus! {

/// The decimal digits of a number, most significant first, as ASCII.
pub open spec fn decimal(n: nat) -> Seq<u8>
    decreases n,
{
    if n < 10 {
        seq![(48 + n) as u8]
    } else {
        decimal(n / 10).push((48 + n % 10) as u8)
    }
}

/// What `decimal` gives is one or more digits, and they write the number.
pub proof fn lemma_decimal_digits(n: nat)
    ensures
        decimal(n).len() > 0,
        all_digits(decimal(n)),
        digits_value(decimal(n)) == n,
    decreases n,
{
    if n < 10 {
        assert(digits_value(decimal(n).drop_last()) == 0);
    } else {
        lemma_decimal_digits(n / 10);
        assert(decimal(n).drop_last() =~= decimal(n / 10));
    }
}

/// A number that was printed reads as the same number.
pub proof fn lemma_printed_number_reads_back(n: u64)
    ensures
        number(decimal(n as nat)) == Some(n),
{
    lemma_decimal_digits(n as nat);
    lemma_number_of_digits(decimal(n as nat));
}

/// Renders a number as decimal digits.
pub fn render_decimal(n: u64) -> (digits: Vec<u8>)
    ensures
        digits@ == decimal(n as nat),
    decreases n,
{
    if n < 10 {
        let mut digits: Vec<u8> = Vec::new();
        digits.push((48 + n) as u8);
        digits
    } else {
        let mut digits = render_decimal(n / 10);
        digits.push((48 + n % 10) as u8);
        digits
    }
}

/// A string literal with its escapes resolved. A backslash and the byte
/// after it stand for a backslash where that byte is a backslash, for a line
/// feed where it is `n`, and for nothing otherwise; a backslash at the very
/// end stands for nothing.
pub open spec fn unescape(s: Seq<u8>) -> Seq<u8>
    decreases s.len(),
{
    if s.len() == 0 {
        Seq::empty()
    } else if s[0] != BACKSLASH {
        seq![s[0]] + unescape(s.skip(1))
    } else if s.len() == 1 {
        Seq::empty()
    } else if s[1] == BACKSLASH {
        seq![BACKSLASH] + unescape(s.skip(2))
    } else if s[1] == 110 {
        seq![NEWLINE] + unescape(s.skip(2))
    } else {
        unescape(s.skip(2))
    }
}

/// Resolves the escapes of a string literal.
pub fn decode_escapes(s: &[u8]) -> (out: Vec<u8>)
    ensures
        out@ == unescape(s@),
{
    let mut out: Vec<u8> = Vec::new();
    let mut i: usize = 0;
    proof {
        assert(s@.skip(0) == s@);
    }
    while i < s.len()
        invariant
            i <= s.len(),
            unescape(s@) == out@ + unescape(s@.skip(i as int)),
        decreases s.len() - i,
    {
        let ghost rest = s@.skip(i as int);
        let byte = s[i];
        if byte != BACKSLASH {
            proof {
                assert(rest.skip(1) == s@.skip(i + 1));
            }
            out.push(byte);
            i += 1;
        } else if i + 1 == s.len() {
            i += 1;
        } else {
            let next = s[i + 1];
            proof {
                assert(rest.skip(2) == s@.skip(i + 2));
            }
            if next == BACKSLASH {
                out.push(BACKSLASH);
            } else if next == 110 {
                out.push(NEWLINE);
            }
            i += 2;
        }
    }
    out
}

/// A literal without a backslash stands for itself.
pub proof fn lemma_unescape_plain(s: Seq<u8>)
    requires
        forall|i: int| 0 <= i < s.len() ==> s[i] != BACKSLASH,
    ensures
        unescape(s) == s,
    decreases s.len(),
{
    if s.len() > 0 {
        lemma_unescape_plain(s.skip(1));
    }
}

} // verus!
