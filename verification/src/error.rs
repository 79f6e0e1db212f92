//! The single error kind of the converter: a grammar violation, with the
//! 1-based source line on which it was detected.
use vstd::prelude::*;
use vstd::string::StringExecFns;
use crate::text::string_from_chars;

verus! {

#[derive(Clone, Copy, Debug, PartialEq, Eq)]
pub enum ErrorKind {
    /// A line that is neither a block marker nor a `key=value` pair.
    BadLine,
    /// A pair line whose key is empty.
    EmptyKey,
    /// A pair line with an empty value (or an empty list element).
    EmptyValue,
    /// A close marker with no open block to close.
    UnexpectedClose,
    /// An open marker whose block is never closed.
    UnclosedBlock,
    /// An input with no block and no pair at all.
    EmptyDocument,
}

#[derive(Clone, Copy, Debug, PartialEq, Eq)]
pub struct GrammarError {
    pub line: usize,
    pub kind: ErrorKind,
}

/// The decimal digit `d` as a character.
pub open spec fn digit_char(d: nat) -> char {
    if d == 0 {
        '0'
    } else if d == 1 {
        '1'
    } else if d == 2 {
        '2'
    } else if d == 3 {
        '3'
    } else if d == 4 {
        '4'
    } else if d == 5 {
        '5'
    } else if d == 6 {
        '6'
    } else if d == 7 {
        '7'
    } else if d == 8 {
        '8'
    } else {
        '9'
    }
}

/// The decimal representation of `n`, most significant digit first.
pub open spec fn dec_rep(n: nat) -> Seq<char>
    decreases n,
{
    if n < 10 {
        seq![digit_char(n)]
    } else {
        dec_rep(n / 10).push(digit_char(n % 10))
    }
}

/// The human-readable description of an error kind.
pub open spec fn kind_text(k: ErrorKind) -> Seq<char> {
    match k {
        ErrorKind::BadLine => "expected a block marker or a key=value pair"@,
        ErrorKind::EmptyKey => "missing key before '='"@,
        ErrorKind::EmptyValue => "missing value"@,
        ErrorKind::UnexpectedClose => "unmatched close marker"@,
        ErrorKind::UnclosedBlock => "block is never closed"@,
        ErrorKind::EmptyDocument => "expected at least one block or pair"@,
    }
}

/// The full message of an error: its line, then its description.
pub open spec fn message_of(e: GrammarError) -> Seq<char> {
    "line "@ + dec_rep(e.line as nat) + ": "@ + kind_text(e.kind)
}

/// The decimal digit `d` as a character.
pub fn digit_of(d: usize) -> (c: char)
    requires
        d < 10,
    ensures
        c == digit_char(d as nat),
{
    if d == 0 {
        '0'
    } else if d == 1 {
        '1'
    } else if d == 2 {
        '2'
    } else if d == 3 {
        '3'
    } else if d == 4 {
        '4'
    } else if d == 5 {
        '5'
    } else if d == 6 {
        '6'
    } else if d == 7 {
        '7'
    } else if d == 8 {
        '8'
    } else {
        '9'
    }
}

/// The decimal representation of `n` as characters.
pub fn dec_chars(n: usize) -> (r: Vec<char>)
    ensures
        r@ == dec_rep(n as nat),
    decreases n,
{
    if n < 10 {
        let mut r: Vec<char> = Vec::new();
        r.push(digit_of(n));
        proof {
            assert(r@ =~= seq![digit_char(n as nat)]);
        }
        r
    } else {
        let mut r = dec_chars(n / 10);
        r.push(digit_of(n % 10));
        r
    }
}

impl GrammarError {
    /// The error as a human-readable message with its source position.
    pub fn message(&self) -> (r: String)
        ensures
            r@ == message_of(*self),
    {
        let mut s = String::from_str("line ");
        let digits = dec_chars(self.line);
        let ds = string_from_chars(&digits);
        s.append(ds.as_str());
        s.append(": ");
        let t: &str = match self.kind {
            ErrorKind::BadLine => "expected a block marker or a key=value pair",
            ErrorKind::EmptyKey => "missing key before '='",
            ErrorKind::EmptyValue => "missing value",
            ErrorKind::UnexpectedClose => "unmatched close marker",
            ErrorKind::UnclosedBlock => "block is never closed",
            ErrorKind::EmptyDocument => "expected at least one block or pair",
        };
        s.append(t);
        s
    }
}

} // verus!
