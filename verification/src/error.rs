//! Why a macro input was refused, and where.
use vstd::prelude::*;
use crate::grammar::group_body;
use crate::tokens::TokenTree;

verus! {

/// What a macro input lacks where it stops following its grammar.
#[derive(Clone, Copy, Debug, PartialEq, Eq, Structural)]
pub enum ErrorKind {
    /// An identifier (not a keyword) was expected.
    ExpectedIdent,
    /// A `,` was expected.
    ExpectedComma,
    /// A `:` was expected.
    ExpectedColon,
    /// A `=>` was expected.
    ExpectedFatArrow,
    /// A group in parentheses was expected.
    ExpectedParens,
    /// A group in square brackets was expected.
    ExpectedBrackets,
    /// A group in curly braces was expected.
    ExpectedBraces,
    /// The keyword `enum` was expected.
    ExpectedEnum,
    /// The keyword `fn` was expected.
    ExpectedFn,
    /// A type was expected.
    ExpectedType,
    /// An expression was expected.
    ExpectedExpression,
    /// A `>` closing a list of generic parameters was expected.
    ExpectedCloseAngle,
    /// An accessor must be introduced by `get` or `set`.
    ExpectedGetOrSet,
    /// Tokens were left over where the input should have ended.
    UnexpectedToken,
}

/// A refused macro input: what was expected, and the token where it was
/// expected. The token is given by its path of positions: the position in
/// the input, then, for a token inside a group, its position inside that
/// group, and so on. A last position equal to the length of its sequence
/// stands for the end of that sequence (of the input, or of a group).
#[derive(Debug, PartialEq, Eq)]
pub struct ParseError {
    pub kind: ErrorKind,
    pub at: Vec<usize>,
}

/// The mathematical form of a `ParseError`.
pub struct SpecParseError {
    pub kind: ErrorKind,
    pub at: Seq<int>,
}

/// A path of positions as integers.
pub open spec fn int_path(at: Seq<usize>) -> Seq<int> {
    at.map_values(|x: usize| x as int)
}

impl View for ParseError {
    type V = SpecParseError;

    open spec fn view(&self) -> SpecParseError {
        SpecParseError { kind: self.kind, at: int_path(self.at@) }
    }
}

/// The error `kind` at position `i` of the sequence being read.
pub open spec fn error_at(kind: ErrorKind, i: int) -> SpecParseError {
    SpecParseError { kind, at: seq![i] }
}

/// The error `e`, met inside the group at position `g`, as an error of the
/// sequence that holds that group.
pub open spec fn nested_in(g: int, e: SpecParseError) -> SpecParseError {
    SpecParseError { kind: e.kind, at: seq![g] + e.at }
}

/// Whether the path `at` leads, through groups of `ts`, to the end of a
/// sequence (of `ts` itself, or of a group) rather than to a token.
pub open spec fn at_end(ts: Seq<TokenTree>, at: Seq<int>) -> bool
    decreases at.len(),
{
    if at.len() == 0 {
        false
    } else if at.len() == 1 {
        at[0] == ts.len()
    } else {
        &&& 0 <= at[0] < ts.len()
        &&& ts[at[0]] is Group
        &&& at_end(group_body(ts[at[0]]), at.drop_first())
    }
}

/// What was expected, in words.
pub open spec fn kind_message(k: ErrorKind) -> Seq<char> {
    match k {
        ErrorKind::ExpectedIdent => "expected identifier"@,
        ErrorKind::ExpectedComma => "expected `,`"@,
        ErrorKind::ExpectedColon => "expected `:`"@,
        ErrorKind::ExpectedFatArrow => "expected `=>`"@,
        ErrorKind::ExpectedParens => "expected parentheses"@,
        ErrorKind::ExpectedBrackets => "expected square brackets"@,
        ErrorKind::ExpectedBraces => "expected curly braces"@,
        ErrorKind::ExpectedEnum => "expected `enum`"@,
        ErrorKind::ExpectedFn => "expected `fn`"@,
        ErrorKind::ExpectedType => "expected type"@,
        ErrorKind::ExpectedExpression => "expected expression"@,
        ErrorKind::ExpectedCloseAngle => "expected `>`"@,
        ErrorKind::ExpectedGetOrSet => "expected `get` or `set`"@,
        ErrorKind::UnexpectedToken => "unexpected token"@,
    }
}

/// The message that reports the error `e` of the input `ts`: what was
/// expected, preceded by `unexpected end of input, ` where the input (or the
/// group the error is in) ended before it.
pub open spec fn error_text(ts: Seq<TokenTree>, e: SpecParseError) -> Seq<char> {
    if at_end(ts, e.at) {
        "unexpected end of input, "@ + kind_message(e.kind)
    } else {
        kind_message(e.kind)
    }
}

impl ErrorKind {
    /// What was expected, in words.
    pub fn text(&self) -> (res: &'static str)
        ensures
            res@ == kind_message(*self),
    {
        match self {
            ErrorKind::ExpectedIdent => "expected identifier",
            ErrorKind::ExpectedComma => "expected `,`",
            ErrorKind::ExpectedColon => "expected `:`",
            ErrorKind::ExpectedFatArrow => "expected `=>`",
            ErrorKind::ExpectedParens => "expected parentheses",
            ErrorKind::ExpectedBrackets => "expected square brackets",
            ErrorKind::ExpectedBraces => "expected curly braces",
            ErrorKind::ExpectedEnum => "expected `enum`",
            ErrorKind::ExpectedFn => "expected `fn`",
            ErrorKind::ExpectedType => "expected type",
            ErrorKind::ExpectedExpression => "expected expression",
            ErrorKind::ExpectedCloseAngle => "expected `>`",
            ErrorKind::ExpectedGetOrSet => "expected `get` or `set`",
            ErrorKind::UnexpectedToken => "unexpected token",
        }
    }
}

/// Whether the path `at[j..]` leads, through groups of `ts`, to the end of a
/// sequence.
fn ends_at(ts: &Vec<TokenTree>, at: &Vec<usize>, j: usize) -> (res: bool)
    requires
        j <= at.len(),
    ensures
        res == at_end(ts@, int_path(at@).subrange(j as int, at.len() as int)),
    decreases at.len() - j,
{
    let ghost p = int_path(at@).subrange(j as int, at.len() as int);
    if j == at.len() {
        false
    } else if j + 1 == at.len() {
        at[j] == ts.len()
    } else {
        let g = at[j];
        assert(p[0] == g as int);
        if g < ts.len() {
            match &ts[g] {
                TokenTree::Group(_, inner) => {
                    assert(p.drop_first() =~= int_path(at@).subrange(j + 1, at.len() as int));
                    ends_at(inner, at, j + 1)
                },
                _ => false,
            }
        } else {
            false
        }
    }
}

impl ParseError {
    /// The error `kind` at position `i` of the sequence being read.
    pub fn new(kind: ErrorKind, i: usize) -> (res: ParseError)
        ensures
            res@ == error_at(kind, i as int),
    {
        let mut at: Vec<usize> = Vec::new();
        at.push(i);
        assert(int_path(at@) =~= seq![i as int]);
        ParseError { kind, at }
    }

    /// This error, met inside the group at position `g`, as an error of the
    /// sequence that holds that group.
    pub fn within(self, g: usize) -> (res: ParseError)
        ensures
            res@ == nested_in(g as int, self@),
    {
        let mut at: Vec<usize> = Vec::new();
        at.push(g);
        let n = self.at.len();
        for j in 0..n
            invariant
                n == self.at.len(),
                at@ == seq![g] + self.at@.take(j as int),
        {
            at.push(self.at[j]);
            assert(at@ =~= seq![g] + self.at@.take(j + 1));
        }
        assert(self.at@.take(n as int) =~= self.at@);
        assert(int_path(at@) =~= seq![g as int] + int_path(self.at@));
        ParseError { kind: self.kind, at }
    }

    /// The message that reports this error of the input `ts`.
    pub fn message(&self, ts: &Vec<TokenTree>) -> (res: String)
        ensures
            res@ == error_text(ts@, self@),
    {
        let end = ends_at(ts, &self.at, 0);
        assert(int_path(self.at@).subrange(0, self.at.len() as int) =~= self@.at);
        let mut r = String::new();
        if end {
            r.append("unexpected end of input, ");
        }
        r.append(self.kind.text());
        r
    }
}

} // verus!
