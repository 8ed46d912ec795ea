//! Parse failures: one located message, optionally followed by a second one
//! that points at an earlier, related place in the text.

use crate::token::Span;
use vstd::prelude::*;
use vstd::string::StringExecFns;

verus! {

/// What went wrong.
#[derive(Clone, Copy, Debug, PartialEq, Eq, Structural)]
pub enum Message {
    /// The text is not a sequence of tokens.
    Lex,
    /// No attribute form starts at this token.
    ExpectedAttribute,
    /// A body `{ ... }` stands where a declaration without one is required.
    IllegalBody,
    /// An attribute of this sort was already given.
    Duplicate,
    /// Marks the earlier attribute that a duplicate collides with.
    PreviousDeclaration,
    /// A semicolon-separated list has no entry.
    EmptyStruct,
    /// The last entry of a semicolon-separated list lacks its semicolon.
    MissingSemicolon,
    /// The keyword `override` was required.
    ExpectedOverride,
    /// An identifier was required.
    ExpectedIdent,
    /// A type was required.
    ExpectedType,
    /// The size of an array is more than one number or name.
    ExpectedSize,
    /// A type holds tuples within tuples beyond the depth that is read.
    TooDeep,
    /// The list separator, or the end of the list, was required.
    ExpectedSeparator,
    /// Tokens are left over behind what was read.
    UnexpectedToken,
}

/// A message attached to a place in the text.
#[derive(Clone, Copy, Debug, PartialEq, Eq, Structural)]
pub struct Diagnostic {
    pub span: Span,
    pub message: Message,
}

/// A failed parse: a primary diagnostic and, for collisions, the earlier place.
#[derive(Clone, Copy, Debug, PartialEq, Eq, Structural)]
pub struct ParseError {
    pub primary: Diagnostic,
    pub secondary: Option<Diagnostic>,
}

impl Message {
    /// The wording of each message.
    pub open spec fn spec_text(self) -> Seq<char> {
        match self {
            Message::Lex => "cannot tokenize input"@,
            Message::ExpectedAttribute =>
                "expected one of: `external`, `public`, `internal`, `private`, `pure`, `view`, `payable`, `virtual`, `override`, `immutable`, identifier"@,
            Message::IllegalBody => "function declarations in this context may not have an implementation"@,
            Message::Duplicate => "duplicate attribute"@,
            Message::PreviousDeclaration => "previous declaration"@,
            Message::EmptyStruct => "empty struct body disallowed"@,
            Message::MissingSemicolon => "expected trailing separator"@,
            Message::ExpectedOverride => "expected `override`"@,
            Message::ExpectedIdent => "expected identifier"@,
            Message::ExpectedType => "expected type"@,
            Message::ExpectedSize => "expected array size"@,
            Message::TooDeep => "type is nested too deeply"@,
            Message::ExpectedSeparator => "expected separator"@,
            Message::UnexpectedToken => "unexpected token"@,
        }
    }

    /// The message as text.
    pub fn text(self) -> (r: String)
        ensures
            r@ == self.spec_text(),
    {
        let s: &str = match self {
            Message::Lex => "cannot tokenize input",
            Message::ExpectedAttribute =>
                "expected one of: `external`, `public`, `internal`, `private`, `pure`, `view`, `payable`, `virtual`, `override`, `immutable`, identifier",
            Message::IllegalBody => "function declarations in this context may not have an implementation",
            Message::Duplicate => "duplicate attribute",
            Message::PreviousDeclaration => "previous declaration",
            Message::EmptyStruct => "empty struct body disallowed",
            Message::MissingSemicolon => "expected trailing separator",
            Message::ExpectedOverride => "expected `override`",
            Message::ExpectedIdent => "expected identifier",
            Message::ExpectedType => "expected type",
            Message::ExpectedSize => "expected array size",
            Message::TooDeep => "type is nested too deeply",
            Message::ExpectedSeparator => "expected separator",
            Message::UnexpectedToken => "unexpected token",
        };
        String::from_str(s)
    }
}

impl ParseError {
    /// An error with one diagnostic.
    pub open spec fn single(span: Span, message: Message) -> ParseError {
        ParseError { primary: Diagnostic { span, message }, secondary: None }
    }

    /// The error for an attribute at `new` that collides with the one at `previous`.
    pub open spec fn duplicate(new: Span, previous: Span) -> ParseError {
        ParseError {
            primary: Diagnostic { span: new, message: Message::Duplicate },
            secondary: Some(Diagnostic { span: previous, message: Message::PreviousDeclaration }),
        }
    }

    /// The diagnostics in order, the primary one first; never empty.
    pub open spec fn spec_diagnostics(self) -> Seq<Diagnostic> {
        match self.secondary {
            Some(d) => seq![self.primary, d],
            None => seq![self.primary],
        }
    }

    pub fn new(span: Span, message: Message) -> (r: ParseError)
        ensures
            r == ParseError::single(span, message),
    {
        ParseError { primary: Diagnostic { span, message }, secondary: None }
    }

    /// Attaches `other` as the related diagnostic, replacing an earlier one.
    pub fn combine(self, other: Diagnostic) -> (r: ParseError)
        ensures
            r.primary == self.primary,
            r.secondary == Some(other),
    {
        ParseError { primary: self.primary, secondary: Some(other) }
    }

    pub fn diagnostics(&self) -> (r: Vec<Diagnostic>)
        ensures
            r@ == self.spec_diagnostics(),
            r@.len() >= 1,
    {
        let mut out: Vec<Diagnostic> = Vec::new();
        out.push(self.primary);
        if let Some(d) = self.secondary {
            out.push(d);
        }
        assert(out@ =~= self.spec_diagnostics());
        out
    }
}

} // verus!
