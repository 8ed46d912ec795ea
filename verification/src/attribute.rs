//! The keyword attributes: visibility and mutability.

use crate::token::{error_span, is_word, span_at, word_at, Span, Token};
use vstd::prelude::*;
use vstd::string::StringExecFns;

verus! {

/// Who may call a function. Each variant holds the place of its keyword.
#[derive(Clone, Copy, Debug, PartialEq, Eq, Structural)]
pub enum Visibility {
    /// `external`
    External(Span),
    /// `public`
    Public(Span),
    /// `internal`
    Internal(Span),
    /// `private`
    Private(Span),
}

/// What a function promises about state. A function without a mutability
/// keyword is non-payable.
#[derive(Clone, Copy, Debug, PartialEq, Eq, Structural)]
pub enum Mutability {
    /// `pure`
    Pure(Span),
    /// `view`
    View(Span),
    /// `payable`
    Payable(Span),
}

impl Visibility {
    /// The keyword that stands for this visibility.
    pub open spec fn keyword(self) -> Seq<char> {
        match self {
            Visibility::External(_) => "external"@,
            Visibility::Public(_) => "public"@,
            Visibility::Internal(_) => "internal"@,
            Visibility::Private(_) => "private"@,
        }
    }

    pub open spec fn spec_span(self) -> Span {
        match self {
            Visibility::External(s) => s,
            Visibility::Public(s) => s,
            Visibility::Internal(s) => s,
            Visibility::Private(s) => s,
        }
    }

    /// The same visibility at another place.
    pub open spec fn spec_with_span(self, span: Span) -> Visibility {
        match self {
            Visibility::External(_) => Visibility::External(span),
            Visibility::Public(_) => Visibility::Public(span),
            Visibility::Internal(_) => Visibility::Internal(span),
            Visibility::Private(_) => Visibility::Private(span),
        }
    }

    /// The visibility whose keyword stands at `pos`, if one does.
    pub open spec fn at(tokens: Seq<Token>, pos: int) -> Option<Visibility> {
        if word_at(tokens, pos, "external"@) {
            Some(Visibility::External(span_at(tokens, pos)))
        } else if word_at(tokens, pos, "public"@) {
            Some(Visibility::Public(span_at(tokens, pos)))
        } else if word_at(tokens, pos, "internal"@) {
            Some(Visibility::Internal(span_at(tokens, pos)))
        } else if word_at(tokens, pos, "private"@) {
            Some(Visibility::Private(span_at(tokens, pos)))
        } else {
            None
        }
    }

    /// Reads a visibility keyword at `pos`; it takes up one token.
    pub fn parse(tokens: &Vec<Token>, pos: usize) -> (r: Option<Visibility>)
        ensures
            r == Visibility::at(tokens@, pos as int),
    {
        if is_word(tokens, pos, "external") {
            Some(Visibility::External(error_span(tokens, pos)))
        } else if is_word(tokens, pos, "public") {
            Some(Visibility::Public(error_span(tokens, pos)))
        } else if is_word(tokens, pos, "internal") {
            Some(Visibility::Internal(error_span(tokens, pos)))
        } else if is_word(tokens, pos, "private") {
            Some(Visibility::Private(error_span(tokens, pos)))
        } else {
            None
        }
    }

    pub fn span(&self) -> (r: Span)
        ensures
            r == self.spec_span(),
    {
        match self {
            Visibility::External(s) => *s,
            Visibility::Public(s) => *s,
            Visibility::Internal(s) => *s,
            Visibility::Private(s) => *s,
        }
    }

    pub fn set_span(&mut self, span: Span)
        ensures
            *final(self) == old(self).spec_with_span(span),
    {
        *self = match self {
            Visibility::External(_) => Visibility::External(span),
            Visibility::Public(_) => Visibility::Public(span),
            Visibility::Internal(_) => Visibility::Internal(span),
            Visibility::Private(_) => Visibility::Private(span),
        };
    }

    /// The keyword as text.
    pub fn to_string(&self) -> (r: String)
        ensures
            r@ == self.keyword(),
    {
        match self {
            Visibility::External(_) => String::from_str("external"),
            Visibility::Public(_) => String::from_str("public"),
            Visibility::Internal(_) => String::from_str("internal"),
            Visibility::Private(_) => String::from_str("private"),
        }
    }
}

impl Mutability {
    /// The keyword that stands for this mutability.
    pub open spec fn keyword(self) -> Seq<char> {
        match self {
            Mutability::Pure(_) => "pure"@,
            Mutability::View(_) => "view"@,
            Mutability::Payable(_) => "payable"@,
        }
    }

    pub open spec fn spec_span(self) -> Span {
        match self {
            Mutability::Pure(s) => s,
            Mutability::View(s) => s,
            Mutability::Payable(s) => s,
        }
    }

    /// The same mutability at another place.
    pub open spec fn spec_with_span(self, span: Span) -> Mutability {
        match self {
            Mutability::Pure(_) => Mutability::Pure(span),
            Mutability::View(_) => Mutability::View(span),
            Mutability::Payable(_) => Mutability::Payable(span),
        }
    }

    /// The mutability whose keyword stands at `pos`, if one does.
    pub open spec fn at(tokens: Seq<Token>, pos: int) -> Option<Mutability> {
        if word_at(tokens, pos, "pure"@) {
            Some(Mutability::Pure(span_at(tokens, pos)))
        } else if word_at(tokens, pos, "view"@) {
            Some(Mutability::View(span_at(tokens, pos)))
        } else if word_at(tokens, pos, "payable"@) {
            Some(Mutability::Payable(span_at(tokens, pos)))
        } else {
            None
        }
    }

    /// Reads a mutability keyword at `pos`; it takes up one token.
    pub fn parse(tokens: &Vec<Token>, pos: usize) -> (r: Option<Mutability>)
        ensures
            r == Mutability::at(tokens@, pos as int),
    {
        if is_word(tokens, pos, "pure") {
            Some(Mutability::Pure(error_span(tokens, pos)))
        } else if is_word(tokens, pos, "view") {
            Some(Mutability::View(error_span(tokens, pos)))
        } else if is_word(tokens, pos, "payable") {
            Some(Mutability::Payable(error_span(tokens, pos)))
        } else {
            None
        }
    }

    pub fn span(&self) -> (r: Span)
        ensures
            r == self.spec_span(),
    {
        match self {
            Mutability::Pure(s) => *s,
            Mutability::View(s) => *s,
            Mutability::Payable(s) => *s,
        }
    }

    pub fn set_span(&mut self, span: Span)
        ensures
            *final(self) == old(self).spec_with_span(span),
    {
        *self = match self {
            Mutability::Pure(_) => Mutability::Pure(span),
            Mutability::View(_) => Mutability::View(span),
            Mutability::Payable(_) => Mutability::Payable(span),
        };
    }

    /// The keyword as text.
    pub fn to_string(&self) -> (r: String)
        ensures
            r@ == self.keyword(),
    {
        match self {
            Mutability::Pure(_) => String::from_str("pure"),
            Mutability::View(_) => String::from_str("view"),
            Mutability::Payable(_) => String::from_str("payable"),
        }
    }
}

} // verus!
