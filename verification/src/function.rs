//! The attributes of a function declaration and the set that holds them.

use crate::attribute::{Mutability, Visibility};
use crate::clause::{Modifier, ModifierView, Override, OverrideView};
use crate::error::{Diagnostic, Message, ParseError};
use crate::path::{lemma_path_bounds, SolPath};
use crate::token::{
    error_span, ident_at, is_ident, is_kind, is_punct, is_word, kind_at, lexed, punct_at, span_at,
    tokenize, word_at, Span, Token, TokenKind,
};
use vstd::prelude::*;
use vstd::std_specs::convert::FromSpec;
use vstd::string::StringExecFns;

verus! {

/// One attribute of a function declaration.
#[derive(Debug)]
pub enum FunctionAttribute {
    /// `external`, `public`, `internal` or `private`
    Visibility(Visibility),
    /// `pure`, `view` or `payable`
    Mutability(Mutability),
    /// `virtual`, with the place of the keyword
    Virtual(Span),
    /// `immutable`, with the place of the keyword
    Immutable(Span),
    /// An `override` clause
    Override(Override),
    /// A modifier invocation
    Modifier(Modifier),
}

/// What a [`FunctionAttribute`] holds, as mathematical values.
pub enum AttributeView {
    Visibility(Visibility),
    Mutability(Mutability),
    Virtual(Span),
    Immutable(Span),
    Override(OverrideView),
    Modifier(ModifierView),
}

/// The sort of an attribute, without what it holds.
#[derive(Clone, Copy, Debug, PartialEq, Eq, Hash, Structural)]
pub enum Category {
    Visibility,
    Mutability,
    Virtual,
    Immutable,
    Override,
    Modifier,
}

impl AttributeView {
    pub open spec fn category(self) -> Category {
        match self {
            AttributeView::Visibility(_) => Category::Visibility,
            AttributeView::Mutability(_) => Category::Mutability,
            AttributeView::Virtual(_) => Category::Virtual,
            AttributeView::Immutable(_) => Category::Immutable,
            AttributeView::Override(_) => Category::Override,
            AttributeView::Modifier(_) => Category::Modifier,
        }
    }

    /// The place of the attribute in the text.
    pub open spec fn span(self) -> Span {
        match self {
            AttributeView::Visibility(v) => v.spec_span(),
            AttributeView::Mutability(m) => m.spec_span(),
            AttributeView::Virtual(s) => s,
            AttributeView::Immutable(s) => s,
            AttributeView::Override(o) => o.span,
            AttributeView::Modifier(m) => m.span,
        }
    }

    /// The same attribute at another place.
    pub open spec fn with_span(self, span: Span) -> AttributeView {
        match self {
            AttributeView::Visibility(v) => AttributeView::Visibility(v.spec_with_span(span)),
            AttributeView::Mutability(m) => AttributeView::Mutability(m.spec_with_span(span)),
            AttributeView::Virtual(_) => AttributeView::Virtual(span),
            AttributeView::Immutable(_) => AttributeView::Immutable(span),
            AttributeView::Override(o) => AttributeView::Override(OverrideView { span, ..o }),
            AttributeView::Modifier(m) => AttributeView::Modifier(ModifierView { span, ..m }),
        }
    }

    /// The identity of attributes: two attributes are the same when they are
    /// of one category, and, for modifiers, have the same name as well. Two
    /// attributes that are the same cannot stand on one declaration.
    pub open spec fn same(self, other: AttributeView) -> bool {
        match (self, other) {
            (AttributeView::Modifier(a), AttributeView::Modifier(b)) => a.name == b.name,
            _ => self.category() == other.category(),
        }
    }

    /// The attribute as text.
    pub open spec fn text(self) -> Seq<char> {
        match self {
            AttributeView::Visibility(v) => v.keyword(),
            AttributeView::Mutability(m) => m.keyword(),
            AttributeView::Virtual(_) => "virtual"@,
            AttributeView::Immutable(_) => "immutable"@,
            AttributeView::Override(o) => o.text(),
            AttributeView::Modifier(m) => m.text(),
        }
    }

    pub open spec fn is_external(self) -> bool {
        self matches AttributeView::Visibility(Visibility::External(_))
    }

    pub open spec fn is_public(self) -> bool {
        self matches AttributeView::Visibility(Visibility::Public(_))
    }

    pub open spec fn is_internal(self) -> bool {
        self matches AttributeView::Visibility(Visibility::Internal(_))
    }

    pub open spec fn is_private(self) -> bool {
        self matches AttributeView::Visibility(Visibility::Private(_))
    }

    /// Whether this is an `override` clause, and one that names `path` where a
    /// path is given.
    pub open spec fn is_override(self, path: Option<Seq<Seq<char>>>) -> bool {
        match self {
            AttributeView::Override(o) => match path {
                Some(p) => o.names(p),
                None => true,
            },
            _ => false,
        }
    }

    /// Whether this is a modifier, and the one called `path` where a path is given.
    pub open spec fn is_modifier(self, path: Option<Seq<Seq<char>>>) -> bool {
        match self {
            AttributeView::Modifier(m) => match path {
                Some(p) => m.name == p,
                None => true,
            },
            _ => false,
        }
    }

    /// The attribute that starts at `pos`, with the position behind it. The
    /// forms are tried in a fixed order: visibility, mutability, `virtual`,
    /// `override`, `immutable`, and at last any identifier but `returns` as
    /// the name of a modifier. A body `{ ... }` is refused with a message of
    /// its own.
    pub open spec fn at(tokens: Seq<Token>, pos: int) -> Result<(AttributeView, int), ParseError> {
        if let Some(v) = Visibility::at(tokens, pos) {
            Ok((AttributeView::Visibility(v), pos + 1))
        } else if let Some(m) = Mutability::at(tokens, pos) {
            Ok((AttributeView::Mutability(m), pos + 1))
        } else if word_at(tokens, pos, "virtual"@) {
            Ok((AttributeView::Virtual(span_at(tokens, pos)), pos + 1))
        } else if word_at(tokens, pos, "override"@) {
            match OverrideView::at(tokens, pos) {
                Ok((o, next)) => Ok((AttributeView::Override(o), next)),
                Err(e) => Err(e),
            }
        } else if word_at(tokens, pos, "immutable"@) {
            Ok((AttributeView::Immutable(span_at(tokens, pos)), pos + 1))
        } else if ident_at(tokens, pos) && !word_at(tokens, pos, "returns"@) {
            match ModifierView::at(tokens, pos) {
                Some((m, next)) => Ok((AttributeView::Modifier(m), next)),
                None => Err(ParseError::single(span_at(tokens, pos), Message::ExpectedAttribute)),
            }
        } else if kind_at(tokens, pos, TokenKind::Brace) {
            Err(ParseError::single(span_at(tokens, pos), Message::IllegalBody))
        } else {
            Err(ParseError::single(span_at(tokens, pos), Message::ExpectedAttribute))
        }
    }
}

impl AttributeView {
    /// The one attribute that `tokens` hold: an attribute is read at their
    /// start, and no token may be left behind it.
    pub open spec fn alone(tokens: Seq<Token>) -> Result<AttributeView, ParseError> {
        match AttributeView::at(tokens, 0) {
            Err(e) => Err(e),
            Ok((a, next)) => if next < tokens.len() {
                Err(ParseError::single(span_at(tokens, next), Message::UnexpectedToken))
            } else {
                Ok(a)
            },
        }
    }

    /// The one attribute that `text` holds: the text is tokenized, and the
    /// tokens hold the attribute.
    pub open spec fn in_text(text: Seq<char>) -> Result<AttributeView, ParseError> {
        match lexed(text) {
            None => Err(ParseError::single(Span { lo: 0, hi: 0 }, Message::Lex)),
            Some(tokens) => AttributeView::alone(tokens),
        }
    }
}

impl Clone for FunctionAttribute {
    /// An attribute that holds the same.
    fn clone(&self) -> (r: FunctionAttribute)
        ensures
            r@ == self@,
    {
        match self {
            FunctionAttribute::Visibility(v) => FunctionAttribute::Visibility(*v),
            FunctionAttribute::Mutability(m) => FunctionAttribute::Mutability(*m),
            FunctionAttribute::Virtual(s) => FunctionAttribute::Virtual(*s),
            FunctionAttribute::Immutable(s) => FunctionAttribute::Immutable(*s),
            FunctionAttribute::Override(o) => FunctionAttribute::Override(o.clone()),
            FunctionAttribute::Modifier(m) => FunctionAttribute::Modifier(m.clone()),
        }
    }
}

impl View for FunctionAttribute {
    type V = AttributeView;

    open spec fn view(&self) -> AttributeView {
        match self {
            FunctionAttribute::Visibility(v) => AttributeView::Visibility(*v),
            FunctionAttribute::Mutability(m) => AttributeView::Mutability(*m),
            FunctionAttribute::Virtual(s) => AttributeView::Virtual(*s),
            FunctionAttribute::Immutable(s) => AttributeView::Immutable(*s),
            FunctionAttribute::Override(o) => AttributeView::Override(o@),
            FunctionAttribute::Modifier(m) => AttributeView::Modifier(m@),
        }
    }
}

impl FunctionAttribute {
    /// Reads one attribute at `pos`.
    pub fn parse(tokens: &Vec<Token>, pos: usize) -> (r: Result<
        (FunctionAttribute, usize),
        ParseError,
    >)
        ensures
            match r {
                Ok((a, next)) => AttributeView::at(tokens@, pos as int) == Ok::<_, ParseError>(
                    (a@, next as int),
                ) && pos < next <= tokens@.len(),
                Err(e) => AttributeView::at(tokens@, pos as int) == Err::<(AttributeView, int), _>(
                    e,
                ),
            },
    {
        if pos >= tokens.len() {
            return Err(ParseError::new(error_span(tokens, pos), Message::ExpectedAttribute));
        }
        if let Some(v) = Visibility::parse(tokens, pos) {
            Ok((FunctionAttribute::Visibility(v), pos + 1))
        } else if let Some(m) = Mutability::parse(tokens, pos) {
            Ok((FunctionAttribute::Mutability(m), pos + 1))
        } else if is_word(tokens, pos, "virtual") {
            Ok((FunctionAttribute::Virtual(error_span(tokens, pos)), pos + 1))
        } else if is_word(tokens, pos, "override") {
            match Override::parse(tokens, pos) {
                Ok((o, next)) => Ok((FunctionAttribute::Override(o), next)),
                Err(e) => Err(e),
            }
        } else if is_word(tokens, pos, "immutable") {
            Ok((FunctionAttribute::Immutable(error_span(tokens, pos)), pos + 1))
        } else if is_ident(tokens, pos) && !is_word(tokens, pos, "returns") {
            match Modifier::parse(tokens, pos) {
                Some((m, next)) => Ok((FunctionAttribute::Modifier(m), next)),
                None => Err(ParseError::new(error_span(tokens, pos), Message::ExpectedAttribute)),
            }
        } else if is_kind(tokens, pos, TokenKind::Brace) {
            Err(ParseError::new(error_span(tokens, pos), Message::IllegalBody))
        } else {
            Err(ParseError::new(error_span(tokens, pos), Message::ExpectedAttribute))
        }
    }

    /// Reads `tokens` as one attribute and nothing else.
    pub fn parse_all(tokens: &Vec<Token>) -> (r: Result<FunctionAttribute, ParseError>)
        ensures
            match r {
                Ok(a) => AttributeView::alone(tokens@) == Ok::<_, ParseError>(a@),
                Err(e) => AttributeView::alone(tokens@) == Err::<AttributeView, _>(e),
            },
    {
        match FunctionAttribute::parse(tokens, 0) {
            Err(e) => Err(e),
            Ok((a, next)) => if next < tokens.len() {
                Err(ParseError::new(error_span(tokens, next), Message::UnexpectedToken))
            } else {
                Ok(a)
            },
        }
    }

    /// Reads `text` as one attribute and nothing else.
    pub fn parse_str(text: &str) -> (r: Result<FunctionAttribute, ParseError>)
        ensures
            match r {
                Ok(a) => AttributeView::in_text(text@) == Ok::<_, ParseError>(a@),
                Err(e) => AttributeView::in_text(text@) == Err::<AttributeView, _>(e),
            },
    {
        match tokenize(text) {
            None => Err(ParseError::new(Span { lo: 0, hi: 0 }, Message::Lex)),
            Some(tokens) => FunctionAttribute::parse_all(&tokens),
        }
    }

    /// The attribute as text.
    pub fn to_string(&self) -> (r: String)
        ensures
            r@ == self@.text(),
    {
        match self {
            FunctionAttribute::Visibility(v) => v.to_string(),
            FunctionAttribute::Mutability(m) => m.to_string(),
            FunctionAttribute::Virtual(_) => String::from_str("virtual"),
            FunctionAttribute::Immutable(_) => String::from_str("immutable"),
            FunctionAttribute::Override(o) => o.to_string(),
            FunctionAttribute::Modifier(m) => m.to_string(),
        }
    }

    pub fn category(&self) -> (r: Category)
        ensures
            r == self@.category(),
    {
        match self {
            FunctionAttribute::Visibility(_) => Category::Visibility,
            FunctionAttribute::Mutability(_) => Category::Mutability,
            FunctionAttribute::Virtual(_) => Category::Virtual,
            FunctionAttribute::Immutable(_) => Category::Immutable,
            FunctionAttribute::Override(_) => Category::Override,
            FunctionAttribute::Modifier(_) => Category::Modifier,
        }
    }

    /// Whether the two attributes are the same under the identity of attributes.
    pub fn same(&self, other: &FunctionAttribute) -> (r: bool)
        ensures
            r == self@.same(other@),
    {
        match (self, other) {
            (FunctionAttribute::Modifier(a), FunctionAttribute::Modifier(b)) => a.name.same(
                &b.name,
            ),
            _ => self.category() == other.category(),
        }
    }

    pub fn span(&self) -> (r: Span)
        ensures
            r == self@.span(),
    {
        match self {
            FunctionAttribute::Visibility(v) => v.span(),
            FunctionAttribute::Mutability(m) => m.span(),
            FunctionAttribute::Virtual(s) => *s,
            FunctionAttribute::Override(o) => o.span(),
            FunctionAttribute::Immutable(s) => *s,
            FunctionAttribute::Modifier(m) => m.span(),
        }
    }

    pub fn set_span(&mut self, span: Span)
        ensures
            final(self)@ == old(self)@.with_span(span),
    {
        match self {
            FunctionAttribute::Visibility(v) => v.set_span(span),
            FunctionAttribute::Mutability(m) => m.set_span(span),
            FunctionAttribute::Virtual(s) => *s = span,
            FunctionAttribute::Override(o) => o.set_span(span),
            FunctionAttribute::Immutable(s) => *s = span,
            FunctionAttribute::Modifier(m) => m.set_span(span),
        }
    }

    pub fn visibility(&self) -> (r: Option<Visibility>)
        ensures
            match r {
                Some(v) => self@ == AttributeView::Visibility(v),
                None => !(self@ is Visibility),
            },
    {
        match self {
            FunctionAttribute::Visibility(v) => Some(*v),
            _ => None,
        }
    }

    pub fn mutability(&self) -> (r: Option<Mutability>)
        ensures
            match r {
                Some(m) => self@ == AttributeView::Mutability(m),
                None => !(self@ is Mutability),
            },
    {
        match self {
            FunctionAttribute::Mutability(m) => Some(*m),
            _ => None,
        }
    }

    pub fn override_clause(&self) -> (r: Option<&Override>)
        ensures
            match r {
                Some(o) => *self == FunctionAttribute::Override(*o),
                None => !(self@ is Override),
            },
    {
        match self {
            FunctionAttribute::Override(o) => Some(o),
            _ => None,
        }
    }

    pub fn modifier(&self) -> (r: Option<&Modifier>)
        ensures
            match r {
                Some(m) => *self == FunctionAttribute::Modifier(*m),
                None => !(self@ is Modifier),
            },
    {
        match self {
            FunctionAttribute::Modifier(m) => Some(m),
            _ => None,
        }
    }

    pub fn is_external(&self) -> (r: bool)
        ensures
            r == self@.is_external(),
    {
        matches!(self, FunctionAttribute::Visibility(Visibility::External(_)))
    }

    pub fn is_public(&self) -> (r: bool)
        ensures
            r == self@.is_public(),
    {
        matches!(self, FunctionAttribute::Visibility(Visibility::Public(_)))
    }

    pub fn is_internal(&self) -> (r: bool)
        ensures
            r == self@.is_internal(),
    {
        matches!(self, FunctionAttribute::Visibility(Visibility::Internal(_)))
    }

    pub fn is_private(&self) -> (r: bool)
        ensures
            r == self@.is_private(),
    {
        matches!(self, FunctionAttribute::Visibility(Visibility::Private(_)))
    }

    pub fn is_virtual(&self) -> (r: bool)
        ensures
            r == (self@ is Virtual),
    {
        matches!(self, FunctionAttribute::Virtual(_))
    }

    pub fn is_immutable(&self) -> (r: bool)
        ensures
            r == (self@ is Immutable),
    {
        matches!(self, FunctionAttribute::Immutable(_))
    }

    /// Whether this is an `override` clause; with a path, whether it is one
    /// that names the path among its targets.
    pub fn is_override(&self, path: Option<&SolPath>) -> (r: bool)
        ensures
            r == self@.is_override(
                match path {
                    Some(p) => Some(p@),
                    None => None,
                },
            ),
    {
        match self {
            FunctionAttribute::Override(o) => match path {
                Some(p) => o.names(p),
                None => true,
            },
            _ => false,
        }
    }

    /// Whether this is a modifier; with a path, whether it is the modifier of
    /// that name.
    pub fn is_modifier(&self, path: Option<&SolPath>) -> (r: bool)
        ensures
            r == self@.is_modifier(
                match path {
                    Some(p) => Some(p@),
                    None => None,
                },
            ),
    {
        match self {
            FunctionAttribute::Modifier(m) => match path {
                Some(p) => m.name.same(p),
                None => true,
            },
            _ => false,
        }
    }
}

/// One attribute of a state variable declaration.
#[derive(Debug)]
pub enum VariableAttribute {
    /// `external`, `public`, `internal` or `private`
    Visibility(Visibility),
    /// `constant`, with the place of the keyword
    Constant(Span),
    /// `immutable`, with the place of the keyword
    Immutable(Span),
    /// An `override` clause
    Override(Override),
}

impl Clone for VariableAttribute {
    /// An attribute that holds the same.
    fn clone(&self) -> (r: VariableAttribute)
        ensures
            r.holds_same(*self),
    {
        match self {
            VariableAttribute::Visibility(v) => VariableAttribute::Visibility(*v),
            VariableAttribute::Constant(s) => VariableAttribute::Constant(*s),
            VariableAttribute::Immutable(s) => VariableAttribute::Immutable(*s),
            VariableAttribute::Override(o) => VariableAttribute::Override(o.clone()),
        }
    }
}

impl VariableAttribute {
    /// The two attributes are of one form and hold the same.
    pub open spec fn holds_same(self, other: VariableAttribute) -> bool {
        match (self, other) {
            (VariableAttribute::Visibility(a), VariableAttribute::Visibility(b)) => a == b,
            (VariableAttribute::Constant(a), VariableAttribute::Constant(b)) => a == b,
            (VariableAttribute::Immutable(a), VariableAttribute::Immutable(b)) => a == b,
            (VariableAttribute::Override(a), VariableAttribute::Override(b)) => a@ == b@,
            _ => false,
        }
    }

    /// The place of the attribute in the text.
    pub open spec fn spec_span(self) -> Span {
        match self {
            VariableAttribute::Visibility(v) => v.spec_span(),
            VariableAttribute::Constant(s) => s,
            VariableAttribute::Immutable(s) => s,
            VariableAttribute::Override(o) => o.span,
        }
    }

    pub fn span(&self) -> (r: Span)
        ensures
            r == self.spec_span(),
    {
        match self {
            VariableAttribute::Visibility(v) => v.span(),
            VariableAttribute::Constant(s) => *s,
            VariableAttribute::Immutable(s) => *s,
            VariableAttribute::Override(o) => o.span(),
        }
    }
}

impl PartialEq for FunctionAttribute {
    /// Equality is the identity of attributes: see [`AttributeView::same`].
    fn eq(&self, other: &FunctionAttribute) -> (r: bool) {
        self.same(other)
    }
}

impl Eq for FunctionAttribute {

}

impl vstd::std_specs::cmp::PartialEqSpecImpl for FunctionAttribute {
    open spec fn obeys_eq_spec() -> bool {
        true
    }

    open spec fn eq_spec(&self, other: &FunctionAttribute) -> bool {
        self@.same(other@)
    }
}

impl From<VariableAttribute> for FunctionAttribute {
    /// The function attribute that stands for an attribute of a variable:
    /// `constant` becomes `immutable` at the same place, the others stay
    /// what they are.
    fn from(value: VariableAttribute) -> (r: FunctionAttribute) {
        match value {
            VariableAttribute::Visibility(v) => FunctionAttribute::Visibility(v),
            VariableAttribute::Constant(s) => FunctionAttribute::Immutable(s),
            VariableAttribute::Immutable(s) => FunctionAttribute::Immutable(s),
            VariableAttribute::Override(o) => FunctionAttribute::Override(o),
        }
    }
}

impl vstd::std_specs::convert::FromSpecImpl<VariableAttribute> for FunctionAttribute {
    open spec fn obeys_from_spec() -> bool {
        true
    }

    open spec fn from_spec(value: VariableAttribute) -> FunctionAttribute {
        match value {
            VariableAttribute::Visibility(v) => FunctionAttribute::Visibility(v),
            VariableAttribute::Constant(s) => FunctionAttribute::Immutable(s),
            VariableAttribute::Immutable(s) => FunctionAttribute::Immutable(s),
            VariableAttribute::Override(o) => FunctionAttribute::Override(o),
        }
    }
}

/// Conversion keeps the place: the function attribute made from an attribute
/// of a variable points at the same place in the text, and `constant` in
/// particular becomes `immutable` at the place of the `constant` keyword.
pub proof fn lemma_conversion_keeps_span(value: VariableAttribute)
    ensures
        FunctionAttribute::from_spec(value)@.span() == value.spec_span(),
        value matches VariableAttribute::Constant(span) ==> FunctionAttribute::from_spec(value)
            == FunctionAttribute::Immutable(span),
{
}

/// What each attribute of a list holds.
pub open spec fn views(attrs: Seq<FunctionAttribute>) -> Seq<AttributeView> {
    Seq::new(attrs.len(), |i: int| attrs[i]@)
}

/// No two attributes of the list are the same.
pub open spec fn unique(attrs: Seq<AttributeView>) -> bool {
    forall|i: int, j: int| 0 <= i < j < attrs.len() ==> !(#[trigger] attrs[i]).same(#[trigger] attrs[j])
}

/// The index of the first member of `attrs` that is the same as `attr`.
pub open spec fn first_same(attrs: Seq<AttributeView>, attr: AttributeView, i: int) -> bool {
    &&& 0 <= i < attrs.len()
    &&& attrs[i].same(attr)
    &&& forall|j: int| 0 <= j < i ==> !(#[trigger] attrs[j]).same(attr)
}

/// The first member of `attrs` that is the same as `attr`, if there is one.
pub open spec fn earlier(attrs: Seq<AttributeView>, attr: AttributeView) -> Option<AttributeView> {
    if exists|i: int| first_same(attrs, attr, i) {
        Some(attrs[choose|i: int| first_same(attrs, attr, i)])
    } else {
        None
    }
}

/// Where a list of attributes ends: at the end of the input, before
/// `returns`, before `;` and before a body.
pub open spec fn at_end(tokens: Seq<Token>, pos: int) -> bool {
    ||| pos >= tokens.len()
    ||| word_at(tokens, pos, "returns"@)
    ||| punct_at(tokens, pos, ";"@)
    ||| kind_at(tokens, pos, TokenKind::Brace)
}

/// An attribute that was read takes up at least one token.
pub proof fn lemma_attribute_advances(tokens: Seq<Token>, pos: int)
    ensures
        AttributeView::at(tokens, pos) matches Ok((_, next)) ==> pos < next <= tokens.len(),
{
    if ident_at(tokens, pos) {
        lemma_path_bounds(tokens, pos);
    }
}

/// The attributes read from `pos` on, added in turn to those in `acc`, with
/// the position at which the list ends. The end is looked for before each
/// attribute and nowhere else. The first attribute that cannot be read, or
/// that is the same as one read before it, ends the whole with its error.
pub open spec fn attributes_from(tokens: Seq<Token>, pos: int, acc: Seq<AttributeView>) -> Result<
    (Seq<AttributeView>, int),
    ParseError,
>
    decreases tokens.len() - pos,
    via attributes_from_decreases
{
    if at_end(tokens, pos) {
        Ok((acc, pos))
    } else {
        match AttributeView::at(tokens, pos) {
            Err(e) => Err(e),
            Ok((attr, next)) => match earlier(acc, attr) {
                Some(previous) => Err(ParseError::duplicate(attr.span(), previous.span())),
                None => attributes_from(tokens, next, acc.push(attr)),
            },
        }
    }
}

/// The attributes that `tokens` hold: attributes are read from their start,
/// and no token may be left behind them.
pub open spec fn attributes_of(tokens: Seq<Token>) -> Result<Seq<AttributeView>, ParseError> {
    match attributes_from(tokens, 0, Seq::empty()) {
        Err(e) => Err(e),
        Ok((attrs, next)) => if next < tokens.len() {
            Err(ParseError::single(span_at(tokens, next), Message::UnexpectedToken))
        } else {
            Ok(attrs)
        },
    }
}

/// The attributes that `text` holds: the text is tokenized, and the tokens
/// hold the attributes.
pub open spec fn attributes_in(text: Seq<char>) -> Result<Seq<AttributeView>, ParseError> {
    match lexed(text) {
        None => Err(ParseError::single(Span { lo: 0, hi: 0 }, Message::Lex)),
        Some(tokens) => attributes_of(tokens),
    }
}

#[via_fn]
proof fn attributes_from_decreases(tokens: Seq<Token>, pos: int, acc: Seq<AttributeView>) {
    lemma_attribute_advances(tokens, pos);
}

/// The attributes of one function declaration: no two of them are the same.
#[derive(Debug)]
pub struct FunctionAttributes {
    attrs: Vec<FunctionAttribute>,
}

impl View for FunctionAttributes {
    type V = Seq<AttributeView>;

    /// The attributes in the order in which they were added.
    closed spec fn view(&self) -> Seq<AttributeView> {
        views(self.attrs@)
    }
}

/// The result of looking for the first member of a category.
pub open spec fn found_first(attrs: Seq<AttributeView>, category: Category, found: Option<usize>) -> bool {
    match found {
        Some(i) => i < attrs.len() && attrs[i as int].category() == category && forall|j: int|
            0 <= j < i ==> (#[trigger] attrs[j]).category() != category,
        None => forall|j: int| 0 <= j < attrs.len() ==> (#[trigger] attrs[j]).category() != category,
    }
}

/// In a list without two attributes that are the same, the first member of a
/// category other than that of modifiers is its only one.
pub proof fn lemma_found_is_sole(attrs: Seq<AttributeView>, category: Category, found: Option<usize>)
    requires
        unique(attrs),
        category != Category::Modifier,
        found_first(attrs, category, found),
    ensures
        forall|a: AttributeView|
            #[trigger] attrs.contains(a) && a.category() == category ==> found is Some && attrs[found->Some_0 as int] == a,
        found matches Some(i) ==> attrs.contains(attrs[i as int]),
{
    assert forall|a: AttributeView|
        #[trigger] attrs.contains(a) && a.category() == category implies found is Some && attrs[found->Some_0 as int] == a by {
        let k = choose|k: int| 0 <= k < attrs.len() && attrs[k] == a;
        match found {
            Some(i) => {
                assert(attrs[k].same(attrs[i as int]));
                assert(attrs[i as int].same(attrs[k]));
            },
            None => {
                assert(attrs[k].category() != category);
            },
        }
    }
}

/// What the one visibility of a list says of each visibility keyword: the
/// list has a member of that keyword exactly when its visibility is that one.
pub proof fn lemma_visibility_decides(attrs: Seq<AttributeView>, v: Option<Visibility>)
    requires
        match v {
            Some(found) => attrs.contains(AttributeView::Visibility(found)),
            None => forall|i: int| 0 <= i < attrs.len() ==> !(#[trigger] attrs[i] is Visibility),
        },
        forall|w: Visibility| attrs.contains(AttributeView::Visibility(w)) ==> v == Some(w),
    ensures
        (v matches Some(Visibility::External(_))) == exists|i: int|
            0 <= i < attrs.len() && (#[trigger] attrs[i]).is_external(),
        (v matches Some(Visibility::Public(_))) == exists|i: int|
            0 <= i < attrs.len() && (#[trigger] attrs[i]).is_public(),
        (v matches Some(Visibility::Internal(_))) == exists|i: int|
            0 <= i < attrs.len() && (#[trigger] attrs[i]).is_internal(),
        (v matches Some(Visibility::Private(_))) == exists|i: int|
            0 <= i < attrs.len() && (#[trigger] attrs[i]).is_private(),
{
    if let Some(found) = v {
        let k = choose|k: int| 0 <= k < attrs.len() && attrs[k] == AttributeView::Visibility(found);
        assert(attrs[k] is Visibility);
    }
    assert forall|i: int| 0 <= i < attrs.len() && (#[trigger] attrs[i]) is Visibility implies v
        == Some(attrs[i]->Visibility_0) by {
        assert(attrs.contains(attrs[i]));
    }
}

/// Two lists hold the same attributes: they are of one length, and every
/// attribute of the first is the same as one of the second.
pub open spec fn same_members(a: Seq<AttributeView>, b: Seq<AttributeView>) -> bool {
    &&& a.len() == b.len()
    &&& forall|i: int| 0 <= i < a.len() ==> has_member(b, #[trigger] a[i])
}

/// Some member of `attrs` is the same as `attr`.
pub open spec fn has_member(attrs: Seq<AttributeView>, attr: AttributeView) -> bool {
    exists|j: int| 0 <= j < attrs.len() && (#[trigger] attrs[j]).same(attr)
}

impl PartialEq for FunctionAttributes {
    /// Equality of sets, under the identity of attributes.
    fn eq(&self, other: &FunctionAttributes) -> (r: bool) {
        if self.attrs.len() != other.attrs.len() {
            return false;
        }
        let mut i: usize = 0;
        while i < self.attrs.len()
            invariant
                i <= self.attrs@.len(),
                self.attrs@.len() == other.attrs@.len(),
                forall|k: int| 0 <= k < i ==> has_member(other@, #[trigger] self@[k]),
            decreases self.attrs@.len() - i,
        {
            if other.get(&self.attrs[i]).is_none() {
                assert(!has_member(other@, self@[i as int]));
                return false;
            }
            assert(has_member(other@, self@[i as int]));
            i = i + 1;
        }
        true
    }
}

impl Eq for FunctionAttributes {

}

impl vstd::std_specs::cmp::PartialEqSpecImpl for FunctionAttributes {
    open spec fn obeys_eq_spec() -> bool {
        true
    }

    open spec fn eq_spec(&self, other: &FunctionAttributes) -> bool {
        same_members(self@, other@)
    }
}

impl Clone for FunctionAttributes {
    /// A set that holds the same attributes in the same order.
    fn clone(&self) -> (r: FunctionAttributes)
        ensures
            r@ == self@,
    {
        proof {
            use_type_invariant(self);
        }
        let mut attrs: Vec<FunctionAttribute> = Vec::new();
        let mut i: usize = 0;
        while i < self.attrs.len()
            invariant
                i <= self.attrs@.len(),
                attrs@.len() == i,
                forall|j: int| 0 <= j < i ==> attrs@[j]@ == self.attrs@[j]@,
            decreases self.attrs@.len() - i,
        {
            attrs.push(self.attrs[i].clone());
            i = i + 1;
        }
        assert(views(attrs@) =~= views(self.attrs@));
        FunctionAttributes { attrs }
    }
}

impl Default for FunctionAttributes {
    /// The empty set.
    fn default() -> (r: FunctionAttributes)
        ensures
            r@ == Seq::<AttributeView>::empty(),
    {
        FunctionAttributes::new()
    }
}

impl FunctionAttributes {
    #[verifier::type_invariant]
    spec fn well_formed(&self) -> bool {
        unique(views(self.attrs@))
    }

    /// The attributes in the order in which they were added.
    pub fn attributes(&self) -> (r: &Vec<FunctionAttribute>)
        ensures
            views(r@) == self@,
            unique(self@),
    {
        proof {
            use_type_invariant(self);
        }
        &self.attrs
    }

    /// The empty set.
    pub fn new() -> (r: FunctionAttributes)
        ensures
            r@ == Seq::<AttributeView>::empty(),
    {
        let attrs: Vec<FunctionAttribute> = Vec::new();
        assert(views(attrs@) =~= Seq::empty());
        FunctionAttributes { attrs }
    }

    pub fn len(&self) -> (r: usize)
        ensures
            r == self@.len(),
    {
        self.attrs.len()
    }

    /// The member that is the same as `attr`, if there is one.
    pub fn get(&self, attr: &FunctionAttribute) -> (r: Option<&FunctionAttribute>)
        ensures
            match r {
                Some(found) => earlier(self@, attr@) == Some(found@),
                None => earlier(self@, attr@) is None,
            },
            r is Some <==> exists|i: int| 0 <= i < self@.len() && self@[i].same(attr@),
    {
        let mut i: usize = 0;
        while i < self.attrs.len()
            invariant
                i <= self.attrs@.len(),
                forall|j: int| 0 <= j < i ==> !(#[trigger] views(self.attrs@)[j]).same(attr@),
            decreases self.attrs@.len() - i,
        {
            if self.attrs[i].same(attr) {
                proof {
                    let s = views(self.attrs@);
                    assert(first_same(s, attr@, i as int));
                    let k = choose|k: int| first_same(s, attr@, k);
                    assert(k == i);
                }
                return Some(&self.attrs[i]);
            }
            i = i + 1;
        }
        None
    }

    /// Adds `attr` unless a member is the same as it; says whether it was added.
    pub fn insert(&mut self, attr: FunctionAttribute) -> (r: bool)
        ensures
            r <==> !exists|i: int| 0 <= i < old(self)@.len() && old(self)@[i].same(attr@),
            r ==> final(self)@ == old(self)@.push(attr@),
            !r ==> final(self)@ == old(self)@,
            unique(final(self)@),
    {
        proof {
            use_type_invariant(&*self);
        }
        if self.get(&attr).is_some() {
            return false;
        }
        let ghost before = self.attrs@;
        let mut attrs: Vec<FunctionAttribute> = Vec::new();
        assert(views(attrs@) =~= Seq::empty());
        std::mem::swap(&mut attrs, &mut self.attrs);
        attrs.push(attr);
        assert(views(attrs@) =~= views(before).push(attr@));
        std::mem::swap(&mut attrs, &mut self.attrs);
        true
    }

    /// The index of the first member of the given category.
    fn find(&self, category: Category) -> (r: Option<usize>)
        ensures
            found_first(self@, category, r),
            unique(self@),
    {
        proof {
            use_type_invariant(self);
        }
        let mut i: usize = 0;
        while i < self.attrs.len()
            invariant
                i <= self.attrs@.len(),
                unique(views(self.attrs@)),
                forall|j: int|
                    0 <= j < i ==> (#[trigger] views(self.attrs@)[j]).category() != category,
            decreases self.attrs@.len() - i,
        {
            if self.attrs[i].category() == category {
                return Some(i);
            }
            i = i + 1;
        }
        None
    }

    /// The visibility of the declaration: the one visibility attribute of the
    /// set, if it has one.
    pub fn visibility(&self) -> (r: Option<Visibility>)
        ensures
            match r {
                Some(v) => self@.contains(AttributeView::Visibility(v)),
                None => forall|i: int| 0 <= i < self@.len() ==> !(#[trigger] self@[i] is Visibility),
            },
            forall|v: Visibility| self@.contains(AttributeView::Visibility(v)) ==> r == Some(v),
    {
        let found = self.find(Category::Visibility);
        proof {
            lemma_found_is_sole(self@, Category::Visibility, found);
        }
        match found {
            Some(i) => self.attrs[i].visibility(),
            None => None,
        }
    }

    /// The mutability of the declaration: the one mutability attribute of the
    /// set, if it has one.
    pub fn mutability(&self) -> (r: Option<Mutability>)
        ensures
            match r {
                Some(m) => self@.contains(AttributeView::Mutability(m)),
                None => forall|i: int| 0 <= i < self@.len() ==> !(#[trigger] self@[i] is Mutability),
            },
            forall|m: Mutability| self@.contains(AttributeView::Mutability(m)) ==> r == Some(m),
    {
        let found = self.find(Category::Mutability);
        proof {
            lemma_found_is_sole(self@, Category::Mutability, found);
        }
        match found {
            Some(i) => self.attrs[i].mutability(),
            None => None,
        }
    }

    /// The `override` clause of the declaration: the one such clause of the
    /// set, if it has one.
    pub fn override_clause(&self) -> (r: Option<&Override>)
        ensures
            match r {
                Some(o) => self@.contains(AttributeView::Override(o@)),
                None => forall|i: int| 0 <= i < self@.len() ==> !(#[trigger] self@[i] is Override),
            },
            forall|o: OverrideView|
                self@.contains(AttributeView::Override(o)) ==> (r matches Some(found) && found@ == o),
    {
        let found = self.find(Category::Override);
        proof {
            lemma_found_is_sole(self@, Category::Override, found);
        }
        match found {
            Some(i) => self.attrs[i].override_clause(),
            None => None,
        }
    }

    /// The first modifier of the declaration, in the order in which the
    /// attributes were added.
    pub fn modifier(&self) -> (r: Option<&Modifier>)
        ensures
            match r {
                Some(m) => exists|i: int|
                    0 <= i < self@.len() && self@[i] == AttributeView::Modifier(m@) && forall|
                        j: int,
                    |
                        0 <= j < i ==> !(#[trigger] self@[j] is Modifier),
                None => forall|i: int| 0 <= i < self@.len() ==> !(#[trigger] self@[i] is Modifier),
            },
    {
        match self.find(Category::Modifier) {
            Some(i) => {
                let r = self.attrs[i].modifier();
                proof {
                    assert(self@[i as int].category() == Category::Modifier);
                    assert forall|j: int| 0 <= j < i implies !(#[trigger] self@[j] is Modifier) by {
                        assert(self@[j].category() != Category::Modifier);
                    }
                }
                r
            },
            None => {
                proof {
                    assert forall|j: int| 0 <= j < self@.len() implies !(
                    #[trigger] self@[j] is Modifier) by {
                        assert(self@[j].category() != Category::Modifier);
                    }
                }
                None
            },
        }
    }

    pub fn has_external(&self) -> (r: bool)
        ensures
            r == exists|i: int| 0 <= i < self@.len() && (#[trigger] self@[i]).is_external(),
    {
        let v = self.visibility();
        proof {
            lemma_visibility_decides(self@, v);
        }
        matches!(v, Some(Visibility::External(_)))
    }

    pub fn has_internal(&self) -> (r: bool)
        ensures
            r == exists|i: int| 0 <= i < self@.len() && (#[trigger] self@[i]).is_internal(),
    {
        let v = self.visibility();
        proof {
            lemma_visibility_decides(self@, v);
        }
        matches!(v, Some(Visibility::Internal(_)))
    }

    pub fn has_private(&self) -> (r: bool)
        ensures
            r == exists|i: int| 0 <= i < self@.len() && (#[trigger] self@[i]).is_private(),
    {
        let v = self.visibility();
        proof {
            lemma_visibility_decides(self@, v);
        }
        matches!(v, Some(Visibility::Private(_)))
    }

    pub fn has_public(&self) -> (r: bool)
        ensures
            r == exists|i: int| 0 <= i < self@.len() && (#[trigger] self@[i]).is_public(),
    {
        let v = self.visibility();
        proof {
            lemma_visibility_decides(self@, v);
        }
        matches!(v, Some(Visibility::Public(_)))
    }

    pub fn has_virtual(&self) -> (r: bool)
        ensures
            r == exists|i: int| 0 <= i < self@.len() && (#[trigger] self@[i]) is Virtual,
    {
        match self.find(Category::Virtual) {
            Some(i) => {
                assert(self@[i as int] is Virtual);
                true
            },
            None => {
                assert forall|i: int| 0 <= i < self@.len() implies !(#[trigger] self@[i] is Virtual) by {
                    assert(self@[i].category() != Category::Virtual);
                }
                false
            },
        }
    }

    pub fn has_immutable(&self) -> (r: bool)
        ensures
            r == exists|i: int| 0 <= i < self@.len() && (#[trigger] self@[i]) is Immutable,
    {
        match self.find(Category::Immutable) {
            Some(i) => {
                assert(self@[i as int] is Immutable);
                true
            },
            None => {
                assert forall|i: int| 0 <= i < self@.len() implies !(#[trigger] self@[i] is Immutable) by {
                    assert(self@[i].category() != Category::Immutable);
                }
                false
            },
        }
    }

    /// Whether the set has an `override` clause; with a path, whether it has
    /// one that names the path among its targets.
    pub fn has_override(&self, path: Option<&SolPath>) -> (r: bool)
        ensures
            r == exists|i: int|
                0 <= i < self@.len() && (#[trigger] self@[i]).is_override(
                    match path {
                        Some(p) => Some(p@),
                        None => None,
                    },
                ),
    {
        let ghost wanted = match path {
            Some(p) => Some(p@),
            None => None,
        };
        match self.find(Category::Override) {
            Some(i) => {
                let r = self.attrs[i].is_override(path);
                proof {
                    if r {
                        assert(self@[i as int].is_override(wanted));
                    } else {
                        assert forall|k: int| 0 <= k < self@.len() implies !(#[trigger] self@[k]).is_override(wanted) by {
                            if self@[k].is_override(wanted) {
                                assert(self@[k].same(self@[i as int]));
                                assert(k == i);
                            }
                        }
                    }
                }
                r
            },
            None => {
                assert forall|k: int| 0 <= k < self@.len() implies !(#[trigger] self@[k]).is_override(wanted) by {
                    assert(self@[k].category() != Category::Override);
                }
                false
            },
        }
    }

    /// Whether the set has a modifier; with a path, whether it has the
    /// modifier of that name.
    pub fn has_modifier(&self, path: Option<&SolPath>) -> (r: bool)
        ensures
            r == exists|i: int|
                0 <= i < self@.len() && (#[trigger] self@[i]).is_modifier(
                    match path {
                        Some(p) => Some(p@),
                        None => None,
                    },
                ),
    {
        let ghost wanted = match path {
            Some(p) => Some(p@),
            None => None,
        };
        let mut i: usize = 0;
        while i < self.attrs.len()
            invariant
                i <= self.attrs@.len(),
                wanted == match path {
                    Some(p) => Some(p@),
                    None => None,
                },
                forall|j: int| 0 <= j < i ==> !(#[trigger] views(self.attrs@)[j]).is_modifier(wanted),
            decreases self.attrs@.len() - i,
        {
            if self.attrs[i].is_modifier(path) {
                assert(self@[i as int].is_modifier(wanted));
                return true;
            }
            i = i + 1;
        }
        false
    }

    /// Whether a list of attributes ends at `pos`.
    pub fn ends_at(tokens: &Vec<Token>, pos: usize) -> (r: bool)
        ensures
            r == at_end(tokens@, pos as int),
    {
        pos >= tokens.len() || is_word(tokens, pos, "returns") || is_punct(tokens, pos, ";")
            || is_kind(tokens, pos, TokenKind::Brace)
    }

    /// Reads `tokens` as a list of attributes and nothing else.
    pub fn parse_all(tokens: &Vec<Token>) -> (r: Result<FunctionAttributes, ParseError>)
        ensures
            match r {
                Ok(set) => attributes_of(tokens@) == Ok::<_, ParseError>(set@) && unique(set@),
                Err(e) => attributes_of(tokens@) == Err::<Seq<AttributeView>, _>(e),
            },
    {
        match FunctionAttributes::parse(tokens, 0) {
            Err(e) => Err(e),
            Ok((set, next)) => if next < tokens.len() {
                Err(ParseError::new(error_span(tokens, next), Message::UnexpectedToken))
            } else {
                Ok(set)
            },
        }
    }

    /// Reads `text` as a list of attributes and nothing else.
    pub fn parse_str(text: &str) -> (r: Result<FunctionAttributes, ParseError>)
        ensures
            match r {
                Ok(set) => attributes_in(text@) == Ok::<_, ParseError>(set@) && unique(set@),
                Err(e) => attributes_in(text@) == Err::<Seq<AttributeView>, _>(e),
            },
    {
        match tokenize(text) {
            None => Err(ParseError::new(Span { lo: 0, hi: 0 }, Message::Lex)),
            Some(tokens) => FunctionAttributes::parse_all(&tokens),
        }
    }

    /// Reads attributes from `pos` up to the end of the list.
    pub fn parse(tokens: &Vec<Token>, pos: usize) -> (r: Result<
        (FunctionAttributes, usize),
        ParseError,
    >)
        ensures
            match r {
                Ok((set, next)) => attributes_from(tokens@, pos as int, Seq::empty()) == Ok::<
                    _,
                    ParseError,
                >((set@, next as int)) && at_end(tokens@, next as int) && unique(set@),
                Err(e) => attributes_from(tokens@, pos as int, Seq::empty()) == Err::<
                    (Seq<AttributeView>, int),
                    _,
                >(e),
            },
    {
        let mut set = FunctionAttributes::new();
        let mut cur: usize = pos;
        while !FunctionAttributes::ends_at(tokens, cur)
            invariant
                attributes_from(tokens@, pos as int, Seq::empty()) == attributes_from(
                    tokens@,
                    cur as int,
                    set@,
                ),
            decreases tokens@.len() - cur,
        {
            match FunctionAttribute::parse(tokens, cur) {
                Err(e) => {
                    return Err(e);
                },
                Ok((attr, next)) => {
                    let span = attr.span();
                    match set.get(&attr) {
                        Some(previous) => {
                            return Err(
                                ParseError::new(span, Message::Duplicate).combine(
                                    Diagnostic {
                                        span: previous.span(),
                                        message: Message::PreviousDeclaration,
                                    },
                                ),
                            );
                        },
                        None => {},
                    }
                    let added = set.insert(attr);
                    assert(added);
                    cur = next;
                },
            }
        }
        proof {
            use_type_invariant(&set);
        }
        Ok((set, cur))
    }
}

} // verus!
