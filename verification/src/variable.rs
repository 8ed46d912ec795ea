//! Types and variable declarations.

use crate::error::{Message, ParseError};
use crate::path::{lemma_path_bounds, path_end, path_segments, path_text, SolPath};
use crate::text::{join, joined, texts};
use crate::token::{
    error_span, ident_at, is_ident, is_kind, is_punct, is_word, kind_at, lexed, punct_at, span_at,
    tokenize, word_at, Span, Token, TokenKind,
};
use vstd::prelude::*;
use vstd::string::StringExecFns;

verus! {

/// How deep tuples may stand within tuples in a type that is read.
pub const MAX_DEPTH: usize = 32;

/// A type: a name, an array of a type, or a tuple of types.
#[derive(Debug, PartialEq, Eq)]
pub enum Type {
    /// An elementary or user-defined type, by its name
    Named(SolPath),
    /// `T[]` or `T[size]`
    Array(Box<Type>, Option<String>),
    /// `(T1, T2, ...)`
    Tuple(Vec<Type>),
}

/// What a [`Type`] holds, as mathematical values.
pub enum TypeView {
    Named(Seq<Seq<char>>),
    Array(Box<TypeView>, Option<Seq<char>>),
    Tuple(Seq<TypeView>),
}

/// What each type of a list holds.
pub open spec fn models(items: Seq<Type>) -> Seq<TypeView> {
    Seq::new(items.len(), |i: int| items[i].model())
}

/// The position behind the name or the parenthesized group at `pos`; `pos`
/// itself where neither stands there.
pub open spec fn base_end(tokens: Seq<Token>, pos: int) -> int {
    if ident_at(tokens, pos) {
        path_end(tokens, pos)
    } else if kind_at(tokens, pos, TokenKind::Paren) {
        pos + 1
    } else {
        pos
    }
}

/// The position behind the bracketed groups that stand in a row from `pos` on.
pub open spec fn dims_end(tokens: Seq<Token>, pos: int) -> int
    decreases tokens.len() - pos,
{
    if kind_at(tokens, pos, TokenKind::Bracket) {
        dims_end(tokens, pos + 1)
    } else {
        pos
    }
}

/// The position behind the type that starts at `pos`.
pub open spec fn type_end(tokens: Seq<Token>, pos: int) -> int {
    dims_end(tokens, base_end(tokens, pos))
}

pub proof fn lemma_dims_end_bounds(tokens: Seq<Token>, pos: int)
    requires
        0 <= pos <= tokens.len(),
    ensures
        pos <= dims_end(tokens, pos) <= tokens.len(),
    decreases tokens.len() - pos,
{
    if kind_at(tokens, pos, TokenKind::Bracket) {
        lemma_dims_end_bounds(tokens, pos + 1);
    }
}

/// A type takes up at least one token and ends inside the input.
pub proof fn lemma_type_end_bounds(tokens: Seq<Token>, pos: int)
    requires
        ident_at(tokens, pos) || kind_at(tokens, pos, TokenKind::Paren),
    ensures
        pos < type_end(tokens, pos) <= tokens.len(),
{
    if ident_at(tokens, pos) {
        lemma_path_bounds(tokens, pos);
    }
    lemma_dims_end_bounds(tokens, base_end(tokens, pos));
}

/// The size that the tokens between two brackets give to an array: none
/// where there is no token, else the one number or name that stands there.
pub open spec fn size_of(inner: Seq<Token>) -> Result<Option<Seq<char>>, Message> {
    if inner.len() == 0 {
        Ok(None)
    } else if inner.len() == 1 && (inner[0].kind == TokenKind::Literal || inner[0].kind
        == TokenKind::Ident) {
        Ok(Some(inner[0].text@))
    } else {
        Err(Message::ExpectedSize)
    }
}

/// The size that the text between two brackets gives to an array: the text
/// is tokenized, and the tokens give the size.
pub open spec fn size_in(text: Seq<char>) -> Result<Option<Seq<char>>, Message> {
    match lexed(text) {
        None => Err(Message::Lex),
        Some(inner) => size_of(inner),
    }
}

/// `base` made an array once for each bracketed group that stands from `pos` on.
pub open spec fn with_dims(tokens: Seq<Token>, pos: int, base: TypeView) -> Result<
    TypeView,
    Message,
>
    decreases tokens.len() - pos,
{
    if kind_at(tokens, pos, TokenKind::Bracket) {
        match size_in(tokens[pos].text@) {
            Err(m) => Err(m),
            Ok(size) => with_dims(tokens, pos + 1, TypeView::Array(Box::new(base), size)),
        }
    } else {
        Ok(base)
    }
}

impl TypeView {
    /// The canonical text of the type: no spaces, array brackets directly
    /// behind the element type, the items of a tuple between parentheses with
    /// one comma between neighbours.
    pub open spec fn text(self) -> Seq<char>
        decreases self,
    {
        match self {
            TypeView::Named(p) => path_text(p),
            TypeView::Array(inner, size) => inner.text() + "["@ + (match size {
                Some(n) => n,
                None => Seq::empty(),
            }) + "]"@,
            TypeView::Tuple(items) => "("@ + joined(TypeView::texts(items), ","@) + ")"@,
        }
    }

    /// The canonical text of each type of a list.
    pub open spec fn texts(items: Seq<TypeView>) -> Seq<Seq<char>>
        decreases items,
    {
        Seq::new(
            items.len(),
            |i: int|
                if 0 <= i < items.len() {
                    items[i].text()
                } else {
                    Seq::empty()
                },
        )
    }

    /// The type that starts at `pos`; it ends at [`type_end`]. A tuple is a
    /// parenthesized group, which is tokenized on its own and holds a list of
    /// types; `depth` says how many tuples may still be entered.
    pub open spec fn at(tokens: Seq<Token>, pos: int, depth: nat) -> Result<TypeView, Message>
        decreases depth, 0int,
    {
        if ident_at(tokens, pos) {
            with_dims(tokens, path_end(tokens, pos), TypeView::Named(path_segments(tokens, pos)))
        } else if kind_at(tokens, pos, TokenKind::Paren) {
            if depth == 0 {
                Err(Message::TooDeep)
            } else {
                match lexed(tokens[pos].text@) {
                    None => Err(Message::Lex),
                    Some(inner) => match TypeView::list(inner, 0, (depth - 1) as nat) {
                        Err(m) => Err(m),
                        Ok(items) => with_dims(tokens, pos + 1, TypeView::Tuple(items)),
                    },
                }
            }
        } else {
            Err(Message::ExpectedType)
        }
    }

    /// The comma-separated types that fill `inner` from `pos` to its end; a
    /// comma behind the last type is allowed.
    pub open spec fn list(inner: Seq<Token>, pos: int, depth: nat) -> Result<
        Seq<TypeView>,
        Message,
    >
        decreases depth, inner.len() - pos + 1,
        via Self::list_decreases
    {
        if pos >= inner.len() {
            Ok(Seq::empty())
        } else if !(ident_at(inner, pos) || kind_at(inner, pos, TokenKind::Paren)) {
            Err(Message::ExpectedType)
        } else {
            match TypeView::at(inner, pos, depth) {
                Err(m) => Err(m),
                Ok(ty) => if type_end(inner, pos) >= inner.len() {
                    Ok(seq![ty])
                } else if !punct_at(inner, type_end(inner, pos), ","@) {
                    Err(Message::ExpectedSeparator)
                } else {
                    match TypeView::list(inner, type_end(inner, pos) + 1, depth) {
                        Ok(rest) => Ok(seq![ty] + rest),
                        Err(m) => Err(m),
                    }
                },
            }
        }
    }

    #[via_fn]
    proof fn list_decreases(inner: Seq<Token>, pos: int, depth: nat) {
        if pos < inner.len() && (ident_at(inner, pos) || kind_at(inner, pos, TokenKind::Paren)) {
            lemma_type_end_bounds(inner, pos);
        }
    }
}

impl Type {
    /// What the type holds, as mathematical values.
    pub open spec fn model(self) -> TypeView
        decreases self,
    {
        match self {
            Type::Named(p) => TypeView::Named(p@),
            Type::Array(inner, size) => TypeView::Array(
                Box::new(inner.model()),
                match size {
                    Some(n) => Some(n@),
                    None => None,
                },
            ),
            Type::Tuple(items) => TypeView::Tuple(
                Seq::new(
                    items@.len(),
                    |i: int|
                        if 0 <= i < items@.len() {
                            items@[i].model()
                        } else {
                            TypeView::Tuple(Seq::empty())
                        },
                ),
            ),
        }
    }
}

/// `first` put in front of a list of types that was read, where it was read.
pub open spec fn put_before(first: Seq<TypeView>, rest: Result<Seq<TypeView>, Message>) -> Result<
    Seq<TypeView>,
    Message,
> {
    match rest {
        Ok(items) => Ok(first + items),
        Err(m) => Err(m),
    }
}

impl Clone for Type {
    /// A type that holds the same.
    fn clone(&self) -> (r: Type)
        ensures
            r@ == self@,
        decreases self,
    {
        match self {
            Type::Named(name) => Type::Named(name.clone()),
            Type::Array(inner, size) => {
                let size = match size {
                    Some(n) => Some(n.clone()),
                    None => None,
                };
                Type::Array(Box::new((**inner).clone()), size)
            },
            Type::Tuple(items) => {
                let mut copies: Vec<Type> = Vec::new();
                let mut i: usize = 0;
                while i < items.len()
                    invariant
                        i <= items@.len(),
                        copies@.len() == i,
                        *self == Type::Tuple(*items),
                        decreases_to!(*self => *items),
                        forall|j: int| 0 <= j < i ==> copies@[j]@ == items@[j]@,
                    decreases items@.len() - i,
                {
                    proof {
                        vstd::std_specs::vec::axiom_vec_index_decreases(*items, i as int);
                    }
                    copies.push(items[i].clone());
                    i = i + 1;
                }
                assert(Type::Tuple(copies)@->Tuple_0 =~= self@->Tuple_0);
                Type::Tuple(copies)
            },
        }
    }
}

impl View for Type {
    type V = TypeView;

    open spec fn view(&self) -> TypeView {
        self.model()
    }
}

/// Reads the size of an array from the tokens between its brackets.
pub fn read_size(inner: &Vec<Token>) -> (r: Result<Option<String>, Message>)
    ensures
        match r {
            Ok(Some(n)) => size_of(inner@) == Ok::<_, Message>(Some(n@)),
            Ok(None) => size_of(inner@) == Ok::<Option<Seq<char>>, Message>(None),
            Err(m) => size_of(inner@) == Err::<Option<Seq<char>>, _>(m),
        },
{
    if inner.len() == 0 {
        Ok(None)
    } else if inner.len() == 1 && (is_kind(inner, 0, TokenKind::Literal) || is_kind(
        inner,
        0,
        TokenKind::Ident,
    )) {
        Ok(Some(inner[0].text.clone()))
    } else {
        Err(Message::ExpectedSize)
    }
}

/// Reads the size of an array from the text between its brackets.
pub fn parse_size(text: &str) -> (r: Result<Option<String>, Message>)
    ensures
        match r {
            Ok(Some(n)) => size_in(text@) == Ok::<_, Message>(Some(n@)),
            Ok(None) => size_in(text@) == Ok::<Option<Seq<char>>, Message>(None),
            Err(m) => size_in(text@) == Err::<Option<Seq<char>>, _>(m),
        },
{
    match tokenize(text) {
        None => Err(Message::Lex),
        Some(inner) => read_size(&inner),
    }
}

/// Makes `base` an array once for each bracketed group from `pos` on.
pub fn parse_dims(tokens: &Vec<Token>, pos: usize, base: Type) -> (r: Result<
    (Type, usize),
    Message,
>)
    ensures
        match r {
            Ok((ty, next)) => with_dims(tokens@, pos as int, base@) == Ok::<_, Message>(ty@)
                && next as int == dims_end(tokens@, pos as int) && pos <= next && (pos
                <= tokens@.len() ==> next <= tokens@.len()),
            Err(m) => with_dims(tokens@, pos as int, base@) == Err::<TypeView, _>(m),
        },
{
    let mut ty = base;
    let mut cur: usize = pos;
    while cur < tokens.len() && is_kind(tokens, cur, TokenKind::Bracket)
        invariant
            pos <= cur,
            pos <= tokens@.len() ==> cur <= tokens@.len(),
            with_dims(tokens@, pos as int, base@) == with_dims(tokens@, cur as int, ty@),
            dims_end(tokens@, pos as int) == dims_end(tokens@, cur as int),
        decreases tokens@.len() - cur,
    {
        match parse_size(tokens[cur].text.as_str()) {
            Err(m) => {
                return Err(m);
            },
            Ok(size) => {
                ty = Type::Array(Box::new(ty), size);
                cur = cur + 1;
            },
        }
    }
    Ok((ty, cur))
}

impl Type {
    /// Reads the type at `pos`, entering at most `depth` tuples within tuples.
    pub fn parse_within(tokens: &Vec<Token>, pos: usize, depth: usize) -> (r: Result<
        (Type, usize),
        Message,
    >)
        ensures
            match r {
                Ok((ty, next)) => TypeView::at(tokens@, pos as int, depth as nat) == Ok::<
                    _,
                    Message,
                >(ty@) && next as int == type_end(tokens@, pos as int) && pos < next
                    <= tokens@.len(),
                Err(m) => TypeView::at(tokens@, pos as int, depth as nat) == Err::<TypeView, _>(m),
            },
        decreases depth, 0int,
    {
        if is_ident(tokens, pos) {
            match SolPath::parse(tokens, pos) {
                Some((name, end)) => {
                    proof {
                        lemma_type_end_bounds(tokens@, pos as int);
                    }
                    parse_dims(tokens, end, Type::Named(name))
                },
                None => Err(Message::ExpectedType),
            }
        } else if pos < tokens.len() && is_kind(tokens, pos, TokenKind::Paren) {
            if depth == 0 {
                return Err(Message::TooDeep);
            }
            match tokenize(tokens[pos].text.as_str()) {
                None => Err(Message::Lex),
                Some(inner) => match Type::parse_list(&inner, depth - 1) {
                    Err(m) => Err(m),
                    Ok(items) => {
                        proof {
                            lemma_type_end_bounds(tokens@, pos as int);
                            assert(Type::Tuple(items)@ == TypeView::Tuple(models(items@))) by {
                                assert(Type::Tuple(items)@->Tuple_0 =~= models(items@));
                            }
                        }
                        parse_dims(tokens, pos + 1, Type::Tuple(items))
                    },
                },
            }
        } else {
            Err(Message::ExpectedType)
        }
    }

    /// Reads the comma-separated types that fill `inner`.
    pub fn parse_list(inner: &Vec<Token>, depth: usize) -> (r: Result<Vec<Type>, Message>)
        ensures
            match r {
                Ok(items) => TypeView::list(inner@, 0, depth as nat) == Ok::<_, Message>(
                    models(items@),
                ),
                Err(m) => TypeView::list(inner@, 0, depth as nat) == Err::<Seq<TypeView>, _>(m),
            },
        decreases depth, 1int,
    {
        let mut items: Vec<Type> = Vec::new();
        let mut pos: usize = 0;
        assert(models(items@) =~= Seq::empty());
        assert(Seq::<TypeView>::empty() + Seq::<TypeView>::empty() =~= Seq::empty());
        while pos < inner.len()
            invariant
                pos <= inner@.len(),
                TypeView::list(inner@, 0, depth as nat) == put_before(
                    models(items@),
                    TypeView::list(inner@, pos as int, depth as nat),
                ),
            decreases inner@.len() - pos,
        {
            let ghost before = models(items@);
            if !(is_ident(inner, pos) || is_kind(inner, pos, TokenKind::Paren)) {
                return Err(Message::ExpectedType);
            }
            match Type::parse_within(inner, pos, depth) {
                Err(m) => {
                    return Err(m);
                },
                Ok((ty, end)) => {
                    let ghost one = ty@;
                    items.push(ty);
                    proof {
                        assert(models(items@) =~= before + seq![one]);
                    }
                    if end >= inner.len() {
                        proof {
                            assert(TypeView::list(inner@, end as int, depth as nat) == Ok::<
                                _,
                                Message,
                            >(Seq::<TypeView>::empty()));
                            assert(before + seq![one] + Seq::<TypeView>::empty() =~= before
                                + seq![one]);
                        }
                        pos = end;
                    } else if !is_punct(inner, end, ",") {
                        return Err(Message::ExpectedSeparator);
                    } else {
                        proof {
                            let rest = TypeView::list(inner@, end + 1, depth as nat);
                            if let Ok(tail) = rest {
                                assert(before + (seq![one] + tail) =~= before + seq![one] + tail);
                            }
                        }
                        pos = end + 1;
                    }
                },
            }
        }
        proof {
            assert(models(items@) + Seq::<TypeView>::empty() =~= models(items@));
        }
        Ok(items)
    }

    /// Reads the type at `pos`. The error, if any, points at `pos`.
    pub fn parse(tokens: &Vec<Token>, pos: usize) -> (r: Result<(Type, usize), ParseError>)
        ensures
            match r {
                Ok((ty, next)) => TypeView::at(tokens@, pos as int, MAX_DEPTH as nat) == Ok::<
                    _,
                    Message,
                >(ty@) && next as int == type_end(tokens@, pos as int) && pos < next
                    <= tokens@.len(),
                Err(e) => TypeView::at(tokens@, pos as int, MAX_DEPTH as nat) is Err && e
                    == ParseError::single(
                    span_at(tokens@, pos as int),
                    TypeView::at(tokens@, pos as int, MAX_DEPTH as nat)->Err_0,
                ),
            },
    {
        match Type::parse_within(tokens, pos, MAX_DEPTH) {
            Ok(found) => Ok(found),
            Err(m) => Err(ParseError::new(error_span(tokens, pos), m)),
        }
    }

    /// The canonical text of the type.
    pub fn to_string(&self) -> (r: String)
        ensures
            r@ == self@.text(),
        decreases self,
    {
        match self {
            Type::Named(name) => name.to_string(),
            Type::Array(inner, size) => {
                let mut out = inner.to_string();
                out.append("[");
                if let Some(n) = size {
                    out.append(n.as_str());
                }
                out.append("]");
                proof {
                    if size is None {
                        assert(inner@.text() + "["@ + Seq::<char>::empty() =~= inner@.text() + "["@);
                    }
                }
                out
            },
            Type::Tuple(items) => {
                let mut parts: Vec<String> = Vec::new();
                let mut i: usize = 0;
                while i < items.len()
                    invariant
                        i <= items@.len(),
                        parts@.len() == i,
                        *self == Type::Tuple(*items),
                        decreases_to!(*self => *items),
                        forall|j: int| 0 <= j < i ==> parts@[j]@ == items@[j]@.text(),
                    decreases items@.len() - i,
                {
                    proof {
                        vstd::std_specs::vec::axiom_vec_index_decreases(*items, i as int);
                    }
                    parts.push(items[i].to_string());
                    i = i + 1;
                }
                proof {
                    assert(texts(parts@) =~= TypeView::texts(self@->Tuple_0));
                }
                let mut out = String::from_str("(");
                out.append(join(&parts, ",").as_str());
                out.append(")");
                out
            },
        }
    }
}

/// Where a variable of a reference type lives. Each variant holds the place
/// of its keyword.
#[derive(Clone, Copy, Debug, PartialEq, Eq, Structural)]
pub enum Storage {
    /// `memory`
    Memory(Span),
    /// `storage`
    Storage(Span),
    /// `calldata`
    Calldata(Span),
}

impl Storage {
    /// The keyword that stands for this location.
    pub open spec fn keyword(self) -> Seq<char> {
        match self {
            Storage::Memory(_) => "memory"@,
            Storage::Storage(_) => "storage"@,
            Storage::Calldata(_) => "calldata"@,
        }
    }

    /// The location whose keyword stands at `pos`, if one does.
    pub open spec fn at(tokens: Seq<Token>, pos: int) -> Option<Storage> {
        if word_at(tokens, pos, "memory"@) {
            Some(Storage::Memory(span_at(tokens, pos)))
        } else if word_at(tokens, pos, "storage"@) {
            Some(Storage::Storage(span_at(tokens, pos)))
        } else if word_at(tokens, pos, "calldata"@) {
            Some(Storage::Calldata(span_at(tokens, pos)))
        } else {
            None
        }
    }

    /// Reads a location keyword at `pos`; it takes up one token.
    pub fn parse(tokens: &Vec<Token>, pos: usize) -> (r: Option<Storage>)
        ensures
            r == Storage::at(tokens@, pos as int),
    {
        if is_word(tokens, pos, "memory") {
            Some(Storage::Memory(error_span(tokens, pos)))
        } else if is_word(tokens, pos, "storage") {
            Some(Storage::Storage(error_span(tokens, pos)))
        } else if is_word(tokens, pos, "calldata") {
            Some(Storage::Calldata(error_span(tokens, pos)))
        } else {
            None
        }
    }

    /// The keyword as text.
    pub fn to_string(&self) -> (r: String)
        ensures
            r@ == self.keyword(),
    {
        match self {
            Storage::Memory(_) => String::from_str("memory"),
            Storage::Storage(_) => String::from_str("storage"),
            Storage::Calldata(_) => String::from_str("calldata"),
        }
    }
}

/// The declaration of a variable: a type, where it lives, and its name. The
/// last two may be left out where the grammar allows.
#[derive(Debug, PartialEq, Eq)]
pub struct VariableDeclaration {
    pub ty: Type,
    pub storage: Option<Storage>,
    pub name: Option<String>,
}

/// What a [`VariableDeclaration`] holds, as mathematical values.
pub struct DeclarationView {
    pub ty: TypeView,
    pub storage: Option<Storage>,
    pub name: Option<Seq<char>>,
}

impl Clone for VariableDeclaration {
    /// A declaration that holds the same.
    fn clone(&self) -> (r: VariableDeclaration)
        ensures
            r@ == self@,
    {
        let name = match &self.name {
            Some(n) => Some(n.clone()),
            None => None,
        };
        VariableDeclaration { ty: self.ty.clone(), storage: self.storage, name }
    }
}

impl View for VariableDeclaration {
    type V = DeclarationView;

    open spec fn view(&self) -> DeclarationView {
        DeclarationView {
            ty: self.ty@,
            storage: self.storage,
            name: match self.name {
                Some(n) => Some(n@),
                None => None,
            },
        }
    }
}

impl DeclarationView {
    /// The position behind the type and the location keyword of the
    /// declaration that starts at `pos`: where its name stands, if it has one.
    pub open spec fn name_pos(tokens: Seq<Token>, pos: int) -> int {
        if Storage::at(tokens, type_end(tokens, pos)) is Some {
            type_end(tokens, pos) + 1
        } else {
            type_end(tokens, pos)
        }
    }

    /// The declaration that starts at `pos`, with the position behind it: a
    /// type, then a location keyword if one stands there, then a name. With
    /// `named` the name must be there; without, it is read if an identifier
    /// stands there. A failure to read the type is reported at `pos`.
    pub open spec fn at(tokens: Seq<Token>, pos: int, named: bool) -> Result<
        (DeclarationView, int),
        ParseError,
    > {
        match TypeView::at(tokens, pos, MAX_DEPTH as nat) {
            Err(m) => Err(ParseError::single(span_at(tokens, pos), m)),
            Ok(ty) => {
                let storage = Storage::at(tokens, type_end(tokens, pos));
                let here = DeclarationView::name_pos(tokens, pos);
                if ident_at(tokens, here) {
                    Ok((DeclarationView { ty, storage, name: Some(tokens[here].text@) }, here + 1))
                } else if named {
                    Err(ParseError::single(span_at(tokens, here), Message::ExpectedIdent))
                } else {
                    Ok((DeclarationView { ty, storage, name: None }, here))
                }
            },
        }
    }
}

/// A declaration that was read takes up at least one token.
pub proof fn lemma_declaration_advances(tokens: Seq<Token>, pos: int, named: bool)
    ensures
        DeclarationView::at(tokens, pos, named) matches Ok((_, next)) ==> pos < next
            <= tokens.len(),
{
    if ident_at(tokens, pos) || kind_at(tokens, pos, TokenKind::Paren) {
        lemma_type_end_bounds(tokens, pos);
    }
}

impl VariableDeclaration {
    /// Reads a declaration at `pos`; its name is required where `named` is set.
    pub fn parse_with(tokens: &Vec<Token>, pos: usize, named: bool) -> (r: Result<
        (VariableDeclaration, usize),
        ParseError,
    >)
        ensures
            match r {
                Ok((d, next)) => DeclarationView::at(tokens@, pos as int, named) == Ok::<
                    _,
                    ParseError,
                >((d@, next as int)) && pos < next <= tokens@.len(),
                Err(e) => DeclarationView::at(tokens@, pos as int, named) == Err::<
                    (DeclarationView, int),
                    _,
                >(e),
            },
    {
        match Type::parse(tokens, pos) {
            Err(e) => Err(e),
            Ok((ty, end)) => {
                let storage = Storage::parse(tokens, end);
                let here = if storage.is_some() {
                    assert(end < tokens.len());
                    end + 1
                } else {
                    end
                };
                if is_ident(tokens, here) {
                    assert(here < tokens.len());
                    let name = Some(tokens[here].text.clone());
                    Ok((VariableDeclaration { ty, storage, name }, here + 1))
                } else if named {
                    Err(ParseError::new(error_span(tokens, here), Message::ExpectedIdent))
                } else {
                    Ok((VariableDeclaration { ty, storage, name: None }, here))
                }
            },
        }
    }

    /// Reads a declaration at `pos`; the name may be left out.
    pub fn parse(tokens: &Vec<Token>, pos: usize) -> (r: Result<
        (VariableDeclaration, usize),
        ParseError,
    >)
        ensures
            match r {
                Ok((d, next)) => DeclarationView::at(tokens@, pos as int, false) == Ok::<
                    _,
                    ParseError,
                >((d@, next as int)) && pos < next <= tokens@.len(),
                Err(e) => DeclarationView::at(tokens@, pos as int, false) == Err::<
                    (DeclarationView, int),
                    _,
                >(e),
            },
    {
        VariableDeclaration::parse_with(tokens, pos, false)
    }

    /// Reads the declaration of a struct field at `pos`: the name is required.
    pub fn parse_for_struct(tokens: &Vec<Token>, pos: usize) -> (r: Result<
        (VariableDeclaration, usize),
        ParseError,
    >)
        ensures
            match r {
                Ok((d, next)) => DeclarationView::at(tokens@, pos as int, true) == Ok::<
                    _,
                    ParseError,
                >((d@, next as int)) && pos < next <= tokens@.len(),
                Err(e) => DeclarationView::at(tokens@, pos as int, true) == Err::<
                    (DeclarationView, int),
                    _,
                >(e),
            },
    {
        VariableDeclaration::parse_with(tokens, pos, true)
    }
}

} // verus!
