//! Lists of variable declarations: the parameters of a function, separated by
//! commas, and the fields of a struct, each closed by a semicolon.

use crate::error::{Message, ParseError};
use crate::text::{join, joined, texts};
use crate::token::{error_span, is_punct, lexed, punct_at, span_at, tokenize, Span, Token};
use crate::variable::{
    lemma_declaration_advances, DeclarationView, Type, VariableDeclaration,
};
use syn::punctuated::Punctuated;
use vstd::prelude::*;
use vstd::string::StringExecFns;

verus! {

/// The punctuation that separates the entries of a list.
#[derive(Clone, Copy, Debug, PartialEq, Eq, Structural)]
pub enum Separator {
    /// `,` between parameters: the list may be empty, and a comma behind the
    /// last entry is optional.
    Comma,
    /// `;` behind each field: the list has an entry, every entry has a name,
    /// and the last entry has its semicolon too.
    Semicolon,
}

impl Separator {
    /// The separator as text.
    pub open spec fn mark(self) -> Seq<char> {
        match self {
            Separator::Comma => ","@,
            Separator::Semicolon => ";"@,
        }
    }

    /// Whether the list is one of fields, with the stricter rules.
    pub open spec fn strict(self) -> bool {
        self == Separator::Semicolon
    }

    pub fn as_str(self) -> (r: &'static str)
        ensures
            r@ == self.mark(),
    {
        match self {
            Separator::Comma => ",",
            Separator::Semicolon => ";",
        }
    }

    pub fn is_strict(self) -> (r: bool)
        ensures
            r == self.strict(),
    {
        matches!(self, Separator::Semicolon)
    }
}

/// What each declaration of a list holds.
pub open spec fn declaration_views(decls: Seq<VariableDeclaration>) -> Seq<DeclarationView> {
    Seq::new(decls.len(), |i: int| decls[i]@)
}

/// The canonical text of the type of each declaration.
pub open spec fn type_texts(decls: Seq<DeclarationView>) -> Seq<Seq<char>> {
    Seq::new(decls.len(), |i: int| decls[i].ty.text())
}

/// The canonical signature of `name` with the given parameters: the name,
/// `(`, the canonical texts of the types with one comma between neighbours,
/// and `)`. Names of parameters and spaces do not occur in it.
pub open spec fn signature(name: Seq<char>, decls: Seq<DeclarationView>) -> Seq<char> {
    name + "("@ + joined(type_texts(decls), ","@) + ")"@
}

/// The contents of a name that may be missing.
pub open spec fn name_of(name: Option<&String>) -> Option<Seq<char>> {
    match name {
        Some(n) => Some(n@),
        None => None,
    }
}

/// `first` put in front of the entries that were read, where they were read.
pub open spec fn put_before(
    first: Seq<DeclarationView>,
    rest: Result<(Seq<DeclarationView>, bool), ParseError>,
) -> Result<(Seq<DeclarationView>, bool), ParseError> {
    match rest {
        Ok((decls, closed)) => Ok((first + decls, closed)),
        Err(e) => Err(e),
    }
}

/// The declarations that fill `tokens` from `pos` to the end, with whether
/// the input ends behind a separator (or holds nothing from `pos` on). Two
/// declarations in a row need the separator between them.
pub open spec fn declarations_from(tokens: Seq<Token>, pos: int, separator: Separator) -> Result<
    (Seq<DeclarationView>, bool),
    ParseError,
>
    decreases tokens.len() - pos,
    via declarations_from_decreases
{
    if pos >= tokens.len() {
        Ok((Seq::empty(), true))
    } else {
        match DeclarationView::at(tokens, pos, separator.strict()) {
            Err(e) => Err(e),
            Ok((d, next)) => if next >= tokens.len() {
                Ok((seq![d], false))
            } else if !punct_at(tokens, next, separator.mark()) {
                Err(ParseError::single(span_at(tokens, next), Message::ExpectedSeparator))
            } else {
                put_before(seq![d], declarations_from(tokens, next + 1, separator))
            },
        }
    }
}

#[via_fn]
proof fn declarations_from_decreases(tokens: Seq<Token>, pos: int, separator: Separator) {
    lemma_declaration_advances(tokens, pos, separator.strict());
}

/// The list that `tokens` hold as a whole, with whether a separator closes
/// it. A list of fields without an entry is refused, and so is one whose last
/// field lacks its semicolon; both errors point behind the last token.
pub open spec fn list_in(tokens: Seq<Token>, separator: Separator) -> Result<
    (Seq<DeclarationView>, bool),
    ParseError,
> {
    match declarations_from(tokens, 0, separator) {
        Err(e) => Err(e),
        Ok((decls, closed)) => if separator.strict() && decls.len() == 0 {
            Err(ParseError::single(span_at(tokens, tokens.len() as int), Message::EmptyStruct))
        } else if separator.strict() && !closed {
            Err(
                ParseError::single(span_at(tokens, tokens.len() as int), Message::MissingSemicolon),
            )
        } else {
            Ok((decls, closed && decls.len() > 0))
        },
    }
}

/// Every field that was read has a name.
pub proof fn lemma_fields_have_names(tokens: Seq<Token>, pos: int)
    requires
        declarations_from(tokens, pos, Separator::Semicolon) is Ok,
    ensures
        forall|i: int|
            0 <= i < declarations_from(tokens, pos, Separator::Semicolon)->Ok_0.0.len() ==> (
            #[trigger] declarations_from(tokens, pos, Separator::Semicolon)->Ok_0.0[i]).name
                is Some,
    decreases tokens.len() - pos,
{
    if pos < tokens.len() {
        lemma_declaration_advances(tokens, pos, true);
        let (d, next) = DeclarationView::at(tokens, pos, true)->Ok_0;
        if next < tokens.len() {
            lemma_fields_have_names(tokens, next + 1);
        }
    }
}

/// A list of fields that was read has an entry, its last entry has its
/// semicolon, and every entry has a name.
pub proof fn lemma_fields_are_closed(tokens: Seq<Token>)
    requires
        list_in(tokens, Separator::Semicolon) is Ok,
    ensures
        list_in(tokens, Separator::Semicolon)->Ok_0.0.len() >= 1,
        list_in(tokens, Separator::Semicolon)->Ok_0.1,
        forall|i: int|
            0 <= i < list_in(tokens, Separator::Semicolon)->Ok_0.0.len() ==> (#[trigger] list_in(
                tokens,
                Separator::Semicolon,
            )->Ok_0.0[i]).name is Some,
{
    lemma_fields_have_names(tokens, 0);
}

/// The list that `text` holds: the text is tokenized and read as a whole.
pub open spec fn list_in_text(text: Seq<char>, separator: Separator) -> Result<
    (Seq<DeclarationView>, bool),
    ParseError,
> {
    match lexed(text) {
        None => Err(ParseError::single(Span { lo: 0, hi: 0 }, Message::Lex)),
        Some(tokens) => list_in(tokens, separator),
    }
}

/// `syn`'s sequence of values with punctuation between them, here of
/// declarations with their separators. Nothing of its inside is visible to
/// the proofs: they speak of [`entries`] and [`closed`].
#[verifier::external_type_specification]
#[verifier::external_body]
#[verifier::reject_recursive_types(T)]
#[verifier::reject_recursive_types(P)]
pub struct ExPunctuated<T, P>(Punctuated<T, P>);

/// The values of a punctuated sequence, in order.
pub uninterp spec fn entries(list: Punctuated<VariableDeclaration, Separator>) -> Seq<
    VariableDeclaration,
>;

/// Whether punctuation stands behind the last value of a punctuated sequence.
pub uninterp spec fn closed(list: Punctuated<VariableDeclaration, Separator>) -> bool;

/// `Punctuated::new`: a sequence without values and without punctuation.
#[verifier::external_body]
fn punctuated_new() -> (r: Punctuated<VariableDeclaration, Separator>)
    ensures
        entries(r) == Seq::<VariableDeclaration>::empty(),
        !closed(r),
{
    Punctuated::new()
}

/// `Punctuated::push_value`: appends a value, behind which no punctuation
/// stands then. It panics on a sequence whose last value lacks its
/// punctuation, which the precondition leaves out.
#[verifier::external_body]
fn punctuated_push_value(
    list: &mut Punctuated<VariableDeclaration, Separator>,
    value: VariableDeclaration,
)
    requires
        entries(*old(list)).len() == 0 || closed(*old(list)),
    ensures
        entries(*final(list)) == entries(*old(list)).push(value),
        !closed(*final(list)),
{
    list.push_value(value)
}

/// `Punctuated::push_punct`: puts punctuation behind the last value and
/// leaves the values as they are. It panics on an empty sequence and on one
/// whose last value has its punctuation, which the precondition leaves out.
#[verifier::external_body]
fn punctuated_push_punct(list: &mut Punctuated<VariableDeclaration, Separator>, mark: Separator)
    requires
        entries(*old(list)).len() > 0,
        !closed(*old(list)),
    ensures
        entries(*final(list)) == entries(*old(list)),
        closed(*final(list)),
{
    list.push_punct(mark)
}

/// `Punctuated::len`: the number of values, punctuation not counted.
#[verifier::external_body]
fn punctuated_len(list: &Punctuated<VariableDeclaration, Separator>) -> (r: usize)
    ensures
        r == entries(*list).len(),
{
    list.len()
}

/// `Punctuated::trailing_punct`: whether the sequence ends with punctuation.
#[verifier::external_body]
fn punctuated_trailing(list: &Punctuated<VariableDeclaration, Separator>) -> (r: bool)
    ensures
        r == closed(*list),
{
    list.trailing_punct()
}

/// `Punctuated::get`: the value at `index`, or `None` behind the last value.
#[verifier::external_body]
fn punctuated_get(list: &Punctuated<VariableDeclaration, Separator>, index: usize) -> (r: Option<
    &VariableDeclaration,
>)
    ensures
        match r {
            Some(value) => index < entries(*list).len() && *value == entries(*list)[index as int],
            None => index >= entries(*list).len(),
        },
{
    list.get(index)
}

/// `Punctuated::index_mut`, with `std::mem::replace` on the place that it
/// gives: puts `value` where the value at `index` stood and hands that one
/// out; the punctuation stays. Indexing panics behind the last value, which
/// the precondition leaves out.
#[verifier::external_body]
fn punctuated_replace(
    list: &mut Punctuated<VariableDeclaration, Separator>,
    index: usize,
    value: VariableDeclaration,
) -> (r: VariableDeclaration)
    requires
        index < entries(*old(list)).len(),
    ensures
        r == entries(*old(list))[index as int],
        entries(*final(list)) == entries(*old(list)).update(index as int, value),
        closed(*final(list)) == closed(*old(list)),
{
    std::mem::replace(&mut list[index], value)
}

/// A list of variable declarations with its separator.
#[derive(Debug, PartialEq, Eq)]
pub struct Parameters {
    list: Punctuated<VariableDeclaration, Separator>,
    separator: Separator,
}

impl View for Parameters {
    type V = Seq<DeclarationView>;

    /// The declarations in the order in which they stand.
    closed spec fn view(&self) -> Seq<DeclarationView> {
        declaration_views(entries(self.list))
    }
}

/// A sequence that holds what `from` holds, with `separator` between
/// neighbours and behind the last value where `from` ends with punctuation.
fn copy_of(from: &Punctuated<VariableDeclaration, Separator>, separator: Separator) -> (r:
    Punctuated<VariableDeclaration, Separator>)
    requires
        closed(*from) ==> entries(*from).len() >= 1,
    ensures
        declaration_views(entries(r)) == declaration_views(entries(*from)),
        entries(r).len() == entries(*from).len(),
        closed(r) == closed(*from),
{
    let mut list = punctuated_new();
    let n = punctuated_len(from);
    let mut i: usize = 0;
    while i < n
        invariant
            i <= n,
            n == entries(*from).len(),
            entries(list).len() == i,
            !closed(list),
            forall|j: int| 0 <= j < i ==> entries(list)[j]@ == entries(*from)[j]@,
        decreases n - i,
    {
        if i > 0 {
            punctuated_push_punct(&mut list, separator);
        }
        let value = punctuated_get(from, i).unwrap().clone();
        punctuated_push_value(&mut list, value);
        i = i + 1;
    }
    if punctuated_trailing(from) {
        punctuated_push_punct(&mut list, separator);
    }
    assert(declaration_views(entries(list)) =~= declaration_views(entries(*from)));
    list
}

impl Clone for Parameters {
    /// A list that holds the same declarations in the same order, with the
    /// same separator.
    fn clone(&self) -> (r: Parameters)
        ensures
            r@ == self@,
            r.spec_separator() == self.spec_separator(),
            r.spec_trailing() == self.spec_trailing(),
    {
        proof {
            use_type_invariant(self);
        }
        Parameters { list: copy_of(&self.list, self.separator), separator: self.separator }
    }
}

impl Default for Parameters {
    /// The empty list of parameters.
    fn default() -> (r: Parameters)
        ensures
            r@ == Seq::<DeclarationView>::empty(),
            r.spec_separator() == Separator::Comma,
            !r.spec_trailing(),
    {
        Parameters::new()
    }
}

impl Parameters {
    #[verifier::type_invariant]
    spec fn well_formed(&self) -> bool {
        &&& closed(self.list) ==> entries(self.list).len() >= 1
        &&& self.separator.strict() ==> entries(self.list).len() >= 1 && closed(self.list)
    }

    /// The punctuation that separates the entries.
    pub closed spec fn spec_separator(&self) -> Separator {
        self.separator
    }

    /// Whether a separator stands behind the last entry.
    pub closed spec fn spec_trailing(&self) -> bool {
        closed(self.list)
    }

    /// The empty list of parameters.
    pub fn new() -> (r: Parameters)
        ensures
            r@ == Seq::<DeclarationView>::empty(),
            r.spec_separator() == Separator::Comma,
            !r.spec_trailing(),
    {
        let list = punctuated_new();
        assert(declaration_views(entries(list)) =~= Seq::empty());
        Parameters { list, separator: Separator::Comma }
    }

    /// The list of parameters that holds `decls` in this order.
    pub fn from_declarations(decls: Vec<VariableDeclaration>) -> (r: Parameters)
        ensures
            r@ == declaration_views(decls@),
            r.spec_separator() == Separator::Comma,
            !r.spec_trailing(),
    {
        let mut list = punctuated_new();
        let mut i: usize = 0;
        while i < decls.len()
            invariant
                i <= decls@.len(),
                entries(list).len() == i,
                !closed(list),
                forall|j: int| 0 <= j < i ==> entries(list)[j]@ == decls@[j]@,
            decreases decls@.len() - i,
        {
            if i > 0 {
                punctuated_push_punct(&mut list, Separator::Comma);
            }
            punctuated_push_value(&mut list, decls[i].clone());
            i = i + 1;
        }
        assert(declaration_views(entries(list)) =~= declaration_views(decls@));
        Parameters { list, separator: Separator::Comma }
    }

    /// The declarations of the list, in order.
    pub fn into_declarations(self) -> (r: Vec<VariableDeclaration>)
        ensures
            declaration_views(r@) == self@,
    {
        let mut out: Vec<VariableDeclaration> = Vec::new();
        let n = punctuated_len(&self.list);
        let mut i: usize = 0;
        while i < n
            invariant
                i <= n,
                n == entries(self.list).len(),
                out@.len() == i,
                forall|j: int| 0 <= j < i ==> out@[j]@ == entries(self.list)[j]@,
            decreases n - i,
        {
            out.push(punctuated_get(&self.list, i).unwrap().clone());
            i = i + 1;
        }
        assert(declaration_views(out@) =~= declaration_views(entries(self.list)));
        out
    }

    /// Reads `tokens` as a list with the given separator.
    pub fn parse(tokens: &Vec<Token>, separator: Separator) -> (r: Result<Parameters, ParseError>)
        ensures
            match r {
                Ok(list) => list_in(tokens@, separator) == Ok::<_, ParseError>(
                    (list@, list.spec_trailing()),
                ) && list.spec_separator() == separator,
                Err(e) => list_in(tokens@, separator) == Err::<(Seq<DeclarationView>, bool), _>(e),
            },
    {
        let mut list = punctuated_new();
        let mut pos: usize = 0;
        let mut open = false;
        let ghost total = declarations_from(tokens@, 0, separator);
        assert(declaration_views(entries(list)) =~= Seq::empty());
        assert(Seq::<DeclarationView>::empty() + Seq::<DeclarationView>::empty() =~= Seq::empty());
        while !open && pos < tokens.len()
            invariant
                pos <= tokens@.len(),
                open ==> !closed(list) && entries(list).len() >= 1,
                !open ==> entries(list).len() == 0 || closed(list),
                closed(list) ==> entries(list).len() >= 1,
                total == declarations_from(tokens@, 0, separator),
                total == put_before(
                    declaration_views(entries(list)),
                    if open {
                        Ok((Seq::empty(), false))
                    } else {
                        declarations_from(tokens@, pos as int, separator)
                    },
                ),
            decreases tokens@.len() - pos + (if open { 0int } else { 1int }),
        {
            let ghost before = declaration_views(entries(list));
            match VariableDeclaration::parse_with(tokens, pos, separator.is_strict()) {
                Err(e) => {
                    return Err(e);
                },
                Ok((d, next)) => {
                    let ghost one = d@;
                    punctuated_push_value(&mut list, d);
                    proof {
                        assert(declaration_views(entries(list)) =~= before + seq![one]);
                        assert(before + seq![one] + Seq::<DeclarationView>::empty() =~= before
                            + seq![one]);
                    }
                    if next >= tokens.len() {
                        open = true;
                    } else if !is_punct(tokens, next, separator.as_str()) {
                        return Err(
                            ParseError::new(error_span(tokens, next), Message::ExpectedSeparator),
                        );
                    } else {
                        proof {
                            let rest = declarations_from(tokens@, next + 1, separator);
                            if let Ok((tail, closed)) = rest {
                                assert(before + (seq![one] + tail) =~= before + seq![one] + tail);
                            }
                        }
                        punctuated_push_punct(&mut list, separator);
                        pos = next + 1;
                    }
                },
            }
        }
        proof {
            assert(declaration_views(entries(list)) + Seq::<DeclarationView>::empty()
                =~= declaration_views(entries(list)));
        }
        if separator.is_strict() && punctuated_len(&list) == 0 {
            Err(ParseError::new(error_span(tokens, tokens.len()), Message::EmptyStruct))
        } else if separator.is_strict() && open {
            Err(ParseError::new(error_span(tokens, tokens.len()), Message::MissingSemicolon))
        } else {
            Ok(Parameters { list, separator })
        }
    }

    /// Reads `text` as a list with the given separator.
    pub fn parse_str(text: &str, separator: Separator) -> (r: Result<Parameters, ParseError>)
        ensures
            match r {
                Ok(list) => list_in_text(text@, separator) == Ok::<_, ParseError>(
                    (list@, list.spec_trailing()),
                ) && list.spec_separator() == separator,
                Err(e) => list_in_text(text@, separator) == Err::<
                    (Seq<DeclarationView>, bool),
                    _,
                >(e),
            },
    {
        match tokenize(text) {
            None => Err(ParseError::new(Span { lo: 0, hi: 0 }, Message::Lex)),
            Some(tokens) => Parameters::parse(&tokens, separator),
        }
    }

    pub fn len(&self) -> (r: usize)
        ensures
            r == self@.len(),
            self.spec_separator().strict() ==> r >= 1,
    {
        proof {
            use_type_invariant(self);
        }
        punctuated_len(&self.list)
    }

    pub fn is_empty(&self) -> (r: bool)
        ensures
            r == (self@.len() == 0),
            self.spec_separator().strict() ==> !r,
    {
        proof {
            use_type_invariant(self);
        }
        punctuated_len(&self.list) == 0
    }

    pub fn separator(&self) -> (r: Separator)
        ensures
            r == self.spec_separator(),
    {
        self.separator
    }

    /// Whether a separator stands behind the last entry; always so in a list
    /// of fields.
    pub fn trailing_punct(&self) -> (r: bool)
        ensures
            r == self.spec_trailing(),
            self.spec_separator().strict() ==> r,
            r ==> self@.len() >= 1,
    {
        proof {
            use_type_invariant(self);
        }
        punctuated_trailing(&self.list)
    }

    /// The entry at `index`.
    pub fn get(&self, index: usize) -> (r: Option<&VariableDeclaration>)
        ensures
            match r {
                Some(d) => index < self@.len() && d@ == self@[index as int],
                None => index >= self@.len(),
            },
    {
        punctuated_get(&self.list, index)
    }

    /// The canonical signature of `name` with these parameters.
    pub fn eip712_signature(&self, name: String) -> (r: String)
        ensures
            r@ == signature(name@, self@),
    {
        let parts = self.type_strings();
        assert(texts(parts@) =~= type_texts(self@));
        let mut out = name;
        out.append("(");
        out.append(join(&parts, ",").as_str());
        out.append(")");
        out
    }

    /// The canonical text of the type of each entry, in order.
    pub fn type_strings(&self) -> (r: Vec<String>)
        ensures
            r@.len() == self@.len(),
            forall|i: int| 0 <= i < r@.len() ==> (#[trigger] r@[i])@ == self@[i].ty.text(),
    {
        let mut out: Vec<String> = Vec::new();
        let n = punctuated_len(&self.list);
        let mut i: usize = 0;
        while i < n
            invariant
                i <= n,
                n == entries(self.list).len(),
                out@.len() == i,
                forall|j: int|
                    0 <= j < i ==> (#[trigger] out@[j])@ == entries(self.list)[j]@.ty.text(),
            decreases n - i,
        {
            out.push(punctuated_get(&self.list, i).unwrap().ty.to_string());
            i = i + 1;
        }
        out
    }

    /// The name of each entry, in order; `None` for an entry without a name.
    pub fn names(&self) -> (r: Vec<Option<&String>>)
        ensures
            r@.len() == self@.len(),
            forall|i: int| 0 <= i < r@.len() ==> name_of(#[trigger] r@[i]) == self@[i].name,
    {
        let mut out: Vec<Option<&String>> = Vec::new();
        let n = punctuated_len(&self.list);
        let mut i: usize = 0;
        while i < n
            invariant
                i <= n,
                n == entries(self.list).len(),
                out@.len() == i,
                forall|j: int|
                    0 <= j < i ==> name_of(#[trigger] out@[j]) == entries(self.list)[j]@.name,
            decreases n - i,
        {
            let name = match &punctuated_get(&self.list, i).unwrap().name {
                Some(n) => Some(n),
                None => None,
            };
            out.push(name);
            i = i + 1;
        }
        out
    }

    /// The type of each entry, in order.
    pub fn types(&self) -> (r: Vec<&Type>)
        ensures
            r@.len() == self@.len(),
            forall|i: int| 0 <= i < r@.len() ==> (#[trigger] r@[i])@ == self@[i].ty,
    {
        let mut out: Vec<&Type> = Vec::new();
        let n = punctuated_len(&self.list);
        let mut i: usize = 0;
        while i < n
            invariant
                i <= n,
                n == entries(self.list).len(),
                out@.len() == i,
                forall|j: int| 0 <= j < i ==> (#[trigger] out@[j])@ == entries(self.list)[j]@.ty,
            decreases n - i,
        {
            out.push(&punctuated_get(&self.list, i).unwrap().ty);
            i = i + 1;
        }
        out
    }

    /// The type and the name of each entry, in order.
    pub fn types_and_names(&self) -> (r: Vec<(&Type, Option<&String>)>)
        ensures
            r@.len() == self@.len(),
            forall|i: int|
                0 <= i < r@.len() ==> (#[trigger] r@[i]).0@ == self@[i].ty && name_of(r@[i].1)
                    == self@[i].name,
    {
        let mut out: Vec<(&Type, Option<&String>)> = Vec::new();
        let n = punctuated_len(&self.list);
        let mut i: usize = 0;
        while i < n
            invariant
                i <= n,
                n == entries(self.list).len(),
                out@.len() == i,
                forall|j: int|
                    0 <= j < i ==> (#[trigger] out@[j]).0@ == entries(self.list)[j]@.ty && name_of(
                        out@[j].1,
                    ) == entries(self.list)[j]@.name,
            decreases n - i,
        {
            let entry = punctuated_get(&self.list, i).unwrap();
            let name = match &entry.name {
                Some(n) => Some(n),
                None => None,
            };
            out.push((&entry.ty, name));
            i = i + 1;
        }
        out
    }

    /// Puts `ty` in the place of the type of the entry at `index` and hands
    /// out the type that stood there. The entry keeps its place, its location
    /// and its name, and every other entry stays as it is. Where the list has
    /// no entry at `index`, nothing changes and `ty` comes back as the error.
    pub fn types_mut(&mut self, index: usize, ty: Type) -> (r: Result<Type, Type>)
        ensures
            final(self).spec_separator() == old(self).spec_separator(),
            final(self).spec_trailing() == old(self).spec_trailing(),
            match r {
                Ok(previous) => index < old(self)@.len() && previous@ == old(self)@[index as int].ty
                    && final(self)@ == old(self)@.update(
                    index as int,
                    DeclarationView { ty: ty@, ..old(self)@[index as int] },
                ),
                Err(back) => index >= old(self)@.len() && back == ty && final(self)@ == old(self)@,
            },
    {
        proof {
            use_type_invariant(&*self);
        }
        let (storage, name) = match punctuated_get(&self.list, index) {
            None => {
                return Err(ty);
            },
            Some(entry) => (
                entry.storage,
                match &entry.name {
                    Some(n) => Some(n.clone()),
                    None => None,
                },
            ),
        };
        let ghost wanted = ty@;
        let ghost before = entries(self.list);
        let replacement = VariableDeclaration { ty, storage, name };
        let mut whole = Parameters::new();
        std::mem::swap(self, &mut whole);
        let separator = whole.separator;
        let mut list = whole.list;
        let previous = punctuated_replace(&mut list, index, replacement);
        proof {
            assert(declaration_views(entries(list)) =~= declaration_views(before).update(
                index as int,
                DeclarationView { ty: wanted, ..before[index as int]@ },
            ));
        }
        *self = Parameters { list, separator };
        Ok(previous.ty)
    }
}

} // verus!
