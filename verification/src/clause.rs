//! The attributes that carry more than a keyword: `override` clauses and
//! modifier invocations.

use crate::error::{Message, ParseError};
use crate::path::{lemma_path_bounds, path_end, path_segments, path_text, SolPath};
use crate::text::{join, joined, texts};
use crate::token::{
    error_span, ident_at, is_kind, is_punct, is_word, kind_at, lexed, punct_at, span_at, tokenize,
    word_at, Span, Token, TokenKind,
};
use vstd::prelude::*;
use vstd::string::StringExecFns;

verus! {

/// `override`, optionally with the list of contracts whose function is overridden.
#[derive(Debug, PartialEq, Eq)]
pub struct Override {
    /// The place of the keyword.
    pub span: Span,
    /// The targets between the parentheses; `None` where no parentheses follow.
    pub paths: Option<Vec<SolPath>>,
}

/// What an [`Override`] holds, as mathematical values.
pub struct OverrideView {
    pub span: Span,
    pub paths: Option<Seq<Seq<Seq<char>>>>,
}

/// A modifier invocation: a name and, optionally, arguments in parentheses.
#[derive(Debug, PartialEq, Eq)]
pub struct Modifier {
    /// The place of the first token of the name.
    pub span: Span,
    pub name: SolPath,
    /// The text between the parentheses; `None` where no parentheses follow.
    pub arguments: Option<String>,
}

/// What a [`Modifier`] holds, as mathematical values.
pub struct ModifierView {
    pub span: Span,
    pub name: Seq<Seq<char>>,
    pub arguments: Option<Seq<char>>,
}

/// The segments of each path of a list.
pub open spec fn paths_view(paths: Seq<SolPath>) -> Seq<Seq<Seq<char>>> {
    Seq::new(paths.len(), |i: int| paths[i]@)
}

/// `first` put in front of a list that was read, where it was read.
pub open spec fn prepend(
    first: Seq<Seq<Seq<char>>>,
    rest: Result<Seq<Seq<Seq<char>>>, Message>,
) -> Result<Seq<Seq<Seq<char>>>, Message> {
    match rest {
        Ok(paths) => Ok(first + paths),
        Err(m) => Err(m),
    }
}

/// The comma-separated paths that fill `inner` from `pos` to its end. A comma
/// behind the last path is allowed; anything else that is not a path or a
/// comma between two paths is refused.
pub open spec fn path_list(inner: Seq<Token>, pos: int) -> Result<Seq<Seq<Seq<char>>>, Message>
    decreases inner.len() - pos,
    via path_list_decreases
{
    if pos >= inner.len() {
        Ok(Seq::empty())
    } else if !ident_at(inner, pos) {
        Err(Message::ExpectedIdent)
    } else if path_end(inner, pos) >= inner.len() {
        Ok(seq![path_segments(inner, pos)])
    } else if !punct_at(inner, path_end(inner, pos), ","@) {
        Err(Message::ExpectedSeparator)
    } else {
        prepend(seq![path_segments(inner, pos)], path_list(inner, path_end(inner, pos) + 1))
    }
}

#[via_fn]
proof fn path_list_decreases(inner: Seq<Token>, pos: int) {
    if ident_at(inner, pos) {
        lemma_path_bounds(inner, pos);
    }
}

/// Reads the comma-separated paths that fill `inner`.
pub fn parse_path_list(inner: &Vec<Token>) -> (r: Result<Vec<SolPath>, Message>)
    ensures
        match r {
            Ok(paths) => path_list(inner@, 0) == Ok::<_, Message>(paths_view(paths@)),
            Err(m) => path_list(inner@, 0) == Err::<Seq<Seq<Seq<char>>>, _>(m),
        },
{
    let mut paths: Vec<SolPath> = Vec::new();
    let mut pos: usize = 0;
    assert(paths_view(paths@) =~= Seq::empty());
    assert(Seq::<Seq<Seq<char>>>::empty() + Seq::<Seq<Seq<char>>>::empty() =~= Seq::empty());
    while pos < inner.len()
        invariant
            pos <= inner@.len(),
            path_list(inner@, 0) == prepend(paths_view(paths@), path_list(inner@, pos as int)),
        decreases inner@.len() - pos,
    {
        let ghost before = paths_view(paths@);
        match SolPath::parse(inner, pos) {
            None => {
                return Err(Message::ExpectedIdent);
            },
            Some((path, end)) => {
                let ghost segs = path@;
                paths.push(path);
                proof {
                    assert(paths_view(paths@) =~= before + seq![segs]);
                }
                if end >= inner.len() {
                    proof {
                        assert(path_list(inner@, end as int) == Ok::<_, Message>(
                            Seq::<Seq<Seq<char>>>::empty(),
                        ));
                        assert(before + seq![segs] + Seq::<Seq<Seq<char>>>::empty() =~= before
                            + seq![segs]);
                    }
                    pos = end;
                } else if !is_punct(inner, end, ",") {
                    return Err(Message::ExpectedSeparator);
                } else {
                    proof {
                        let rest = path_list(inner@, end + 1);
                        if let Ok(tail) = rest {
                            assert(before + (seq![segs] + tail) =~= before + seq![segs] + tail);
                        }
                    }
                    pos = end + 1;
                }
            },
        }
    }
    proof {
        assert(paths_view(paths@) + Seq::<Seq<Seq<char>>>::empty() =~= paths_view(paths@));
    }
    Ok(paths)
}

impl Clone for Override {
    /// A clause at the same place with the same targets.
    fn clone(&self) -> (r: Override)
        ensures
            r@ == self@,
    {
        match &self.paths {
            None => Override { span: self.span, paths: None },
            Some(paths) => {
                let mut copies: Vec<SolPath> = Vec::new();
                let mut i: usize = 0;
                while i < paths.len()
                    invariant
                        i <= paths@.len(),
                        copies@.len() == i,
                        forall|j: int| 0 <= j < i ==> copies@[j]@ == paths@[j]@,
                    decreases paths@.len() - i,
                {
                    copies.push(paths[i].clone());
                    i = i + 1;
                }
                assert(paths_view(copies@) =~= paths_view(paths@));
                Override { span: self.span, paths: Some(copies) }
            },
        }
    }
}

impl View for Override {
    type V = OverrideView;

    open spec fn view(&self) -> OverrideView {
        OverrideView {
            span: self.span,
            paths: match self.paths {
                Some(paths) => Some(paths_view(paths@)),
                None => None,
            },
        }
    }
}

impl OverrideView {
    /// The clause that starts at `pos`, with the position behind it. The
    /// parenthesized group that follows the keyword, if any, is tokenized on
    /// its own and must hold a list of paths; a failure inside the group is
    /// reported at the group.
    pub open spec fn at(tokens: Seq<Token>, pos: int) -> Result<(OverrideView, int), ParseError> {
        if !word_at(tokens, pos, "override"@) {
            Err(ParseError::single(span_at(tokens, pos), Message::ExpectedOverride))
        } else if kind_at(tokens, pos + 1, TokenKind::Paren) {
            match lexed(tokens[pos + 1].text@) {
                None => Err(ParseError::single(span_at(tokens, pos + 1), Message::Lex)),
                Some(inner) => match path_list(inner, 0) {
                    Err(m) => Err(ParseError::single(span_at(tokens, pos + 1), m)),
                    Ok(paths) => Ok(
                        (OverrideView { span: span_at(tokens, pos), paths: Some(paths) }, pos + 2),
                    ),
                },
            }
        } else {
            Ok((OverrideView { span: span_at(tokens, pos), paths: None }, pos + 1))
        }
    }

    /// Whether the clause names `path` among its targets.
    pub open spec fn names(self, path: Seq<Seq<char>>) -> bool {
        self.paths matches Some(paths) && paths.contains(path)
    }

    /// The clause as text.
    pub open spec fn text(self) -> Seq<char> {
        match self.paths {
            None => "override"@,
            Some(paths) => "override("@ + joined(paths.map_values(|p: Seq<Seq<char>>| path_text(p)), ","@)
                + ")"@,
        }
    }
}

impl Override {
    /// Reads an `override` clause at `pos`.
    pub fn parse(tokens: &Vec<Token>, pos: usize) -> (r: Result<(Override, usize), ParseError>)
        ensures
            match r {
                Ok((o, next)) => OverrideView::at(tokens@, pos as int) == Ok::<_, ParseError>(
                    (o@, next as int),
                ) && pos < next <= tokens@.len(),
                Err(e) => OverrideView::at(tokens@, pos as int) == Err::<(OverrideView, int), _>(e),
            },
    {
        if !is_word(tokens, pos, "override") {
            return Err(ParseError::new(error_span(tokens, pos), Message::ExpectedOverride));
        }
        let span = error_span(tokens, pos);
        if pos < tokens.len() - 1 && is_kind(tokens, pos + 1, TokenKind::Paren) {
            let group = &tokens[pos + 1];
            match tokenize(group.text.as_str()) {
                None => Err(ParseError::new(error_span(tokens, pos + 1), Message::Lex)),
                Some(inner) => match parse_path_list(&inner) {
                    Err(m) => Err(ParseError::new(error_span(tokens, pos + 1), m)),
                    Ok(paths) => Ok((Override { span, paths: Some(paths) }, pos + 2)),
                },
            }
        } else {
            Ok((Override { span, paths: None }, pos + 1))
        }
    }

    pub fn span(&self) -> (r: Span)
        ensures
            r == self@.span,
    {
        self.span
    }

    pub fn set_span(&mut self, span: Span)
        ensures
            final(self)@ == (OverrideView { span, ..old(self)@ }),
    {
        self.span = span;
    }

    /// The clause as text.
    pub fn to_string(&self) -> (r: String)
        ensures
            r@ == self@.text(),
    {
        match &self.paths {
            None => String::from_str("override"),
            Some(paths) => {
                let mut parts: Vec<String> = Vec::new();
                let mut i: usize = 0;
                while i < paths.len()
                    invariant
                        i <= paths@.len(),
                        parts@.len() == i,
                        forall|j: int| 0 <= j < i ==> parts@[j]@ == path_text(paths@[j]@),
                    decreases paths@.len() - i,
                {
                    parts.push(paths[i].to_string());
                    i = i + 1;
                }
                assert(texts(parts@) =~= paths_view(paths@).map_values(
                    |p: Seq<Seq<char>>| path_text(p),
                ));
                let mut out = String::from_str("override(");
                out.append(join(&parts, ",").as_str());
                out.append(")");
                out
            },
        }
    }

    /// Whether `path` is one of the targets.
    pub fn names(&self, path: &SolPath) -> (r: bool)
        ensures
            r == self@.names(path@),
    {
        match &self.paths {
            None => false,
            Some(paths) => {
                let mut i: usize = 0;
                while i < paths.len()
                    invariant
                        i <= paths@.len(),
                        self.paths == Some(*paths),
                        forall|j: int| 0 <= j < i ==> paths_view(paths@)[j] != path@,
                    decreases paths@.len() - i,
                {
                    if paths[i].same(path) {
                        assert(paths_view(paths@)[i as int] == path@);
                        assert(paths_view(paths@).contains(path@));
                        return true;
                    }
                    i = i + 1;
                }
                false
            },
        }
    }
}

impl Clone for Modifier {
    /// An invocation at the same place with the same name and arguments.
    fn clone(&self) -> (r: Modifier)
        ensures
            r@ == self@,
    {
        let arguments = match &self.arguments {
            Some(text) => Some(text.clone()),
            None => None,
        };
        Modifier { span: self.span, name: self.name.clone(), arguments }
    }
}

impl View for Modifier {
    type V = ModifierView;

    open spec fn view(&self) -> ModifierView {
        ModifierView {
            span: self.span,
            name: self.name@,
            arguments: match self.arguments {
                Some(text) => Some(text@),
                None => None,
            },
        }
    }
}

impl ModifierView {
    /// The invocation that starts at `pos`, with the position behind it: the
    /// longest path there, and the parenthesized group directly behind it.
    pub open spec fn at(tokens: Seq<Token>, pos: int) -> Option<(ModifierView, int)> {
        if !ident_at(tokens, pos) {
            None
        } else if kind_at(tokens, path_end(tokens, pos), TokenKind::Paren) {
            Some(
                (
                    ModifierView {
                        span: span_at(tokens, pos),
                        name: path_segments(tokens, pos),
                        arguments: Some(tokens[path_end(tokens, pos)].text@),
                    },
                    path_end(tokens, pos) + 1,
                ),
            )
        } else {
            Some(
                (
                    ModifierView {
                        span: span_at(tokens, pos),
                        name: path_segments(tokens, pos),
                        arguments: None,
                    },
                    path_end(tokens, pos),
                ),
            )
        }
    }

    /// The invocation as text.
    pub open spec fn text(self) -> Seq<char> {
        match self.arguments {
            None => path_text(self.name),
            Some(arguments) => path_text(self.name) + "("@ + arguments + ")"@,
        }
    }
}

impl Modifier {
    /// Reads a modifier invocation at `pos`; `None` where no identifier stands there.
    pub fn parse(tokens: &Vec<Token>, pos: usize) -> (r: Option<(Modifier, usize)>)
        ensures
            match r {
                Some((m, next)) => ModifierView::at(tokens@, pos as int) == Some((m@, next as int))
                    && pos < next <= tokens@.len(),
                None => ModifierView::at(tokens@, pos as int) is None,
            },
    {
        match SolPath::parse(tokens, pos) {
            None => None,
            Some((name, end)) => {
                let span = error_span(tokens, pos);
                if end < tokens.len() && is_kind(tokens, end, TokenKind::Paren) {
                    let arguments = Some(tokens[end].text.clone());
                    Some((Modifier { span, name, arguments }, end + 1))
                } else {
                    Some((Modifier { span, name, arguments: None }, end))
                }
            },
        }
    }

    pub fn span(&self) -> (r: Span)
        ensures
            r == self@.span,
    {
        self.span
    }

    pub fn set_span(&mut self, span: Span)
        ensures
            final(self)@ == (ModifierView { span, ..old(self)@ }),
    {
        self.span = span;
    }

    /// The invocation as text.
    pub fn to_string(&self) -> (r: String)
        ensures
            r@ == self@.text(),
    {
        let mut out = self.name.to_string();
        if let Some(arguments) = &self.arguments {
            out.append("(");
            out.append(arguments.as_str());
            out.append(")");
        }
        out
    }
}

} // verus!
