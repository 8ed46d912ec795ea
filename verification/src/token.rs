//! Tokens: the flat, one-level view of source text that every parser here reads.

use proc_macro2::{Delimiter, TokenStream, TokenTree};
use vstd::prelude::*;
use vstd::string::StringExecFns;

verus! {

/// A place in a sequence of tokens: the tokens from position `lo` up to, and
/// without, position `hi`.
#[derive(Clone, Copy, Debug, PartialEq, Eq, Structural)]
pub struct Span {
    pub lo: usize,
    pub hi: usize,
}

/// What sort of token a [`Token`] is. A delimited group is a single token at
/// its own level; its `text` is the content between the delimiters.
#[derive(Clone, Copy, Debug, PartialEq, Eq, Structural)]
pub enum TokenKind {
    /// An identifier-shaped word, keywords included.
    Ident,
    /// A single punctuation character.
    Punct,
    /// A number, string or character literal.
    Literal,
    /// `( ... )`
    Paren,
    /// `{ ... }`
    Brace,
    /// `[ ... ]`
    Bracket,
    /// A group without visible delimiters.
    Bare,
}

/// One token of a token sequence.
#[derive(Clone, Debug, PartialEq, Eq)]
pub struct Token {
    pub kind: TokenKind,
    /// The token as text; for a group, the text between its delimiters.
    pub text: String,
}

impl Token {
    /// A token of the given kind and text.
    pub fn new(kind: TokenKind, text: String) -> (r: Token)
        ensures
            r == (Token { kind, text }),
    {
        Token { kind, text }
    }
}

/// The top-level tokens of `text`, or `None` where `text` cannot be tokenized
/// (an unbalanced delimiter, an unterminated literal, a stray character).
pub uninterp spec fn lexed(text: Seq<char>) -> Option<Seq<Token>>;

/// The tokens of a result of tokenizing, as a sequence.
pub open spec fn contents(r: Option<Vec<Token>>) -> Option<Seq<Token>> {
    match r {
        Some(tokens) => Some(tokens@),
        None => None,
    }
}

/// Tokenizes with `proc_macro2`. `TokenStream::from_str`, reached through
/// `str::parse`, splits the text, and each top-level token tree becomes a
/// [`Token`]: an identifier, a punctuation character or a literal with the
/// text that its `to_string` gives; a group with its delimiter as the kind
/// and the `to_string` of its inner stream as the text. `None` stands for a
/// `LexError`.
///
/// The body is not verified. Taken on trust is that the outcome depends on
/// the text alone, so that it has a name, [`lexed`]; nothing is claimed about
/// which tokens a text has.
///
/// This holds of the lexer that `proc_macro2` brings itself, which is the
/// only one in a build without its `proc-macro` feature, as this crate asks
/// for it. With that feature on, inside the expansion of a procedural macro
/// the compiler's lexer answers instead: it renders groups in its own way and
/// may panic on malformed text where this one returns an error. Keep the
/// feature off wherever the library is used from a procedural macro.
///
/// The text of a group is rendered level by level, one call within the other
/// for each level of nesting: text that is nested some thousands of groups
/// deep can use up the stack.
#[verifier::external_body]
fn lex(text: &str) -> (r: Option<Vec<Token>>)
    ensures
        contents(r) == lexed(text@),
{
    let stream = text.parse::<TokenStream>().ok()?;
    Some(stream.into_iter().map(|tree| match tree {
        TokenTree::Ident(i) => Token::new(TokenKind::Ident, i.to_string()),
        TokenTree::Punct(p) => Token::new(TokenKind::Punct, p.to_string()),
        TokenTree::Literal(l) => Token::new(TokenKind::Literal, l.to_string()),
        TokenTree::Group(g) => Token::new(match g.delimiter() {
            Delimiter::Parenthesis => TokenKind::Paren,
            Delimiter::Brace => TokenKind::Brace,
            Delimiter::Bracket => TokenKind::Bracket,
            Delimiter::None => TokenKind::Bare,
        }, g.stream().to_string()),
    }).collect())
}

/// Whether an identifier-shaped token stands at `pos`.
pub open spec fn ident_at(tokens: Seq<Token>, pos: int) -> bool {
    0 <= pos < tokens.len() && tokens[pos].kind == TokenKind::Ident
}

/// Whether the identifier-shaped token `word` stands at `pos`.
pub open spec fn word_at(tokens: Seq<Token>, pos: int, word: Seq<char>) -> bool {
    ident_at(tokens, pos) && tokens[pos].text@ == word
}

/// Whether the punctuation `mark` stands at `pos`.
pub open spec fn punct_at(tokens: Seq<Token>, pos: int, mark: Seq<char>) -> bool {
    0 <= pos < tokens.len() && tokens[pos].kind == TokenKind::Punct && tokens[pos].text@ == mark
}

/// Whether a group of the given kind stands at `pos`.
pub open spec fn kind_at(tokens: Seq<Token>, pos: int, kind: TokenKind) -> bool {
    0 <= pos < tokens.len() && tokens[pos].kind == kind
}

/// The place of position `pos`: the one token there, or the empty place
/// behind the last token where the input is used up.
pub open spec fn span_at(tokens: Seq<Token>, pos: int) -> Span {
    if 0 <= pos < tokens.len() {
        Span { lo: pos as usize, hi: (pos + 1) as usize }
    } else {
        Span { lo: tokens.len() as usize, hi: tokens.len() as usize }
    }
}

pub fn is_ident(tokens: &Vec<Token>, pos: usize) -> (r: bool)
    ensures
        r == ident_at(tokens@, pos as int),
{
    pos < tokens.len() && matches!(tokens[pos].kind, TokenKind::Ident)
}

pub fn is_word(tokens: &Vec<Token>, pos: usize, word: &str) -> (r: bool)
    ensures
        r == word_at(tokens@, pos as int, word@),
{
    if pos < tokens.len() && matches!(tokens[pos].kind, TokenKind::Ident) {
        let w = String::from_str(word);
        tokens[pos].text == w
    } else {
        false
    }
}

pub fn is_punct(tokens: &Vec<Token>, pos: usize, mark: &str) -> (r: bool)
    ensures
        r == punct_at(tokens@, pos as int, mark@),
{
    if pos < tokens.len() && matches!(tokens[pos].kind, TokenKind::Punct) {
        let w = String::from_str(mark);
        tokens[pos].text == w
    } else {
        false
    }
}

pub fn is_kind(tokens: &Vec<Token>, pos: usize, kind: TokenKind) -> (r: bool)
    ensures
        r == kind_at(tokens@, pos as int, kind),
{
    pos < tokens.len() && tokens[pos].kind == kind
}

pub fn error_span(tokens: &Vec<Token>, pos: usize) -> (r: Span)
    ensures
        r == span_at(tokens@, pos as int),
{
    if pos < tokens.len() {
        Span { lo: pos, hi: pos + 1 }
    } else {
        Span { lo: tokens.len(), hi: tokens.len() }
    }
}

/// Splits `text` into its top-level tokens.
pub fn tokenize(text: &str) -> (r: Option<Vec<Token>>)
    ensures
        contents(r) == lexed(text@),
{
    lex(text)
}

} // verus!
