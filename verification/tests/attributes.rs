use syn_solidity::attribute::{Mutability, Visibility};
use syn_solidity::clause::{Modifier, Override};
use syn_solidity::error::{Diagnostic, Message, ParseError};
use syn_solidity::function::{Category, FunctionAttribute, FunctionAttributes, VariableAttribute};
use syn_solidity::path::SolPath;
use syn_solidity::token::{tokenize, Span, Token, TokenKind};

fn path(segments: &[&str]) -> SolPath {
    SolPath { segments: segments.iter().map(|s| s.to_string()).collect() }
}

fn span(lo: usize, hi: usize) -> Span {
    Span { lo, hi }
}

#[test]
fn tokenize_splits_words_and_groups() {
    let tokens = tokenize("public f(a, b) { x }").unwrap();
    assert_eq!(tokens.len(), 4);
    assert_eq!(tokens[0].kind, TokenKind::Ident);
    assert_eq!(tokens[0].text, "public");
    assert_eq!(tokens[1].text, "f");
    assert_eq!(tokens[2].kind, TokenKind::Paren);
    assert_eq!(tokens[2].text, "a , b");
    assert_eq!(tokens[3].kind, TokenKind::Brace);
    assert_eq!(tokens[3].text, "x");
}

#[test]
fn tokenize_tells_the_kinds_apart() {
    let tokens = tokenize("a . 12 [3] \"s\"").unwrap();
    let kinds: Vec<TokenKind> = tokens.iter().map(|t| t.kind).collect();
    assert_eq!(
        kinds,
        vec![
            TokenKind::Ident,
            TokenKind::Punct,
            TokenKind::Literal,
            TokenKind::Bracket,
            TokenKind::Literal
        ]
    );
    assert_eq!(tokens[1].text, ".");
    assert_eq!(tokens[2].text, "12");
    assert_eq!(tokens[3].text, "3");
    assert_eq!(tokens[4].text, "\"s\"");
}

#[test]
fn tokenize_refuses_unbalanced_text() {
    assert!(tokenize("{").is_none());
    assert!(tokenize("f(").is_none());
    assert_eq!(tokenize("").unwrap().len(), 0);
}

#[test]
fn token_new_keeps_kind_and_text() {
    let t = Token::new(TokenKind::Ident, "x".to_string());
    assert_eq!(t, Token { kind: TokenKind::Ident, text: "x".to_string() });
}

#[test]
fn public_view_virtual() {
    let set = FunctionAttributes::parse_str("public view virtual").unwrap();
    assert_eq!(set.len(), 3);
    assert_eq!(set.visibility(), Some(Visibility::Public(span(0, 1))));
    assert_eq!(set.mutability(), Some(Mutability::View(span(1, 2))));
    assert!(set.has_virtual());
    assert!(set.override_clause().is_none());
    assert!(set.modifier().is_none());
    assert!(!set.has_external());
    assert!(set.has_public());
    assert!(!set.has_internal());
    assert!(!set.has_private());
    assert!(!set.has_immutable());
    assert!(!set.has_override(None));
    assert!(!set.has_modifier(None));
}

#[test]
fn body_is_refused_with_its_own_message() {
    let tokens = tokenize("{}").unwrap();
    let err = FunctionAttribute::parse(&tokens, 0).unwrap_err();
    assert_eq!(err, ParseError { primary: Diagnostic { span: span(0, 1), message: Message::IllegalBody }, secondary: None });
    assert_eq!(err.primary.message.text(), "function declarations in this context may not have an implementation");
    let err = FunctionAttribute::parse_str("{ }").unwrap_err();
    assert_eq!(err.primary.message, Message::IllegalBody);
    assert_ne!(err.primary.message, Message::ExpectedAttribute);
}

#[test]
fn unbalanced_body_cannot_be_tokenized() {
    let err = FunctionAttribute::parse_str("{").unwrap_err();
    assert_eq!(err, ParseError { primary: Diagnostic { span: span(0, 0), message: Message::Lex }, secondary: None });
    let err = FunctionAttributes::parse_str("public {").unwrap_err();
    assert_eq!(err.primary.message, Message::Lex);
}

#[test]
fn set_stops_before_a_body() {
    let tokens = tokenize("public { }").unwrap();
    let (set, next) = FunctionAttributes::parse(&tokens, 0).unwrap();
    assert_eq!(set.len(), 1);
    assert_eq!(next, 1);
    let tokens = tokenize("{ }").unwrap();
    let (set, next) = FunctionAttributes::parse(&tokens, 0).unwrap();
    assert_eq!(set.len(), 0);
    assert_eq!(next, 0);
}

#[test]
fn set_stops_before_returns_and_semicolon() {
    let tokens = tokenize("external pure returns (uint256)").unwrap();
    let (set, next) = FunctionAttributes::parse(&tokens, 0).unwrap();
    assert_eq!(set.len(), 2);
    assert_eq!(next, 2);
    assert!(set.has_external());
    let tokens = tokenize("internal;").unwrap();
    let (set, next) = FunctionAttributes::parse(&tokens, 0).unwrap();
    assert_eq!(set.len(), 1);
    assert_eq!(next, 1);
    assert!(set.has_internal());
    assert!(FunctionAttributes::ends_at(&tokens, 1));
    assert!(!FunctionAttributes::ends_at(&tokens, 0));
    assert!(FunctionAttributes::ends_at(&tokens, 7));
}

#[test]
fn set_starts_where_it_is_told() {
    let tokens = tokenize("f() private payable").unwrap();
    let (set, next) = FunctionAttributes::parse(&tokens, 2).unwrap();
    assert_eq!(next, 4);
    assert!(set.has_private());
    assert_eq!(set.mutability(), Some(Mutability::Payable(span(3, 4))));
    let (set, next) = FunctionAttributes::parse(&tokens, 9).unwrap();
    assert_eq!(set.len(), 0);
    assert_eq!(next, 9);
}

#[test]
fn leftover_tokens_are_refused_in_text() {
    let err = FunctionAttributes::parse_str("public returns (uint256)").unwrap_err();
    assert_eq!(err, ParseError { primary: Diagnostic { span: span(1, 2), message: Message::UnexpectedToken }, secondary: None });
    let err = FunctionAttribute::parse_str("public view").unwrap_err();
    assert_eq!(err.primary, Diagnostic { span: span(1, 2), message: Message::UnexpectedToken });
}

#[test]
fn empty_text_is_an_empty_set() {
    let set = FunctionAttributes::parse_str("").unwrap();
    assert_eq!(set.len(), 0);
    assert_eq!(set.visibility(), None);
    let err = FunctionAttribute::parse_str("").unwrap_err();
    assert_eq!(err.primary, Diagnostic { span: span(0, 0), message: Message::ExpectedAttribute });
}

fn duplicate(text: &str, new: Span, previous: Span) {
    let err = FunctionAttributes::parse_str(text).unwrap_err();
    assert_eq!(
        err,
        ParseError {
            primary: Diagnostic { span: new, message: Message::Duplicate },
            secondary: Some(Diagnostic { span: previous, message: Message::PreviousDeclaration }),
        }
    );
    assert_eq!(
        err.diagnostics(),
        vec![
            Diagnostic { span: new, message: Message::Duplicate },
            Diagnostic { span: previous, message: Message::PreviousDeclaration }
        ]
    );
}

#[test]
fn two_visibilities_are_a_duplicate() {
    duplicate("public external", span(1, 2), span(0, 1));
    duplicate("public public", span(1, 2), span(0, 1));
    duplicate("private view internal", span(2, 3), span(0, 1));
}

#[test]
fn two_mutabilities_are_a_duplicate() {
    duplicate("view pure", span(1, 2), span(0, 1));
    duplicate("payable public payable", span(2, 3), span(0, 1));
}

#[test]
fn two_markers_are_a_duplicate() {
    duplicate("virtual virtual", span(1, 2), span(0, 1));
    duplicate("immutable public immutable", span(2, 3), span(0, 1));
}

#[test]
fn two_overrides_are_a_duplicate() {
    duplicate("override override(A)", span(1, 2), span(0, 1));
    duplicate("override(A) virtual override(B)", span(3, 4), span(0, 1));
}

#[test]
fn two_modifiers_of_one_name_are_a_duplicate() {
    duplicate("onlyOwner onlyOwner", span(1, 2), span(0, 1));
    duplicate("lock(1) public lock(2)", span(3, 4), span(0, 1));
    duplicate("a.b a.b", span(3, 4), span(0, 1));
}

#[test]
fn nothing_is_read_behind_a_duplicate() {
    let err = FunctionAttributes::parse_str("public public 123").unwrap_err();
    assert_eq!(err.primary.message, Message::Duplicate);
}

#[test]
fn two_modifiers_of_different_names_are_kept() {
    let set = FunctionAttributes::parse_str("onlyOwner whenNotPaused(1)").unwrap();
    assert_eq!(set.len(), 2);
    assert!(set.has_modifier(None));
    assert!(set.has_modifier(Some(&path(&["onlyOwner"]))));
    assert!(set.has_modifier(Some(&path(&["whenNotPaused"]))));
    assert!(!set.has_modifier(Some(&path(&["other"]))));
    let first = set.modifier().unwrap();
    assert_eq!(first.name, path(&["onlyOwner"]));
    assert_eq!(first.arguments, None);
    let set = FunctionAttributes::parse_str("a.b a.c a").unwrap();
    assert_eq!(set.len(), 3);
}

#[test]
fn unknown_token_is_reported_where_it_stands() {
    let err = FunctionAttributes::parse_str("public 123").unwrap_err();
    assert_eq!(err, ParseError { primary: Diagnostic { span: span(1, 2), message: Message::ExpectedAttribute }, secondary: None });
    let err = FunctionAttribute::parse_str("+").unwrap_err();
    assert_eq!(err.primary.message, Message::ExpectedAttribute);
    let err = FunctionAttribute::parse_str("returns").unwrap_err();
    assert_eq!(err.primary.message, Message::ExpectedAttribute);
    assert_eq!(
        Message::ExpectedAttribute.text(),
        "expected one of: `external`, `public`, `internal`, `private`, `pure`, `view`, `payable`, `virtual`, `override`, `immutable`, identifier"
    );
}

#[test]
fn each_form_is_recognized() {
    let cases = [
        ("external", Category::Visibility),
        ("public", Category::Visibility),
        ("internal", Category::Visibility),
        ("private", Category::Visibility),
        ("pure", Category::Mutability),
        ("view", Category::Mutability),
        ("payable", Category::Mutability),
        ("virtual", Category::Virtual),
        ("immutable", Category::Immutable),
        ("override", Category::Override),
        ("override(A.B, C)", Category::Override),
        ("nonReentrant", Category::Modifier),
        ("lib.guard(1, 2)", Category::Modifier),
    ];
    for (text, category) in cases {
        let attr = FunctionAttribute::parse_str(text).unwrap();
        assert_eq!(attr.category(), category, "{}", text);
        assert_eq!(attr.span().lo, 0);
    }
}

#[test]
fn single_attribute_accessors() {
    let v = FunctionAttribute::parse_str("external").unwrap();
    assert_eq!(v.visibility(), Some(Visibility::External(span(0, 1))));
    assert_eq!(v.mutability(), None);
    assert!(v.override_clause().is_none());
    assert!(v.modifier().is_none());
    assert!(v.is_external());
    assert!(!v.is_public() && !v.is_internal() && !v.is_private());
    assert!(!v.is_virtual() && !v.is_immutable());
    assert!(!v.is_override(None) && !v.is_modifier(None));
    assert!(FunctionAttribute::parse_str("public").unwrap().is_public());
    assert!(FunctionAttribute::parse_str("internal").unwrap().is_internal());
    assert!(FunctionAttribute::parse_str("private").unwrap().is_private());
    assert!(FunctionAttribute::parse_str("virtual").unwrap().is_virtual());
    assert!(FunctionAttribute::parse_str("immutable").unwrap().is_immutable());
    let m = FunctionAttribute::parse_str("pure").unwrap();
    assert_eq!(m.mutability(), Some(Mutability::Pure(span(0, 1))));
    assert_eq!(m.visibility(), None);
}

#[test]
fn override_targets() {
    let attr = FunctionAttribute::parse_str("override(A, B.C,)").unwrap();
    let o = attr.override_clause().unwrap();
    assert_eq!(o.span, span(0, 1));
    assert_eq!(o.paths, Some(vec![path(&["A"]), path(&["B", "C"])]));
    assert!(attr.is_override(None));
    assert!(attr.is_override(Some(&path(&["A"]))));
    assert!(attr.is_override(Some(&path(&["B", "C"]))));
    assert!(!attr.is_override(Some(&path(&["B"]))));
    assert!(!attr.is_modifier(None));
    let bare = FunctionAttribute::parse_str("override").unwrap();
    assert_eq!(bare.override_clause().unwrap().paths, None);
    assert!(bare.is_override(None));
    assert!(!bare.is_override(Some(&path(&["A"]))));
    let empty = FunctionAttribute::parse_str("override()").unwrap();
    assert_eq!(empty.override_clause().unwrap().paths, Some(vec![]));
}

#[test]
fn override_with_a_bad_list_is_refused_at_the_group() {
    let err = FunctionAttribute::parse_str("override(A B)").unwrap_err();
    assert_eq!(err.primary, Diagnostic { span: span(1, 2), message: Message::ExpectedSeparator });
    let err = FunctionAttribute::parse_str("override(1)").unwrap_err();
    assert_eq!(err.primary, Diagnostic { span: span(1, 2), message: Message::ExpectedIdent });
    let err = FunctionAttribute::parse_str("override(A,,)").unwrap_err();
    assert_eq!(err.primary.message, Message::ExpectedIdent);
    let tokens = tokenize("public").unwrap();
    let err = Override::parse(&tokens, 0).unwrap_err();
    assert_eq!(err.primary, Diagnostic { span: span(0, 1), message: Message::ExpectedOverride });
}

#[test]
fn set_finds_override_and_modifier() {
    let set = FunctionAttributes::parse_str("public override(Base) onlyOwner lock(1)").unwrap();
    assert!(set.has_override(None));
    assert!(set.has_override(Some(&path(&["Base"]))));
    assert!(!set.has_override(Some(&path(&["Other"]))));
    assert_eq!(set.override_clause().unwrap().paths, Some(vec![path(&["Base"])]));
    assert_eq!(set.modifier().unwrap().name, path(&["onlyOwner"]));
    assert!(set.has_modifier(Some(&path(&["lock"]))));
}

#[test]
fn modifier_arguments_are_kept_as_text() {
    let attr = FunctionAttribute::parse_str("nonReentrant(a, b)").unwrap();
    let m = attr.modifier().unwrap();
    assert_eq!(m.name, path(&["nonReentrant"]));
    assert_eq!(m.arguments.as_deref(), Some("a , b"));
    assert_eq!(m.span, span(0, 1));
    assert!(attr.is_modifier(None));
    assert!(attr.is_modifier(Some(&path(&["nonReentrant"]))));
    assert!(!attr.is_modifier(Some(&path(&["other"]))));
    assert_eq!(attr.to_string(), "nonReentrant(a , b)");
    let tokens = tokenize("+").unwrap();
    assert!(Modifier::parse(&tokens, 0).is_none());
}

#[test]
fn attributes_render_as_written() {
    for text in ["external", "public", "internal", "private", "pure", "view", "payable", "virtual", "immutable", "override", "onlyOwner", "a.b.c"] {
        assert_eq!(FunctionAttribute::parse_str(text).unwrap().to_string(), text);
    }
    assert_eq!(FunctionAttribute::parse_str("override( A , B . C )").unwrap().to_string(), "override(A,B.C)");
    assert_eq!(FunctionAttribute::parse_str("override()").unwrap().to_string(), "override()");
    assert_eq!(Visibility::External(span(0, 0)).to_string(), "external");
    assert_eq!(Mutability::Payable(span(0, 0)).to_string(), "payable");
}

#[test]
fn rendering_and_reading_again_gives_the_same_attribute() {
    for text in [
        "external", "public", "internal", "private", "pure", "view", "payable", "virtual",
        "immutable", "override", "override(A, B.C)", "onlyOwner", "lib.guard", "lock(1, x)",
    ] {
        let first = FunctionAttribute::parse_str(text).unwrap();
        let again = FunctionAttribute::parse_str(&first.to_string()).unwrap();
        assert!(again.same(&first), "{}", text);
        assert!(first.same(&again), "{}", text);
        assert_eq!(again.to_string(), first.to_string());
    }
}

#[test]
fn identity_of_attributes() {
    let parse = |t: &str| FunctionAttribute::parse_str(t).unwrap();
    assert!(parse("public").same(&parse("external")));
    assert!(parse("pure").same(&parse("payable")));
    assert!(parse("override").same(&parse("override(A)")));
    assert!(parse("f(1)").same(&parse("f(2)")));
    assert!(!parse("f").same(&parse("g")));
    assert!(!parse("a.b").same(&parse("a")));
    assert!(!parse("public").same(&parse("pure")));
    assert!(!parse("virtual").same(&parse("immutable")));
    assert!(!parse("override").same(&parse("f")));
}

#[test]
fn constant_becomes_immutable_at_the_same_place() {
    let attr = FunctionAttribute::from(VariableAttribute::Constant(span(11, 19)));
    assert!(attr.is_immutable());
    assert_eq!(attr.span(), span(11, 19));
    assert_eq!(VariableAttribute::Constant(span(11, 19)).span(), span(11, 19));
}

#[test]
fn other_variable_attributes_stay_what_they_are() {
    let v = FunctionAttribute::from(VariableAttribute::Visibility(Visibility::Internal(span(1, 9))));
    assert_eq!(v.visibility(), Some(Visibility::Internal(span(1, 9))));
    let i = FunctionAttribute::from(VariableAttribute::Immutable(span(2, 11)));
    assert!(i.is_immutable());
    assert_eq!(i.span(), span(2, 11));
    let o = Override { span: span(3, 11), paths: Some(vec![path(&["A"])]) };
    let f = FunctionAttribute::from(VariableAttribute::Override(o.clone()));
    assert_eq!(f.override_clause(), Some(&o));
    assert_eq!(f.span(), span(3, 11));
}

#[test]
fn set_span_moves_every_kind() {
    for text in ["public", "view", "virtual", "immutable", "override(A)", "lock(1)"] {
        let mut attr = FunctionAttribute::parse_str(text).unwrap();
        let before = attr.to_string();
        attr.set_span(span(40, 44));
        assert_eq!(attr.span(), span(40, 44));
        assert_eq!(attr.to_string(), before);
    }
    let mut v = Visibility::Private(span(0, 7));
    v.set_span(span(1, 2));
    assert_eq!(v, Visibility::Private(span(1, 2)));
    assert_eq!(v.span(), span(1, 2));
    let mut m = Mutability::View(span(0, 4));
    m.set_span(span(5, 6));
    assert_eq!(m, Mutability::View(span(5, 6)));
    assert_eq!(m.span(), span(5, 6));
}

#[test]
fn insert_refuses_what_is_already_there() {
    let mut set = FunctionAttributes::new();
    assert_eq!(set.len(), 0);
    assert!(set.insert(FunctionAttribute::Virtual(span(0, 7))));
    assert!(!set.insert(FunctionAttribute::Virtual(span(9, 16))));
    assert!(set.insert(FunctionAttribute::Visibility(Visibility::Public(span(20, 26)))));
    assert!(!set.insert(FunctionAttribute::Visibility(Visibility::Private(span(30, 37)))));
    assert_eq!(set.len(), 2);
    assert_eq!(set.visibility(), Some(Visibility::Public(span(20, 26))));
    let found = set.get(&FunctionAttribute::Virtual(span(50, 57))).unwrap();
    assert_eq!(found.span(), span(0, 7));
    assert!(set.get(&FunctionAttribute::Immutable(span(0, 0))).is_none());
}

#[test]
fn error_helpers() {
    let e = ParseError::new(span(1, 2), Message::Duplicate);
    assert_eq!(e.diagnostics(), vec![Diagnostic { span: span(1, 2), message: Message::Duplicate }]);
    let d = Diagnostic { span: span(0, 1), message: Message::PreviousDeclaration };
    let both = e.combine(d);
    assert_eq!(both.primary, e.primary);
    assert_eq!(both.secondary, Some(d));
    assert_eq!(both.diagnostics().len(), 2);
    assert_eq!(Message::Duplicate.text(), "duplicate attribute");
    assert_eq!(Message::PreviousDeclaration.text(), "previous declaration");
    assert_eq!(Message::EmptyStruct.text(), "empty struct body disallowed");
    assert_eq!(Message::MissingSemicolon.text(), "expected trailing separator");
}

#[test]
fn equality_is_the_identity_of_attributes() {
    let parse = |t: &str| FunctionAttribute::parse_str(t).unwrap();
    assert!(parse("public") == parse("external"));
    assert!(parse("f(1)") == parse("f"));
    assert!(parse("f") != parse("g"));
    assert!(parse("virtual") != parse("immutable"));
}

#[test]
fn sets_are_equal_whatever_the_order() {
    let parse = |t: &str| FunctionAttributes::parse_str(t).unwrap();
    assert!(parse("public view f g") == parse("g external f pure"));
    assert!(parse("public view") != parse("public view virtual"));
    assert!(parse("public f") != parse("public g"));
    assert!(parse("") == FunctionAttributes::default());
    assert!(parse("") == FunctionAttributes::new());
    assert!(parse("virtual") != FunctionAttributes::new());
}

#[test]
fn attributes_come_out_in_the_order_of_the_text() {
    let set = FunctionAttributes::parse_str("b public a(1) override").unwrap();
    let texts: Vec<String> = set.attributes().iter().map(|a| a.to_string()).collect();
    assert_eq!(texts, vec!["b", "public", "a(1)", "override"]);
    let categories: Vec<Category> = set.attributes().iter().map(|a| a.category()).collect();
    assert_eq!(categories, vec![Category::Modifier, Category::Visibility, Category::Modifier, Category::Override]);
}

#[test]
fn clones_hold_the_same() {
    let set = FunctionAttributes::parse_str("public override(A, B.C) lock(1) virtual").unwrap();
    let copy = set.clone();
    assert_eq!(copy.len(), 4);
    let texts = |s: &FunctionAttributes| -> Vec<String> { s.attributes().iter().map(|a| a.to_string()).collect() };
    assert_eq!(texts(&copy), texts(&set));
    assert_eq!(copy.override_clause(), set.override_clause());
    assert_eq!(copy.modifier(), set.modifier());
    assert_eq!(copy.visibility(), set.visibility());
    let attr = FunctionAttribute::parse_str("a.b(x)").unwrap();
    let again = attr.clone();
    assert_eq!(again.modifier(), attr.modifier());
    assert_eq!(again.span(), attr.span());
    let constant = VariableAttribute::Constant(span(4, 5));
    assert_eq!(constant.clone().span(), span(4, 5));
    assert!(FunctionAttribute::from(constant.clone()).is_immutable());
    assert_eq!(path(&["a", "b"]).clone(), path(&["a", "b"]));
}

#[test]
fn whole_token_sequences() {
    let tokens = tokenize("public view").unwrap();
    let set = FunctionAttributes::parse_all(&tokens).unwrap();
    assert_eq!(set.len(), 2);
    let err = FunctionAttribute::parse_all(&tokens).unwrap_err();
    assert_eq!(err.primary, Diagnostic { span: span(1, 2), message: Message::UnexpectedToken });
    let tokens = tokenize("view;").unwrap();
    let err = FunctionAttributes::parse_all(&tokens).unwrap_err();
    assert_eq!(err.primary, Diagnostic { span: span(1, 2), message: Message::UnexpectedToken });
    let tokens = vec![Token::new(TokenKind::Ident, "virtual".to_string())];
    assert!(FunctionAttribute::parse_all(&tokens).unwrap().is_virtual());
}
