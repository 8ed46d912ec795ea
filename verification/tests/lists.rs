use syn_solidity::error::{Diagnostic, Message, ParseError};
use syn_solidity::list::{Parameters, Separator};
use syn_solidity::path::SolPath;
use syn_solidity::text::join;
use syn_solidity::token::{error_span, is_ident, is_kind, is_punct, is_word, tokenize, Span, TokenKind};
use syn_solidity::token::Token;
use syn_solidity::variable::{parse_dims, parse_size, read_size, Storage, Type, VariableDeclaration, MAX_DEPTH};

fn path(segments: &[&str]) -> SolPath {
    SolPath { segments: segments.iter().map(|s| s.to_string()).collect() }
}

fn named(name: &str) -> Type {
    Type::Named(path(&[name]))
}

fn span(lo: usize, hi: usize) -> Span {
    Span { lo, hi }
}

fn failure(text: &str, separator: Separator) -> ParseError {
    Parameters::parse_str(text, separator).unwrap_err()
}

#[test]
fn two_parameters() {
    let list = Parameters::parse_str("uint256 a, bool b", Separator::Comma).unwrap();
    assert_eq!(list.len(), 2);
    assert_eq!(list.type_strings(), vec!["uint256".to_string(), "bool".to_string()]);
    let a = "a".to_string();
    let b = "b".to_string();
    assert_eq!(list.names(), vec![Some(&a), Some(&b)]);
    assert_eq!(list.eip712_signature("f".to_string()), "f(uint256,bool)");
    assert_eq!(list.types(), vec![&named("uint256"), &named("bool")]);
    assert_eq!(list.types_and_names(), vec![(&named("uint256"), Some(&a)), (&named("bool"), Some(&b))]);
    assert_eq!(list.separator(), Separator::Comma);
    assert!(!list.trailing_punct());
    assert!(!list.is_empty());
}

#[test]
fn empty_parameter_list_is_valid() {
    let list = Parameters::parse_str("", Separator::Comma).unwrap();
    assert_eq!(list.len(), 0);
    assert!(list.is_empty());
    assert!(!list.trailing_punct());
    assert_eq!(list.eip712_signature("name".to_string()), "name()");
    assert_eq!(list.type_strings(), Vec::<String>::new());
    assert_eq!(Parameters::new().eip712_signature("g".to_string()), "g()");
    assert_eq!(Parameters::new().len(), 0);
}

#[test]
fn empty_field_list_is_refused() {
    let err = failure("", Separator::Semicolon);
    assert_eq!(err, ParseError { primary: Diagnostic { span: span(0, 0), message: Message::EmptyStruct }, secondary: None });
}

#[test]
fn field_list_needs_its_last_semicolon() {
    let err = failure("uint256 a; bool b", Separator::Semicolon);
    assert_eq!(err, ParseError { primary: Diagnostic { span: span(5, 5), message: Message::MissingSemicolon }, secondary: None });
    let list = Parameters::parse_str("uint256 a; bool b;", Separator::Semicolon).unwrap();
    assert_eq!(list.len(), 2);
    assert!(list.trailing_punct());
    assert_eq!(list.separator(), Separator::Semicolon);
    assert_eq!(list.type_strings(), vec!["uint256".to_string(), "bool".to_string()]);
    assert_eq!(list.eip712_signature("S".to_string()), "S(uint256,bool)");
}

#[test]
fn single_field() {
    let list = Parameters::parse_str("address owner;", Separator::Semicolon).unwrap();
    assert_eq!(list.len(), 1);
    assert!(list.trailing_punct());
    let err = failure("address owner", Separator::Semicolon);
    assert_eq!(err.primary.message, Message::MissingSemicolon);
}

#[test]
fn fields_need_names() {
    let err = failure("uint256;", Separator::Semicolon);
    assert_eq!(err.primary, Diagnostic { span: span(1, 2), message: Message::ExpectedIdent });
    let err = failure("uint256 a; bool", Separator::Semicolon);
    assert_eq!(err.primary, Diagnostic { span: span(4, 4), message: Message::ExpectedIdent });
}

#[test]
fn parameters_may_lack_names() {
    let list = Parameters::parse_str("uint256, bool b, address", Separator::Comma).unwrap();
    let b = "b".to_string();
    assert_eq!(list.names(), vec![None, Some(&b), None]);
    assert_eq!(list.eip712_signature("f".to_string()), "f(uint256,bool,address)");
}

#[test]
fn trailing_comma_is_optional() {
    let list = Parameters::parse_str("uint256 a, bool b,", Separator::Comma).unwrap();
    assert_eq!(list.len(), 2);
    assert!(list.trailing_punct());
    assert_eq!(list.eip712_signature("f".to_string()), "f(uint256,bool)");
}

#[test]
fn wrong_separator_is_refused() {
    let err = failure("uint256 a; bool b", Separator::Comma);
    assert_eq!(err.primary, Diagnostic { span: span(2, 3), message: Message::ExpectedSeparator });
    let err = failure("uint256 a, bool b;", Separator::Semicolon);
    assert_eq!(err.primary, Diagnostic { span: span(2, 3), message: Message::ExpectedSeparator });
    let err = failure("uint256 a b", Separator::Comma);
    assert_eq!(err.primary, Diagnostic { span: span(2, 3), message: Message::ExpectedSeparator });
    let err = failure("uint256 a,, bool b", Separator::Comma);
    assert_eq!(err.primary, Diagnostic { span: span(3, 4), message: Message::ExpectedType });
    let err = failure(", uint256 a", Separator::Comma);
    assert_eq!(err.primary, Diagnostic { span: span(0, 1), message: Message::ExpectedType });
}

#[test]
fn untokenizable_list_is_refused() {
    let err = failure("uint256 a, (bool", Separator::Comma);
    assert_eq!(err.primary, Diagnostic { span: span(0, 0), message: Message::Lex });
}

#[test]
fn arrays_and_tuples_in_signatures() {
    let list = Parameters::parse_str(
        "uint256[ ] memory a, ( uint8 , bool )[ 2 ] calldata b, lib.Point[][3] c, (address, (bytes32, uint256[])) d",
        Separator::Comma,
    )
    .unwrap();
    assert_eq!(
        list.eip712_signature("transfer".to_string()),
        "transfer(uint256[],(uint8,bool)[2],lib.Point[][3],(address,(bytes32,uint256[])))"
    );
    assert_eq!(
        list.type_strings(),
        vec![
            "uint256[]".to_string(),
            "(uint8,bool)[2]".to_string(),
            "lib.Point[][3]".to_string(),
            "(address,(bytes32,uint256[]))".to_string()
        ]
    );
    let decls = list.into_declarations();
    assert_eq!(decls[0].ty, Type::Array(Box::new(named("uint256")), None));
    assert_eq!(decls[0].storage, Some(Storage::Memory(span(2, 3))));
    assert_eq!(decls[0].name.as_deref(), Some("a"));
    assert_eq!(
        decls[1].ty,
        Type::Array(Box::new(Type::Tuple(vec![named("uint8"), named("bool")])), Some("2".to_string()))
    );
    assert!(matches!(decls[1].storage, Some(Storage::Calldata(_))));
    assert_eq!(
        decls[2].ty,
        Type::Array(
            Box::new(Type::Array(Box::new(Type::Named(path(&["lib", "Point"]))), None)),
            Some("3".to_string())
        )
    );
}

#[test]
fn empty_tuple_and_named_size() {
    let list = Parameters::parse_str("() a, uint8[N] b, (uint8,) c", Separator::Comma).unwrap();
    assert_eq!(list.eip712_signature("f".to_string()), "f((),uint8[N],(uint8))");
}

#[test]
fn bad_types_are_refused_where_they_start() {
    let err = failure("uint256[1 + 2] a", Separator::Comma);
    assert_eq!(err.primary, Diagnostic { span: span(0, 1), message: Message::ExpectedSize });
    let err = failure("bool a, (uint8 bool) b", Separator::Comma);
    assert_eq!(err.primary, Diagnostic { span: span(3, 4), message: Message::ExpectedSeparator });
    let err = failure("(1) b", Separator::Comma);
    assert_eq!(err.primary, Diagnostic { span: span(0, 1), message: Message::ExpectedType });
    let err = failure("123 b", Separator::Comma);
    assert_eq!(err.primary, Diagnostic { span: span(0, 1), message: Message::ExpectedType });
}

#[test]
fn tuples_are_read_to_a_fixed_depth() {
    assert_eq!(MAX_DEPTH, 32);
    let mut text = String::from("uint8");
    for _ in 0..32 {
        text = format!("({})", text);
    }
    let tokens = tokenize(&text).unwrap();
    let (ty, next) = Type::parse(&tokens, 0).unwrap();
    assert_eq!(next, 1);
    assert_eq!(ty.to_string(), text);
    let deeper = format!("({})", text);
    let tokens = tokenize(&deeper).unwrap();
    let err = Type::parse(&tokens, 0).unwrap_err();
    assert_eq!(err.primary, Diagnostic { span: span(0, 1), message: Message::TooDeep });
    assert_eq!(Type::parse_within(&tokens, 0, 33).unwrap().0.to_string(), deeper);
    assert_eq!(Type::parse_within(&tokens, 0, 0).unwrap_err(), Message::TooDeep);
}

#[test]
fn type_helpers() {
    assert_eq!(parse_size(""), Ok(None));
    assert_eq!(parse_size(" 12 "), Ok(Some("12".to_string())));
    assert_eq!(parse_size("N"), Ok(Some("N".to_string())));
    assert_eq!(parse_size("1 2"), Err(Message::ExpectedSize));
    assert_eq!(parse_size("+"), Err(Message::ExpectedSize));
    assert_eq!(parse_size("("), Err(Message::Lex));
    let tokens = tokenize("x [] [4] y").unwrap();
    let (ty, next) = parse_dims(&tokens, 1, named("x")).unwrap();
    assert_eq!(next, 3);
    assert_eq!(ty.to_string(), "x[][4]");
    let (ty, next) = parse_dims(&tokens, 3, named("x")).unwrap();
    assert_eq!((ty, next), (named("x"), 3));
    let inner = tokenize("a, b.c[],").unwrap();
    let items = Type::parse_list(&inner, 1).unwrap();
    assert_eq!(items.len(), 2);
    assert_eq!(items[1].to_string(), "b.c[]");
}

#[test]
fn declarations_one_by_one() {
    let tokens = tokenize("string memory s bool").unwrap();
    let (d, next) = VariableDeclaration::parse(&tokens, 0).unwrap();
    assert_eq!(next, 3);
    assert_eq!(d, VariableDeclaration { ty: named("string"), storage: Some(Storage::Memory(span(1, 2))), name: Some("s".to_string()) });
    let (d, next) = VariableDeclaration::parse(&tokens, 3).unwrap();
    assert_eq!(next, 4);
    assert_eq!(d, VariableDeclaration { ty: named("bool"), storage: None, name: None });
    let err = VariableDeclaration::parse_for_struct(&tokens, 3).unwrap_err();
    assert_eq!(err.primary, Diagnostic { span: span(4, 4), message: Message::ExpectedIdent });
    let err = VariableDeclaration::parse(&tokens, 4).unwrap_err();
    assert_eq!(err.primary, Diagnostic { span: span(4, 4), message: Message::ExpectedType });
    let (d, _) = VariableDeclaration::parse_with(&tokens, 0, true).unwrap();
    assert_eq!(d.name.as_deref(), Some("s"));
    let tokens = tokenize("bytes storage").unwrap();
    let (d, next) = VariableDeclaration::parse(&tokens, 0).unwrap();
    assert_eq!(next, 2);
    assert_eq!(d.storage, Some(Storage::Storage(span(1, 2))));
    assert_eq!(Storage::parse(&tokens, 1).unwrap().to_string(), "storage");
    assert_eq!(Storage::parse(&tokens, 0), None);
    assert_eq!(Storage::Calldata(span(0, 0)).to_string(), "calldata");
    assert_eq!(Storage::Memory(span(0, 0)).to_string(), "memory");
}

#[test]
fn types_are_replaced_in_place() {
    let mut list = Parameters::parse_str("uint256 a; bool b;", Separator::Semicolon).unwrap();
    let old = list.types_mut(1, Type::Array(Box::new(named("address")), None)).unwrap();
    assert_eq!(old, named("bool"));
    assert_eq!(list.eip712_signature("S".to_string()), "S(uint256,address[])");
    let a = "a".to_string();
    let b = "b".to_string();
    assert_eq!(list.names(), vec![Some(&a), Some(&b)]);
    assert!(list.trailing_punct());
    assert_eq!(list.len(), 2);
    let back = list.types_mut(2, named("x")).unwrap_err();
    assert_eq!(back, named("x"));
    assert_eq!(list.eip712_signature("S".to_string()), "S(uint256,address[])");
}

#[test]
fn lists_from_declarations() {
    let decls = vec![
        VariableDeclaration { ty: named("uint8"), storage: None, name: None },
        VariableDeclaration { ty: Type::Tuple(vec![named("a"), named("b")]), storage: None, name: Some("t".to_string()) },
    ];
    let list = Parameters::from_declarations(decls);
    assert_eq!(list.eip712_signature("h".to_string()), "h(uint8,(a,b))");
    assert_eq!(list.separator(), Separator::Comma);
    assert!(!list.trailing_punct());
    assert_eq!(list.get(1).unwrap().name.as_deref(), Some("t"));
    assert!(list.get(2).is_none());
    assert_eq!(list.into_declarations().len(), 2);
}

#[test]
fn separators() {
    assert_eq!(Separator::Comma.as_str(), ",");
    assert_eq!(Separator::Semicolon.as_str(), ";");
    assert!(Separator::Semicolon.is_strict());
    assert!(!Separator::Comma.is_strict());
}

#[test]
fn paths() {
    let tokens = tokenize("a.b.c . 1 x.").unwrap();
    let (p, next) = SolPath::parse(&tokens, 0).unwrap();
    assert_eq!(p, path(&["a", "b", "c"]));
    assert_eq!(next, 5);
    assert_eq!(p.to_string(), "a.b.c");
    assert!(SolPath::parse(&tokens, 5).is_none());
    let (p, next) = SolPath::parse(&tokens, 7).unwrap();
    assert_eq!((p, next), (path(&["x"]), 8));
    assert!(SolPath::parse(&tokens, 20).is_none());
    assert!(path(&["a", "b"]).same(&path(&["a", "b"])));
    assert!(!path(&["a", "b"]).same(&path(&["a"])));
    assert!(!path(&["a", "b"]).same(&path(&["a", "c"])));
    assert_eq!(path(&["only"]).to_string(), "only");
}

#[test]
fn joining_text() {
    assert_eq!(join(&vec![], ","), "");
    assert_eq!(join(&vec!["a".to_string()], ","), "a");
    assert_eq!(join(&vec!["a".to_string(), "".to_string(), "c".to_string()], ", "), "a, , c");
}

#[test]
fn token_predicates() {
    let tokens = tokenize("returns ; (x) [1]").unwrap();
    assert!(is_ident(&tokens, 0) && !is_ident(&tokens, 1) && !is_ident(&tokens, 9));
    assert!(is_word(&tokens, 0, "returns") && !is_word(&tokens, 0, "return") && !is_word(&tokens, 1, ";"));
    assert!(is_punct(&tokens, 1, ";") && !is_punct(&tokens, 1, ",") && !is_punct(&tokens, 0, "returns"));
    assert!(is_kind(&tokens, 2, TokenKind::Paren) && is_kind(&tokens, 3, TokenKind::Bracket));
    assert!(!is_kind(&tokens, 2, TokenKind::Brace) && !is_kind(&tokens, 4, TokenKind::Paren));
    assert_eq!(error_span(&tokens, 2), span(2, 3));
    assert_eq!(error_span(&tokens, 4), span(4, 4));
    assert_eq!(error_span(&tokens, 9), span(4, 4));
    assert_eq!(error_span(&vec![], 0), span(0, 0));
}

#[test]
fn default_list_is_empty() {
    let list = Parameters::default();
    assert_eq!(list.len(), 0);
    assert_eq!(list.separator(), Separator::Comma);
    assert_eq!(list, Parameters::new());
}

#[test]
fn clones_of_lists_hold_the_same() {
    let list = Parameters::parse_str("uint256[] memory a; (uint8, (bool, x.y)[2]) b;", Separator::Semicolon).unwrap();
    let copy = list.clone();
    assert_eq!(copy, list);
    assert_eq!(copy.separator(), Separator::Semicolon);
    assert!(copy.trailing_punct());
    assert_eq!(copy.eip712_signature("S".to_string()), "S(uint256[],(uint8,(bool,x.y)[2]))");
    let ty = Type::Array(Box::new(Type::Tuple(vec![named("a"), Type::Tuple(vec![])])), Some("3".to_string()));
    assert_eq!(ty.clone(), ty);
    let d = VariableDeclaration { ty, storage: Some(Storage::Calldata(span(1, 2))), name: Some("n".to_string()) };
    assert_eq!(d.clone(), d);
}

#[test]
fn sizes_from_tokens() {
    assert_eq!(read_size(&vec![]), Ok(None));
    assert_eq!(read_size(&vec![Token::new(TokenKind::Literal, "7".to_string())]), Ok(Some("7".to_string())));
    assert_eq!(read_size(&vec![Token::new(TokenKind::Ident, "N".to_string())]), Ok(Some("N".to_string())));
    assert_eq!(read_size(&vec![Token::new(TokenKind::Punct, "+".to_string())]), Err(Message::ExpectedSize));
    assert_eq!(read_size(&vec![Token::new(TokenKind::Paren, "1".to_string())]), Err(Message::ExpectedSize));
    let two = vec![Token::new(TokenKind::Literal, "1".to_string()), Token::new(TokenKind::Literal, "2".to_string())];
    assert_eq!(read_size(&two), Err(Message::ExpectedSize));
}
