use redline_core::ast::BinaryOperator;
use redline_core::lexer::{LexErrorKind, Lexer};
use redline_core::token::{SpannedToken, Token, TypeName};

fn lex(src: &str) -> Vec<SpannedToken> {
    Lexer::new(src.to_string()).tokenize().unwrap()
}

fn kinds(src: &str) -> Vec<Token> {
    lex(src).into_iter().map(|t| t.token).collect()
}

fn lex_error(src: &str) -> (LexErrorKind, usize, usize, String) {
    let e = Lexer::new(src.to_string()).tokenize().unwrap_err();
    (e.kind, e.line, e.column, e.message)
}

#[test]
fn declaration_tokens_and_positions() {
    let toks = lex("val x: int = 1");
    let got: Vec<(Token, usize, usize)> = toks.into_iter().map(|t| (t.token, t.line, t.column)).collect();
    assert_eq!(
        got,
        vec![
            (Token::Val, 1, 1),
            (Token::Ident("x".to_string()), 1, 5),
            (Token::Colon, 1, 6),
            (Token::Type(TypeName::Int), 1, 8),
            (Token::Assign, 1, 12),
            (Token::Int(1), 1, 14),
            (Token::Eof, 1, 15),
        ]
    );
}

#[test]
fn eof_position_is_end_of_input() {
    let toks = lex("ab\ncd");
    let last = toks.last().unwrap();
    assert_eq!((last.line, last.column), (2, 3));
    assert_eq!(last.token, Token::Eof);
}

#[test]
fn empty_input_is_only_eof() {
    assert_eq!(kinds(""), vec![Token::Eof]);
}

#[test]
fn indent_and_dedent_around_a_block() {
    assert_eq!(
        kinds("if a:\n  b\n"),
        vec![
            Token::If,
            Token::Ident("a".to_string()),
            Token::Colon,
            Token::Newline,
            Token::Indent,
            Token::Ident("b".to_string()),
            Token::Newline,
            Token::Dedent,
            Token::Eof,
        ]
    );
}

#[test]
fn open_blocks_close_at_end_of_input() {
    let k = kinds("a:\n  b:\n    c");
    let indents = k.iter().filter(|t| **t == Token::Indent).count();
    let dedents = k.iter().filter(|t| **t == Token::Dedent).count();
    assert_eq!((indents, dedents), (2, 2));
    assert_eq!(k[k.len() - 1], Token::Eof);
    assert_eq!(k[k.len() - 2], Token::Dedent);
}

#[test]
fn indent_dedent_running_count_never_negative() {
    let k = kinds("a\n  b\n    c\n  d\ne\n    f\n");
    let mut depth: i64 = 0;
    for t in &k {
        if *t == Token::Indent {
            depth += 1;
        }
        if *t == Token::Dedent {
            depth -= 1;
        }
        assert!(depth >= 0);
    }
    assert_eq!(depth, 0);
}

#[test]
fn unindent_to_unknown_level_is_an_error() {
    let (kind, line, column, message) = lex_error("if a:\n  print(a)\n else:\n  print(0)\n");
    assert_eq!(kind, LexErrorKind::UnindentMismatch);
    assert_eq!((line, column), (3, 1));
    assert_eq!(message, "Unindent does not match any outer indentation level");
}

#[test]
fn tab_counts_four_spaces() {
    let k = kinds("if a:\n\t  b\n      c\n");
    let indents = k.iter().filter(|t| **t == Token::Indent).count();
    assert_eq!(indents, 1);
    assert_eq!(k[5], Token::Ident("b".to_string()));
    assert_eq!(k[7], Token::Ident("c".to_string()));
}

#[test]
fn blank_and_comment_lines_keep_indentation() {
    assert_eq!(kinds("# c\n   # d\n\n  \n"), vec![Token::Newline, Token::Newline, Token::Newline, Token::Newline, Token::Eof]);
}

#[test]
fn unknown_character() {
    let (kind, line, column, message) = lex_error("x = $");
    assert_eq!(kind, LexErrorKind::UnknownCharacter('$'));
    assert_eq!((line, column), (1, 5));
    assert_eq!(message, "Unknown character: $");
}

#[test]
fn lone_bang_is_its_own_token() {
    assert_eq!(kinds("!a"), vec![Token::Bang, Token::Ident("a".to_string()), Token::Eof]);
    assert_eq!(kinds("!="), vec![Token::Op(BinaryOperator::NotEqual), Token::Eof]);
}

#[test]
fn unterminated_string_at_its_opening() {
    let (kind, line, column, _) = lex_error("s = \"abc");
    assert_eq!(kind, LexErrorKind::UnterminatedString);
    assert_eq!((line, column), (1, 5));
}

#[test]
fn unterminated_fstring() {
    let (kind, line, column, _) = lex_error("\n  f\"abc");
    assert_eq!(kind, LexErrorKind::UnterminatedString);
    assert_eq!((line, column), (2, 3));
}

#[test]
fn second_decimal_point() {
    let (kind, line, column, _) = lex_error("x = 1.2.3");
    assert_eq!(kind, LexErrorKind::MultipleDecimalPoints);
    assert_eq!((line, column), (1, 5));
}

#[test]
fn integer_limits() {
    assert_eq!(kinds("9223372036854775807"), vec![Token::Int(i64::MAX), Token::Eof]);
    let (kind, _, _, _) = lex_error("9223372036854775808");
    assert_eq!(kind, LexErrorKind::IntegerOverflow);
}

#[test]
fn range_float_and_dot() {
    assert_eq!(kinds("0..10"), vec![Token::Int(0), Token::Range, Token::Int(10), Token::Eof]);
    assert_eq!(kinds("1.5"), vec![Token::Float("1.5".to_string()), Token::Eof]);
    assert_eq!(kinds("1.5..2"), vec![Token::Float("1.5".to_string()), Token::Range, Token::Int(2), Token::Eof]);
    assert_eq!(
        kinds("a.b"),
        vec![Token::Ident("a".to_string()), Token::Dot, Token::Ident("b".to_string()), Token::Eof]
    );
}

#[test]
fn string_escapes() {
    assert_eq!(
        kinds("\"a\\nb\\t\\\"q\\\\ \\z\""),
        vec![Token::Str("a\nb\t\"q\\ z".to_string()), Token::Eof]
    );
}

#[test]
fn fstring_and_f_identifier() {
    assert_eq!(kinds("f\"a{b}\""), vec![Token::FString("a{b}".to_string()), Token::Eof]);
    assert_eq!(kinds("fx f"), vec![Token::Ident("fx".to_string()), Token::Ident("f".to_string()), Token::Eof]);
}

#[test]
fn keywords_and_types() {
    assert_eq!(
        kinds("var val def pub print return if else true false while for in import class this try catch new break continue"),
        vec![
            Token::Var, Token::Val, Token::Def, Token::Pub, Token::Print, Token::Return, Token::If, Token::Else,
            Token::True, Token::False, Token::While, Token::For, Token::In, Token::Import, Token::Class, Token::This,
            Token::Try, Token::Catch, Token::New, Token::Break, Token::Continue, Token::Eof,
        ]
    );
    assert_eq!(
        kinds("int float string bool list void dict _x9"),
        vec![
            Token::Type(TypeName::Int), Token::Type(TypeName::Float), Token::Type(TypeName::String),
            Token::Type(TypeName::Bool), Token::Type(TypeName::List), Token::Type(TypeName::Void),
            Token::Type(TypeName::Dict), Token::Ident("_x9".to_string()), Token::Eof,
        ]
    );
}

#[test]
fn operators_and_punctuation() {
    assert_eq!(
        kinds("== != <= >= < > + - * / -> = : ( ) [ ] { } ,"),
        vec![
            Token::Op(BinaryOperator::Equal), Token::Op(BinaryOperator::NotEqual),
            Token::Op(BinaryOperator::LessThanEqual), Token::Op(BinaryOperator::GreaterThanEqual),
            Token::Op(BinaryOperator::LessThan), Token::Op(BinaryOperator::GreaterThan),
            Token::Op(BinaryOperator::Add), Token::Op(BinaryOperator::Subtract),
            Token::Op(BinaryOperator::Multiply), Token::Op(BinaryOperator::Divide),
            Token::Arrow, Token::Assign, Token::Colon, Token::LParen, Token::RParen, Token::LBracket,
            Token::RBracket, Token::LBrace, Token::RBrace, Token::Comma, Token::Eof,
        ]
    );
}

#[test]
fn unicode_letters_make_identifiers() {
    assert_eq!(kinds("été"), vec![Token::Ident("été".to_string()), Token::Eof]);
}
