use redline_core::ast::{BinaryOperator, ClassMember, Declaration, Expression, Literal, Program, Statement, Type};
use redline_core::grammar::{Expected, ParseErrorKind};
use redline_core::lexer::{LexErrorKind, Lexer};
use redline_core::parser::{parse_source, CompileError, Parser, ParserError};

fn parse(src: &str) -> Vec<Statement> {
    parse_source(src.to_string()).unwrap().statements
}

fn syntax_error(src: &str) -> ParserError {
    match parse_source(src.to_string()) {
        Err(CompileError::Syntax(e)) => e,
        other => panic!("expected a syntax error, got {:?}", other),
    }
}

fn id(s: &str) -> Expression {
    Expression::Identifier(s.to_string())
}

fn num(n: i64) -> Expression {
    Expression::Literal(Literal::Int(n))
}

fn text(s: &str) -> Expression {
    Expression::Literal(Literal::String(s.to_string()))
}

fn bin(op: BinaryOperator, l: Expression, r: Expression) -> Expression {
    Expression::BinaryOp { op, left: Box::new(l), right: Box::new(r) }
}

fn call(callee: Expression, args: Vec<Expression>) -> Expression {
    Expression::Call { callee: Box::new(callee), args }
}

fn to_string_of(e: Expression) -> Expression {
    call(id("to_string"), vec![e])
}

fn expr_of(src: &str) -> Expression {
    match parse(src).remove(0) {
        Statement::Expression(e) => e,
        other => panic!("not an expression statement: {:?}", other),
    }
}

fn init_of(src: &str) -> Expression {
    match parse(src).remove(0) {
        Statement::Declaration(d) => d.initializer,
        other => panic!("not a declaration: {:?}", other),
    }
}

#[test]
fn declaration_with_precedence() {
    assert_eq!(
        parse("val x: int = 1 + 2 * 3"),
        vec![Statement::Declaration(Declaration {
            is_public: false,
            is_mutable: false,
            name: "x".to_string(),
            declared_type: Type::Int,
            initializer: bin(BinaryOperator::Add, num(1), bin(BinaryOperator::Multiply, num(2), num(3))),
        })]
    );
}

#[test]
fn for_loop_over_range() {
    assert_eq!(
        parse("for i in 0..10:\n    print(i)\n"),
        vec![Statement::For {
            iterator: "i".to_string(),
            start: num(0),
            end: num(10),
            body: vec![Statement::Print(id("i"))],
        }]
    );
}

#[test]
fn class_with_constructor() {
    let got = parse("class Box:\n    pub val v: int = 0\n    def init(x: int):\n        this.v = x\n");
    let ctor = redline_core::ast::FunctionDefinition {
        is_public: false,
        name: "init".to_string(),
        params: vec![("x".to_string(), Type::Int)],
        return_type: Type::Void,
        body: vec![Statement::Assignment {
            target: Expression::Get { object: Box::new(Expression::This), name: "v".to_string() },
            value: id("x"),
        }],
    };
    assert_eq!(
        got,
        vec![Statement::Class {
            is_public: false,
            name: "Box".to_string(),
            members: vec![
                ClassMember::Variable(Declaration {
                    is_public: true,
                    is_mutable: false,
                    name: "v".to_string(),
                    declared_type: Type::Int,
                    initializer: num(0),
                }),
                ClassMember::Constructor(ctor),
            ],
        }]
    );
}

#[test]
fn public_class_and_method() {
    match parse("pub class A:\n    def run() -> int:\n        return 1\n").remove(0) {
        Statement::Class { is_public, members, .. } => {
            assert!(is_public);
            assert!(matches!(&members[0], ClassMember::Method(f) if f.name == "run" && f.return_type == Type::Int));
        },
        other => panic!("{:?}", other),
    }
}

#[test]
fn fstring_with_expression() {
    assert_eq!(
        init_of("val s: string = f\"hi {1+1}\""),
        bin(BinaryOperator::Add, text("hi "), to_string_of(bin(BinaryOperator::Add, num(1), num(1))))
    );
}

#[test]
fn fstring_expansions() {
    assert_eq!(expr_of("f\"x={n}\""), bin(BinaryOperator::Add, text("x="), to_string_of(id("n"))));
    assert_eq!(expr_of("f\"\""), text(""));
    assert_eq!(
        expr_of("f\"{a}{b}\""),
        bin(BinaryOperator::Add, bin(BinaryOperator::Add, text(""), to_string_of(id("a"))), to_string_of(id("b")))
    );
    assert_eq!(
        expr_of("f\"{d[1]} end\""),
        bin(
            BinaryOperator::Add,
            bin(BinaryOperator::Add, text(""), to_string_of(Expression::Index { collection: Box::new(id("d")), index: Box::new(num(1)) })),
            text(" end")
        )
    );
}

#[test]
fn nested_fstring() {
    assert_eq!(
        expr_of("f\"a{f\\\"b{c}\\\"}\""),
        bin(BinaryOperator::Add, text("a"), to_string_of(bin(BinaryOperator::Add, text("b"), to_string_of(id("c")))))
    );
}

#[test]
fn malformed_placeholders() {
    for src in ["f\"{\"", "f\"{}\"", "f\"{a b}\"", "x = f\"{$}\""] {
        let e = syntax_error(src);
        assert_eq!(e.kind, ParseErrorKind::MalformedPlaceholder);
    }
    let e = syntax_error("x = f\"{\"");
    assert_eq!((e.line, e.column), (1, 5));
}

#[test]
fn truncated_expression() {
    let e = syntax_error("val e: int = 1 + ");
    assert_eq!(e.kind, ParseErrorKind::ExpectedPrimary);
    assert_eq!((e.line, e.column), (1, 18));
    assert_eq!(e.message(), "Expected a primary expression");
}

#[test]
fn unindent_mismatch_through_parse_source() {
    match parse_source("if a:\n  print(a)\n else:\n  print(0)\n".to_string()) {
        Err(CompileError::Lexical(e)) => assert_eq!(e.kind, LexErrorKind::UnindentMismatch),
        other => panic!("{:?}", other),
    }
}

#[test]
fn empty_and_blank_programs() {
    assert_eq!(parse(""), vec![]);
    assert_eq!(parse("\n\n   \n# hi\n  # indented comment\n\t\n"), vec![]);
}

#[test]
fn trailing_whitespace_without_newline() {
    assert_eq!(parse("print(1)   "), vec![Statement::Print(num(1))]);
    assert_eq!(parse("print(1)\n   "), vec![Statement::Print(num(1))]);
}

#[test]
fn mixed_tabs_and_spaces_in_one_indent() {
    assert_eq!(
        parse("while a:\n\t  b\n      c\n"),
        vec![Statement::While { condition: id("a"), body: vec![Statement::Expression(id("b")), Statement::Expression(id("c"))] }]
    );
}

#[test]
fn operators_of_equal_precedence_associate_left() {
    assert_eq!(
        expr_of("a - b - c"),
        bin(BinaryOperator::Subtract, bin(BinaryOperator::Subtract, id("a"), id("b")), id("c"))
    );
    assert_eq!(
        expr_of("a / b * c"),
        bin(BinaryOperator::Multiply, bin(BinaryOperator::Divide, id("a"), id("b")), id("c"))
    );
    assert_eq!(
        expr_of("a < b == c"),
        bin(BinaryOperator::Equal, bin(BinaryOperator::LessThan, id("a"), id("b")), id("c"))
    );
}

#[test]
fn precedence_levels() {
    assert_eq!(expr_of("a + b * c"), bin(BinaryOperator::Add, id("a"), bin(BinaryOperator::Multiply, id("b"), id("c"))));
    assert_eq!(expr_of("a * b + c"), bin(BinaryOperator::Add, bin(BinaryOperator::Multiply, id("a"), id("b")), id("c")));
    assert_eq!(expr_of("a == b + c"), bin(BinaryOperator::Equal, id("a"), bin(BinaryOperator::Add, id("b"), id("c"))));
    assert_eq!(expr_of("(a + b) * c"), bin(BinaryOperator::Multiply, bin(BinaryOperator::Add, id("a"), id("b")), id("c")));
}

#[test]
fn postfix_chain_nests_left() {
    let get_b = Expression::Get { object: Box::new(id("a")), name: "b".to_string() };
    let idx = Expression::Index { collection: Box::new(call(get_b, vec![num(1)])), index: Box::new(num(2)) };
    assert_eq!(expr_of("a.b(1)[2].c"), Expression::Get { object: Box::new(idx), name: "c".to_string() });
}

#[test]
fn function_without_arrow_returns_void() {
    match parse("def f():\n    return\n").remove(0) {
        Statement::FunctionDefinition(f) => {
            assert_eq!(f.return_type, Type::Void);
            assert_eq!(f.body, vec![Statement::Return(None)]);
            assert!(f.params.is_empty());
        },
        other => panic!("{:?}", other),
    }
}

#[test]
fn function_with_compound_types() {
    match parse("pub def g(a: int, b: list[Box]) -> dict[string, list[int]]:\n    return a\n").remove(0) {
        Statement::FunctionDefinition(f) => {
            assert!(f.is_public);
            assert_eq!(
                f.params,
                vec![
                    ("a".to_string(), Type::Int),
                    ("b".to_string(), Type::List(Box::new(Type::Class("Box".to_string())))),
                ]
            );
            assert_eq!(f.return_type, Type::Dict(Box::new(Type::String), Box::new(Type::List(Box::new(Type::Int)))));
            assert_eq!(f.body, vec![Statement::Return(Some(id("a")))]);
        },
        other => panic!("{:?}", other),
    }
}

#[test]
fn init_is_constructor_others_are_methods() {
    match parse("class C:\n    def init():\n        x = 1\n    def initial():\n        x = 2\n").remove(0) {
        Statement::Class { members, .. } => {
            assert!(matches!(&members[0], ClassMember::Constructor(f) if f.name == "init"));
            assert!(matches!(&members[1], ClassMember::Method(f) if f.name == "initial"));
        },
        other => panic!("{:?}", other),
    }
}

#[test]
fn if_else_while_try() {
    let got = parse("if a:\n    b = 1\nelse:\n    break\nwhile c:\n    continue\ntry:\n    d()\ncatch e:\n    print(e)\n");
    assert_eq!(
        got,
        vec![
            Statement::If {
                condition: id("a"),
                then_block: vec![Statement::Assignment { target: id("b"), value: num(1) }],
                else_block: Some(vec![Statement::Break]),
            },
            Statement::While { condition: id("c"), body: vec![Statement::Continue] },
            Statement::TryCatch {
                try_block: vec![Statement::Expression(call(id("d"), vec![]))],
                catch_var: "e".to_string(),
                catch_block: vec![Statement::Print(id("e"))],
            },
        ]
    );
}

#[test]
fn literals_lists_dicts_new() {
    assert_eq!(
        init_of("var l: list[int] = [1, 2.5, \"s\", true, false, []]"),
        Expression::ListLiteral(vec![
            num(1),
            Expression::Literal(Literal::Float("2.5".to_string())),
            text("s"),
            Expression::Literal(Literal::Bool(true)),
            Expression::Literal(Literal::Bool(false)),
            Expression::ListLiteral(vec![]),
        ])
    );
    assert_eq!(
        init_of("val d: dict[string, int] = {\n    \"a\": 1,\n    \"b\": 2\n}\n"),
        Expression::DictLiteral(vec![(text("a"), num(1)), (text("b"), num(2))])
    );
    assert_eq!(init_of("val d: dict[int, int] = {}"), Expression::DictLiteral(vec![]));
    assert_eq!(
        init_of("val b: Box = new Box(1, x)"),
        Expression::New { class_name: "Box".to_string(), args: vec![num(1), id("x")] }
    );
}

#[test]
fn import_statement() {
    assert_eq!(parse("import \"lib/math\""), vec![Statement::Import("lib/math".to_string())]);
}

#[test]
fn syntax_errors() {
    assert_eq!(syntax_error("pub 5").kind, ParseErrorKind::ExpectedPublicItem);
    let e = syntax_error("x = !a");
    assert_eq!(e.kind, ParseErrorKind::ExpectedPrimary);
    assert_eq!((e.line, e.column), (1, 5));
    assert_eq!(syntax_error("import x").kind, ParseErrorKind::ExpectedStringLiteral);
    assert_eq!(syntax_error("class A:\n    print(1)\n").kind, ParseErrorKind::ExpectedMember);
    assert_eq!(syntax_error("val x int = 1").kind, ParseErrorKind::Expected(Expected::Colon));
    assert_eq!(syntax_error("val x: 5 = 1").kind, ParseErrorKind::ExpectedType);
    assert_eq!(syntax_error("val 5: int = 1").kind, ParseErrorKind::ExpectedIdentifier);
    assert_eq!(syntax_error("if a:\nb\n").kind, ParseErrorKind::Expected(Expected::Indent));
    assert_eq!(syntax_error("f(a,)").kind, ParseErrorKind::ExpectedPrimary);
    assert_eq!(syntax_error("for i 0..1:\n    x\n").kind, ParseErrorKind::Expected(Expected::In));
    assert_eq!(syntax_error("try:\n    x\nfinally:\n    y\n").kind, ParseErrorKind::Expected(Expected::Catch));
    let e = syntax_error("print(1");
    assert_eq!(e.kind, ParseErrorKind::Expected(Expected::RParen));
    assert_eq!(e.message(), "Expected ')'");
}

#[test]
fn parser_over_lexer_tokens() {
    let tokens = Lexer::new("x = 1\n".to_string()).tokenize().unwrap();
    let program = Parser::new(tokens).parse().unwrap();
    assert_eq!(program, Program { statements: vec![Statement::Assignment { target: id("x"), value: num(1) }] });
}

#[test]
fn parser_on_empty_token_list() {
    assert_eq!(Parser::new(vec![]).parse().unwrap(), Program { statements: vec![] });
}

#[test]
fn host_type_names() {
    assert_eq!(Type::Int.to_string(), "int");
    assert_eq!(Type::Float.to_string(), "double");
    assert_eq!(Type::String.to_string(), "std::string");
    assert_eq!(Type::Bool.to_string(), "bool");
    assert_eq!(Type::Void.to_string(), "void");
    assert_eq!(Type::List(Box::new(Type::Int)).to_string(), "std::vector<int>");
    assert_eq!(
        Type::List(Box::new(Type::Class("C".to_string()))).to_string(),
        "std::vector<std::shared_ptr<C>>"
    );
    assert_eq!(
        Type::Dict(Box::new(Type::String), Box::new(Type::Float)).to_string(),
        "std::map<std::string,double>"
    );
    assert_eq!(Type::Class("Box".to_string()).to_string(), "std::shared_ptr<Box>");
}

#[test]
fn operator_symbols() {
    let all = [
        (BinaryOperator::Add, "+"),
        (BinaryOperator::Subtract, "-"),
        (BinaryOperator::Multiply, "*"),
        (BinaryOperator::Divide, "/"),
        (BinaryOperator::Equal, "=="),
        (BinaryOperator::NotEqual, "!="),
        (BinaryOperator::GreaterThan, ">"),
        (BinaryOperator::LessThan, "<"),
        (BinaryOperator::GreaterThanEqual, ">="),
        (BinaryOperator::LessThanEqual, "<="),
    ];
    for (op, sym) in all {
        assert_eq!(op.to_string(), sym);
    }
}

#[test]
fn comparison_operators_parse() {
    assert_eq!(
        expr_of("a >= b != c"),
        bin(BinaryOperator::NotEqual, bin(BinaryOperator::GreaterThanEqual, id("a"), id("b")), id("c"))
    );
    assert_eq!(expr_of("a <= b"), bin(BinaryOperator::LessThanEqual, id("a"), id("b")));
    assert_eq!(expr_of("a > b"), bin(BinaryOperator::GreaterThan, id("a"), id("b")));
}

#[test]
fn error_positions_point_at_offending_token() {
    let e = syntax_error("x = 1\nwhile a\n    b\n");
    assert_eq!(e.kind, ParseErrorKind::Expected(Expected::Colon));
    assert_eq!((e.line, e.column), (2, 8));
    let e = syntax_error("def f(:\n    x\n");
    assert_eq!(e.kind, ParseErrorKind::ExpectedIdentifier);
    assert_eq!((e.line, e.column), (1, 7));
}

#[test]
fn block_needs_its_dedent_before_eof_only_when_open() {
    assert_eq!(parse("if a:\n    b"), vec![Statement::If { condition: id("a"), then_block: vec![Statement::Expression(id("b"))], else_block: None }]);
}
