//! The syntax tree, and its mathematical model: each node type has a view in
//! which strings are character sequences and vectors are sequences.
use vstd::prelude::*;

verus! {

/// The types of REDLINE.
#[derive(Debug, PartialEq)]
pub enum Type {
    Int,
    Float,
    String,
    Bool,
    Void,
    List(Box<Type>),
    Dict(Box<Type>, Box<Type>),
    Class(String),
}

/// A literal value. A float keeps the digits it was written with.
#[derive(Debug, PartialEq)]
pub enum Literal {
    Int(i64),
    Float(String),
    String(String),
    Bool(bool),
}

/// The ten infix operators.
#[derive(Debug, Clone, Copy, PartialEq, Eq, Structural)]
pub enum BinaryOperator {
    Add,
    Subtract,
    Multiply,
    Divide,
    Equal,
    NotEqual,
    GreaterThan,
    LessThan,
    GreaterThanEqual,
    LessThanEqual,
}

#[derive(Debug, PartialEq)]
pub enum Expression {
    Literal(Literal),
    ListLiteral(Vec<Expression>),
    DictLiteral(Vec<(Expression, Expression)>),
    Identifier(String),
    BinaryOp { op: BinaryOperator, left: Box<Expression>, right: Box<Expression> },
    Call { callee: Box<Expression>, args: Vec<Expression> },
    Index { collection: Box<Expression>, index: Box<Expression> },
    Get { object: Box<Expression>, name: String },
    This,
    New { class_name: String, args: Vec<Expression> },
}

/// `val` / `var` declaration.
#[derive(Debug, PartialEq)]
pub struct Declaration {
    pub is_public: bool,
    pub is_mutable: bool,
    pub name: String,
    pub declared_type: Type,
    pub initializer: Expression,
}

/// `def` function definition.
#[derive(Debug, PartialEq)]
pub struct FunctionDefinition {
    pub is_public: bool,
    pub name: String,
    pub params: Vec<(String, Type)>,
    pub return_type: Type,
    pub body: Vec<Statement>,
}

#[derive(Debug, PartialEq)]
pub enum ClassMember {
    Variable(Declaration),
    Method(FunctionDefinition),
    Constructor(FunctionDefinition),
}

#[derive(Debug, PartialEq)]
pub enum Statement {
    Import(String),
    Declaration(Declaration),
    Assignment { target: Expression, value: Expression },
    If { condition: Expression, then_block: Vec<Statement>, else_block: Option<Vec<Statement>> },
    While { condition: Expression, body: Vec<Statement> },
    /// `for iterator in start..end`: the half-open range `[start, end)`.
    For { iterator: String, start: Expression, end: Expression, body: Vec<Statement> },
    Print(Expression),
    Expression(Expression),
    FunctionDefinition(FunctionDefinition),
    Return(Option<Expression>),
    Class { is_public: bool, name: String, members: Vec<ClassMember> },
    TryCatch { try_block: Vec<Statement>, catch_var: String, catch_block: Vec<Statement> },
    Break,
    Continue,
}

/// The root of the tree: the top-level statements in order.
#[derive(Debug, PartialEq)]
pub struct Program {
    pub statements: Vec<Statement>,
}

// The model.

pub enum TypeV {
    Int,
    Float,
    String,
    Bool,
    Void,
    List(Box<TypeV>),
    Dict(Box<TypeV>, Box<TypeV>),
    Class(Seq<char>),
}

pub enum LitV {
    Int(i64),
    Float(Seq<char>),
    Str(Seq<char>),
    Bool(bool),
}

pub enum ExprV {
    Lit(LitV),
    List(Seq<ExprV>),
    Dict(Seq<(ExprV, ExprV)>),
    Ident(Seq<char>),
    Bin(BinaryOperator, Box<ExprV>, Box<ExprV>),
    Call(Box<ExprV>, Seq<ExprV>),
    Index(Box<ExprV>, Box<ExprV>),
    Get(Box<ExprV>, Seq<char>),
    This,
    New(Seq<char>, Seq<ExprV>),
}

pub struct DeclV {
    pub is_public: bool,
    pub is_mutable: bool,
    pub name: Seq<char>,
    pub ty: TypeV,
    pub init: ExprV,
}

pub struct FunV {
    pub is_public: bool,
    pub name: Seq<char>,
    pub params: Seq<(Seq<char>, TypeV)>,
    pub ret: TypeV,
    pub body: Seq<StmtV>,
}

pub enum MemberV {
    Variable(DeclV),
    Method(FunV),
    Constructor(FunV),
}

pub enum StmtV {
    Import(Seq<char>),
    Decl(DeclV),
    Assign(ExprV, ExprV),
    If(ExprV, Seq<StmtV>, Option<Seq<StmtV>>),
    While(ExprV, Seq<StmtV>),
    For(Seq<char>, ExprV, ExprV, Seq<StmtV>),
    Print(ExprV),
    Expr(ExprV),
    Fun(FunV),
    Return(Option<ExprV>),
    Class(bool, Seq<char>, Seq<MemberV>),
    TryCatch(Seq<StmtV>, Seq<char>, Seq<StmtV>),
    Break,
    Continue,
}

/// The host-language spelling of a type.
pub open spec fn host_name(t: TypeV) -> Seq<char>
    decreases t,
{
    match t {
        TypeV::Int => "int"@,
        TypeV::Float => "double"@,
        TypeV::String => "std::string"@,
        TypeV::Bool => "bool"@,
        TypeV::Void => "void"@,
        TypeV::List(e) => "std::vector<"@ + host_name(*e) + ">"@,
        TypeV::Dict(k, v) => "std::map<"@ + host_name(*k) + ","@ + host_name(*v) + ">"@,
        TypeV::Class(c) => "std::shared_ptr<"@ + c + ">"@,
    }
}

/// The symbol of an operator.
pub open spec fn op_symbol(op: BinaryOperator) -> Seq<char> {
    match op {
        BinaryOperator::Add => "+"@,
        BinaryOperator::Subtract => "-"@,
        BinaryOperator::Multiply => "*"@,
        BinaryOperator::Divide => "/"@,
        BinaryOperator::Equal => "=="@,
        BinaryOperator::NotEqual => "!="@,
        BinaryOperator::GreaterThan => ">"@,
        BinaryOperator::LessThan => "<"@,
        BinaryOperator::GreaterThanEqual => ">="@,
        BinaryOperator::LessThanEqual => "<="@,
    }
}

impl BinaryOperator {
    pub fn to_string(&self) -> (r: String)
        ensures
            r@ == op_symbol(*self),
    {
        match self {
            BinaryOperator::Add => String::from_str("+"),
            BinaryOperator::Subtract => String::from_str("-"),
            BinaryOperator::Multiply => String::from_str("*"),
            BinaryOperator::Divide => String::from_str("/"),
            BinaryOperator::Equal => String::from_str("=="),
            BinaryOperator::NotEqual => String::from_str("!="),
            BinaryOperator::GreaterThan => String::from_str(">"),
            BinaryOperator::LessThan => String::from_str("<"),
            BinaryOperator::GreaterThanEqual => String::from_str(">="),
            BinaryOperator::LessThanEqual => String::from_str("<="),
        }
    }
}

impl Type {
    /// The host-language type name: value types by name, lists and dicts as
    /// standard containers, classes behind shared pointers.
    pub fn to_string(&self) -> (r: String)
        ensures
            r@ == host_name(self.view()),
        decreases self,
    {
        match self {
            Type::Int => String::from_str("int"),
            Type::Float => String::from_str("double"),
            Type::String => String::from_str("std::string"),
            Type::Bool => String::from_str("bool"),
            Type::Void => String::from_str("void"),
            Type::List(e) => {
                let mut r = String::from_str("std::vector<");
                let inner = e.to_string();
                r.append(inner.as_str());
                r.append(">");
                r
            },
            Type::Dict(k, v) => {
                let mut r = String::from_str("std::map<");
                let ks = k.to_string();
                r.append(ks.as_str());
                r.append(",");
                let vs = v.to_string();
                r.append(vs.as_str());
                r.append(">");
                r
            },
            Type::Class(c) => {
                let mut r = String::from_str("std::shared_ptr<");
                r.append(c.as_str());
                r.append(">");
                r
            },
        }
    }

    pub open spec fn view(&self) -> TypeV
        decreases self,
    {
        match self {
            Type::Int => TypeV::Int,
            Type::Float => TypeV::Float,
            Type::String => TypeV::String,
            Type::Bool => TypeV::Bool,
            Type::Void => TypeV::Void,
            Type::List(t) => TypeV::List(Box::new(t.view())),
            Type::Dict(k, v) => TypeV::Dict(Box::new(k.view()), Box::new(v.view())),
            Type::Class(n) => TypeV::Class(n@),
        }
    }
}

impl Literal {
    pub open spec fn view(&self) -> LitV {
        match self {
            Literal::Int(n) => LitV::Int(*n),
            Literal::Float(s) => LitV::Float(s@),
            Literal::String(s) => LitV::Str(s@),
            Literal::Bool(b) => LitV::Bool(*b),
        }
    }
}

impl Expression {
    pub open spec fn view(&self) -> ExprV
        decreases self,
    {
        match self {
            Expression::Literal(l) => ExprV::Lit(l.view()),
            Expression::ListLiteral(v) => ExprV::List(
                Seq::new(v.len() as nat, |i: int| if 0 <= i < v.len() { v[i].view() } else { ExprV::This }),
            ),
            Expression::DictLiteral(v) => ExprV::Dict(
                Seq::new(
                    v.len() as nat,
                    |i: int|
                        if 0 <= i < v.len() {
                            (v[i].0.view(), v[i].1.view())
                        } else {
                            (ExprV::This, ExprV::This)
                        },
                ),
            ),
            Expression::Identifier(n) => ExprV::Ident(n@),
            Expression::BinaryOp { op, left, right } => ExprV::Bin(*op, Box::new(left.view()), Box::new(right.view())),
            Expression::Call { callee, args } => ExprV::Call(
                Box::new(callee.view()),
                Seq::new(args.len() as nat, |i: int| if 0 <= i < args.len() { args[i].view() } else { ExprV::This }),
            ),
            Expression::Index { collection, index } => ExprV::Index(Box::new(collection.view()), Box::new(index.view())),
            Expression::Get { object, name } => ExprV::Get(Box::new(object.view()), name@),
            Expression::This => ExprV::This,
            Expression::New { class_name, args } => ExprV::New(
                class_name@,
                Seq::new(args.len() as nat, |i: int| if 0 <= i < args.len() { args[i].view() } else { ExprV::This }),
            ),
        }
    }
}

/// The model of a sequence of expressions.
pub open spec fn exprs_view(v: Seq<Expression>) -> Seq<ExprV> {
    v.map_values(|e: Expression| e.view())
}

pub open spec fn entries_view(v: Seq<(Expression, Expression)>) -> Seq<(ExprV, ExprV)> {
    v.map_values(|e: (Expression, Expression)| (e.0.view(), e.1.view()))
}

pub open spec fn params_view(v: Seq<(String, Type)>) -> Seq<(Seq<char>, TypeV)> {
    v.map_values(|p: (String, Type)| (p.0@, p.1.view()))
}

impl Declaration {
    pub open spec fn view(&self) -> DeclV {
        DeclV {
            is_public: self.is_public,
            is_mutable: self.is_mutable,
            name: self.name@,
            ty: self.declared_type.view(),
            init: self.initializer.view(),
        }
    }
}

impl FunctionDefinition {
    pub open spec fn view(&self) -> FunV
        decreases self,
    {
        FunV {
            is_public: self.is_public,
            name: self.name@,
            params: params_view(self.params@),
            ret: self.return_type.view(),
            body: Seq::new(
                self.body.len() as nat,
                |i: int| if 0 <= i < self.body.len() { self.body[i].view() } else { StmtV::Break },
            ),
        }
    }
}

impl ClassMember {
    pub open spec fn view(&self) -> MemberV
        decreases self,
    {
        match self {
            ClassMember::Variable(d) => MemberV::Variable(d.view()),
            ClassMember::Method(f) => MemberV::Method(f.view()),
            ClassMember::Constructor(f) => MemberV::Constructor(f.view()),
        }
    }
}

impl Statement {
    pub open spec fn view(&self) -> StmtV
        decreases self,
    {
        match self {
            Statement::Import(p) => StmtV::Import(p@),
            Statement::Declaration(d) => StmtV::Decl(d.view()),
            Statement::Assignment { target, value } => StmtV::Assign(target.view(), value.view()),
            Statement::If { condition, then_block, else_block } => StmtV::If(
                condition.view(),
                Seq::new(then_block.len() as nat, |i: int| if 0 <= i < then_block.len() { then_block[i].view() } else { StmtV::Break }),
                match else_block {
                    Some(b) => Some(Seq::new(b.len() as nat, |i: int| if 0 <= i < b.len() { b[i].view() } else { StmtV::Break })),
                    None => None,
                },
            ),
            Statement::While { condition, body } => StmtV::While(
                condition.view(),
                Seq::new(body.len() as nat, |i: int| if 0 <= i < body.len() { body[i].view() } else { StmtV::Break }),
            ),
            Statement::For { iterator, start, end, body } => StmtV::For(
                iterator@,
                start.view(),
                end.view(),
                Seq::new(body.len() as nat, |i: int| if 0 <= i < body.len() { body[i].view() } else { StmtV::Break }),
            ),
            Statement::Print(e) => StmtV::Print(e.view()),
            Statement::Expression(e) => StmtV::Expr(e.view()),
            Statement::FunctionDefinition(f) => StmtV::Fun(f.view()),
            Statement::Return(e) => StmtV::Return(
                match e {
                    Some(x) => Some(x.view()),
                    None => None,
                },
            ),
            Statement::Class { is_public, name, members } => StmtV::Class(
                *is_public,
                name@,
                Seq::new(members.len() as nat, |i: int| if 0 <= i < members.len() { members[i].view() } else { MemberV::Variable(DeclV { is_public: false, is_mutable: false, name: Seq::empty(), ty: TypeV::Void, init: ExprV::This }) }),
            ),
            Statement::TryCatch { try_block, catch_var, catch_block } => StmtV::TryCatch(
                Seq::new(try_block.len() as nat, |i: int| if 0 <= i < try_block.len() { try_block[i].view() } else { StmtV::Break }),
                catch_var@,
                Seq::new(catch_block.len() as nat, |i: int| if 0 <= i < catch_block.len() { catch_block[i].view() } else { StmtV::Break }),
            ),
            Statement::Break => StmtV::Break,
            Statement::Continue => StmtV::Continue,
        }
    }
}

pub open spec fn stmts_view(v: Seq<Statement>) -> Seq<StmtV> {
    v.map_values(|s: Statement| s.view())
}

pub open spec fn members_view(v: Seq<ClassMember>) -> Seq<MemberV> {
    v.map_values(|m: ClassMember| m.view())
}

impl Program {
    pub open spec fn view(&self) -> Seq<StmtV> {
        stmts_view(self.statements@)
    }
}

} // verus!
