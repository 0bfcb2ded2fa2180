use vstd::prelude::*;
use crate::text::{i64_to_string, int_decimal};

verus! {

/// A token of the Arcaea language.
#[derive(Debug, Clone, PartialEq, Eq, Hash)]
pub enum Token {
    Let,
    Print,
    Bridge,
    Func,
    Return,
    Use,
    System,
    Package,
    Service,
    RArrow,
    If,
    Else,
    While,
    True,
    False,
    LBrace,
    RBrace,
    Comma,
    Semicolon,
    Assign,
    LParen,
    RParen,
    Add,
    Sub,
    Mul,
    Div,
    EqEq,
    NotEq,
    Lt,
    Gt,
    Le,
    Ge,
    Identifier(String),
    FloatLit(String),
    Number(i64),
    StringLit(String),
    TypeInt,
    TypeFloat,
    TypeString,
}

/// The mathematical value of a token: strings become character sequences.
pub enum SToken {
    Let,
    Print,
    Bridge,
    Func,
    Return,
    Use,
    System,
    Package,
    Service,
    RArrow,
    If,
    Else,
    While,
    True,
    False,
    LBrace,
    RBrace,
    Comma,
    Semicolon,
    Assign,
    LParen,
    RParen,
    Add,
    Sub,
    Mul,
    Div,
    EqEq,
    NotEq,
    Lt,
    Gt,
    Le,
    Ge,
    Identifier(Seq<char>),
    FloatLit(Seq<char>),
    Number(i64),
    StringLit(Seq<char>),
    TypeInt,
    TypeFloat,
    TypeString,
}

impl View for Token {
    type V = SToken;

    open spec fn view(&self) -> SToken {
        match self {
            Token::Let => SToken::Let,
            Token::Print => SToken::Print,
            Token::Bridge => SToken::Bridge,
            Token::Func => SToken::Func,
            Token::Return => SToken::Return,
            Token::Use => SToken::Use,
            Token::System => SToken::System,
            Token::Package => SToken::Package,
            Token::Service => SToken::Service,
            Token::RArrow => SToken::RArrow,
            Token::If => SToken::If,
            Token::Else => SToken::Else,
            Token::While => SToken::While,
            Token::True => SToken::True,
            Token::False => SToken::False,
            Token::LBrace => SToken::LBrace,
            Token::RBrace => SToken::RBrace,
            Token::Comma => SToken::Comma,
            Token::Semicolon => SToken::Semicolon,
            Token::Assign => SToken::Assign,
            Token::LParen => SToken::LParen,
            Token::RParen => SToken::RParen,
            Token::Add => SToken::Add,
            Token::Sub => SToken::Sub,
            Token::Mul => SToken::Mul,
            Token::Div => SToken::Div,
            Token::EqEq => SToken::EqEq,
            Token::NotEq => SToken::NotEq,
            Token::Lt => SToken::Lt,
            Token::Gt => SToken::Gt,
            Token::Le => SToken::Le,
            Token::Ge => SToken::Ge,
            Token::Identifier(s) => SToken::Identifier(s@),
            Token::FloatLit(s) => SToken::FloatLit(s@),
            Token::Number(n) => SToken::Number(*n),
            Token::StringLit(s) => SToken::StringLit(s@),
            Token::TypeInt => SToken::TypeInt,
            Token::TypeFloat => SToken::TypeFloat,
            Token::TypeString => SToken::TypeString,
        }
    }
}

/// The text by which a token is shown to a user (in error messages, for
/// instance): the keyword or symbol itself, or a description of a literal.
pub open spec fn spec_token_text(t: SToken) -> Seq<char> {
    match t {
        SToken::Let => "let"@,
        SToken::Print => "print"@,
        SToken::Bridge => "bridge"@,
        SToken::Func => "func"@,
        SToken::Return => "return"@,
        SToken::Use => "use"@,
        SToken::System => "system"@,
        SToken::Package => "package"@,
        SToken::Service => "service"@,
        SToken::RArrow => "->"@,
        SToken::If => "if"@,
        SToken::Else => "else"@,
        SToken::While => "while"@,
        SToken::True => "true"@,
        SToken::False => "false"@,
        SToken::LBrace => "{"@,
        SToken::RBrace => "}"@,
        SToken::Comma => ","@,
        SToken::Semicolon => ";"@,
        SToken::Assign => "="@,
        SToken::LParen => "("@,
        SToken::RParen => ")"@,
        SToken::Add => "+"@,
        SToken::Sub => "-"@,
        SToken::Mul => "*"@,
        SToken::Div => "/"@,
        SToken::EqEq => "=="@,
        SToken::NotEq => "!="@,
        SToken::Lt => "<"@,
        SToken::Gt => ">"@,
        SToken::Le => "<="@,
        SToken::Ge => ">="@,
        SToken::Identifier(s) => "identifier '"@ + s + "'"@,
        SToken::FloatLit(s) => "float "@ + s,
        SToken::Number(n) => "number "@ + int_decimal(n as int),
        SToken::StringLit(s) => "string '"@ + s + "'"@,
        SToken::TypeInt => "Int"@,
        SToken::TypeFloat => "Float"@,
        SToken::TypeString => "String"@,
    }
}

fn lit(s: &str) -> (r: String)
    ensures
        r@ == s@,
{
    s.to_owned()
}

fn prefixed(prefix: &str, s: &String) -> (r: String)
    ensures
        r@ == prefix@ + s@,
{
    let mut r = prefix.to_owned();
    r.append(s.as_str());
    r
}

fn quoted(prefix: &str, s: &String, suffix: &str) -> (r: String)
    ensures
        r@ == prefix@ + s@ + suffix@,
{
    let mut r = prefix.to_owned();
    r.append(s.as_str());
    r.append(suffix);
    r
}

impl Token {
    /// The text by which this token is shown to a user.
    pub fn to_display_string(&self) -> (r: String)
        ensures
            r@ == spec_token_text(self@),
    {
        match self {
            Token::Let => lit("let"),
            Token::Print => lit("print"),
            Token::Bridge => lit("bridge"),
            Token::Func => lit("func"),
            Token::Return => lit("return"),
            Token::Use => lit("use"),
            Token::System => lit("system"),
            Token::Package => lit("package"),
            Token::Service => lit("service"),
            Token::RArrow => lit("->"),
            Token::If => lit("if"),
            Token::Else => lit("else"),
            Token::While => lit("while"),
            Token::True => lit("true"),
            Token::False => lit("false"),
            Token::LBrace => lit("{"),
            Token::RBrace => lit("}"),
            Token::Comma => lit(","),
            Token::Semicolon => lit(";"),
            Token::Assign => lit("="),
            Token::LParen => lit("("),
            Token::RParen => lit(")"),
            Token::Add => lit("+"),
            Token::Sub => lit("-"),
            Token::Mul => lit("*"),
            Token::Div => lit("/"),
            Token::EqEq => lit("=="),
            Token::NotEq => lit("!="),
            Token::Lt => lit("<"),
            Token::Gt => lit(">"),
            Token::Le => lit("<="),
            Token::Ge => lit(">="),
            Token::Identifier(s) => quoted("identifier '", s, "'"),
            Token::FloatLit(s) => prefixed("float ", s),
            Token::Number(n) => {
                let d = i64_to_string(*n);
                prefixed("number ", &d)
            },
            Token::StringLit(s) => quoted("string '", s, "'"),
            Token::TypeInt => lit("Int"),
            Token::TypeFloat => lit("Float"),
            Token::TypeString => lit("String"),
        }
    }

    /// A copy of this token with the same value.
    pub fn duplicate(&self) -> (r: Token)
        ensures
            r@ == self@,
    {
        match self {
            Token::Identifier(s) => Token::Identifier(s.clone()),
            Token::FloatLit(s) => Token::FloatLit(s.clone()),
            Token::StringLit(s) => Token::StringLit(s.clone()),
            Token::Number(n) => Token::Number(*n),
            Token::Let => Token::Let,
            Token::Print => Token::Print,
            Token::Bridge => Token::Bridge,
            Token::Func => Token::Func,
            Token::Return => Token::Return,
            Token::Use => Token::Use,
            Token::System => Token::System,
            Token::Package => Token::Package,
            Token::Service => Token::Service,
            Token::RArrow => Token::RArrow,
            Token::If => Token::If,
            Token::Else => Token::Else,
            Token::While => Token::While,
            Token::True => Token::True,
            Token::False => Token::False,
            Token::LBrace => Token::LBrace,
            Token::RBrace => Token::RBrace,
            Token::Comma => Token::Comma,
            Token::Semicolon => Token::Semicolon,
            Token::Assign => Token::Assign,
            Token::LParen => Token::LParen,
            Token::RParen => Token::RParen,
            Token::Add => Token::Add,
            Token::Sub => Token::Sub,
            Token::Mul => Token::Mul,
            Token::Div => Token::Div,
            Token::EqEq => Token::EqEq,
            Token::NotEq => Token::NotEq,
            Token::Lt => Token::Lt,
            Token::Gt => Token::Gt,
            Token::Le => Token::Le,
            Token::Ge => Token::Ge,
            Token::TypeInt => Token::TypeInt,
            Token::TypeFloat => Token::TypeFloat,
            Token::TypeString => Token::TypeString,
        }
    }
}

} // verus!
