//! The lexer: from source text to tokens.
//!
//! At each position the longest token wins; a keyword wins over a name of the
//! same length. Whitespace (space, tab, newline, carriage return, form feed) and
//! `//` comments are skipped. A character that starts no token is skipped, and a
//! string literal that is never closed is skipped up to the end of the text.
use vstd::prelude::*;
use crate::token::{Token, SToken, spec_token_text};
use crate::parser::toks_view;
use crate::text::{push_char, chars_of};

verus! {

pub enum CharClass {
    Space,
    IdentChar,
    Digit,
    NotNewline,
    NotQuote,
}

pub open spec fn is_space(c: char) -> bool {
    c == ' ' || c == '\t' || c == '\n' || c == '\r' || c == '\x0C'
}

pub open spec fn is_ident_start(c: char) -> bool {
    ('a' <= c && c <= 'z') || ('A' <= c && c <= 'Z') || c == '_'
}

pub open spec fn is_digit(c: char) -> bool {
    '0' <= c && c <= '9'
}

pub open spec fn in_class(k: CharClass, c: char) -> bool {
    match k {
        CharClass::Space => is_space(c),
        CharClass::IdentChar => is_ident_start(c) || is_digit(c),
        CharClass::Digit => is_digit(c),
        CharClass::NotNewline => c != '\n',
        CharClass::NotQuote => c != '"',
    }
}

/// The end of the run of characters of class `k` that starts at `i`.
pub open spec fn end_while(s: Seq<char>, i: int, k: CharClass) -> int
    decreases s.len() - i,
{
    if 0 <= i < s.len() && in_class(k, s[i]) {
        end_while(s, i + 1, k)
    } else {
        i
    }
}

pub open spec fn char_at(s: Seq<char>, i: int) -> Option<char> {
    if 0 <= i < s.len() {
        Some(s[i])
    } else {
        None
    }
}

/// The value of the decimal digits `s[a..b]`.
pub open spec fn digits_value(s: Seq<char>, a: int, b: int) -> int
    decreases b - a,
{
    if b <= a {
        0
    } else {
        digits_value(s, a, b - 1) * 10 + (s[b - 1] as int - 48)
    }
}

/// The keyword that a word spells, if any.
pub open spec fn keyword(w: Seq<char>) -> Option<SToken> {
    if w == seq!['l', 'e', 't'] {
        Some(SToken::Let)
    } else if w == seq!['p', 'r', 'i', 'n', 't'] {
        Some(SToken::Print)
    } else if w == seq!['b', 'r', 'i', 'd', 'g', 'e'] {
        Some(SToken::Bridge)
    } else if w == seq!['f', 'u', 'n', 'c'] {
        Some(SToken::Func)
    } else if w == seq!['r', 'e', 't', 'u', 'r', 'n'] {
        Some(SToken::Return)
    } else if w == seq!['u', 's', 'e'] {
        Some(SToken::Use)
    } else if w == seq!['s', 'y', 's', 't', 'e', 'm'] {
        Some(SToken::System)
    } else if w == seq!['p', 'a', 'c', 'k', 'a', 'g', 'e'] {
        Some(SToken::Package)
    } else if w == seq!['s', 'e', 'r', 'v', 'i', 'c', 'e'] {
        Some(SToken::Service)
    } else if w == seq!['i', 'f'] {
        Some(SToken::If)
    } else if w == seq!['e', 'l', 's', 'e'] {
        Some(SToken::Else)
    } else if w == seq!['w', 'h', 'i', 'l', 'e'] {
        Some(SToken::While)
    } else if w == seq!['t', 'r', 'u', 'e'] {
        Some(SToken::True)
    } else if w == seq!['f', 'a', 'l', 's', 'e'] {
        Some(SToken::False)
    } else if w == seq!['I', 'n', 't'] {
        Some(SToken::TypeInt)
    } else if w == seq!['F', 'l', 'o', 'a', 't'] {
        Some(SToken::TypeFloat)
    } else if w == seq!['S', 't', 'r', 'i', 'n', 'g'] {
        Some(SToken::TypeString)
    } else {
        None
    }
}

/// What one step of the lexer yields.
pub enum LexKind {
    /// A token other than a number.
    Tok(SToken),
    /// An integer literal and its value (which may not fit in 64 bits).
    Num(int),
    /// Whitespace or a comment.
    Skip,
    /// Text that starts no token.
    Error,
}

/// The single-character tokens.
pub open spec fn single(c: char) -> Option<SToken> {
    if c == '{' {
        Some(SToken::LBrace)
    } else if c == '}' {
        Some(SToken::RBrace)
    } else if c == ',' {
        Some(SToken::Comma)
    } else if c == ';' {
        Some(SToken::Semicolon)
    } else if c == '(' {
        Some(SToken::LParen)
    } else if c == ')' {
        Some(SToken::RParen)
    } else if c == '+' {
        Some(SToken::Add)
    } else if c == '*' {
        Some(SToken::Mul)
    } else {
        None
    }
}

/// The token that starts at position `i` (where `0 <= i < s.len()`), and where it ends.
pub open spec fn scan(s: Seq<char>, i: int) -> (LexKind, int) {
    let c = s[i];
    let next = char_at(s, i + 1);
    if is_space(c) {
        (LexKind::Skip, end_while(s, i, CharClass::Space))
    } else if c == '/' && next == Some('/') {
        (LexKind::Skip, end_while(s, i + 2, CharClass::NotNewline))
    } else if c == '/' {
        (LexKind::Tok(SToken::Div), i + 1)
    } else if c == '"' {
        let j = end_while(s, i + 1, CharClass::NotQuote);
        if j < s.len() {
            (LexKind::Tok(SToken::StringLit(s.subrange(i + 1, j))), j + 1)
        } else {
            (LexKind::Error, s.len() as int)
        }
    } else if is_ident_start(c) {
        let e = end_while(s, i + 1, CharClass::IdentChar);
        let w = s.subrange(i, e);
        match keyword(w) {
            Some(k) => (LexKind::Tok(k), e),
            None => (LexKind::Tok(SToken::Identifier(w)), e),
        }
    } else if is_digit(c) || (c == '-' && next is Some && is_digit(next->0)) {
        let a = if c == '-' { i + 1 } else { i };
        let d = end_while(s, a, CharClass::Digit);
        if char_at(s, d) == Some('.') && char_at(s, d + 1) is Some && is_digit(s[d + 1]) {
            let f = end_while(s, d + 1, CharClass::Digit);
            (LexKind::Tok(SToken::FloatLit(s.subrange(i, f))), f)
        } else {
            let v = digits_value(s, a, d);
            (LexKind::Num(if c == '-' { -v } else { v }), d)
        }
    } else if c == '-' {
        if next == Some('>') {
            (LexKind::Tok(SToken::RArrow), i + 2)
        } else {
            (LexKind::Tok(SToken::Sub), i + 1)
        }
    } else if c == '=' {
        if next == Some('=') {
            (LexKind::Tok(SToken::EqEq), i + 2)
        } else {
            (LexKind::Tok(SToken::Assign), i + 1)
        }
    } else if c == '!' {
        if next == Some('=') {
            (LexKind::Tok(SToken::NotEq), i + 2)
        } else {
            (LexKind::Error, i + 1)
        }
    } else if c == '<' {
        if next == Some('=') {
            (LexKind::Tok(SToken::Le), i + 2)
        } else {
            (LexKind::Tok(SToken::Lt), i + 1)
        }
    } else if c == '>' {
        if next == Some('=') {
            (LexKind::Tok(SToken::Ge), i + 2)
        } else {
            (LexKind::Tok(SToken::Gt), i + 1)
        }
    } else {
        match single(c) {
            Some(k) => (LexKind::Tok(k), i + 1),
            None => (LexKind::Error, i + 1),
        }
    }
}

pub open spec fn fits_i64(v: int) -> bool {
    i64::MIN <= v <= i64::MAX
}

/// The tokens from position `i` on, each with the character positions it spans.
pub open spec fn lex_from(s: Seq<char>, i: int) -> Seq<(SToken, int, int)>
    decreases s.len() - i,
{
    if i < 0 || i >= s.len() {
        Seq::empty()
    } else {
        let (k, j) = scan(s, i);
        if j <= i || j > s.len() {
            Seq::empty()
        } else {
            match k {
                LexKind::Tok(t) => seq![(t, i, j)] + lex_from(s, j),
                LexKind::Num(v) => seq![(SToken::Number(v as i64), i, j)] + lex_from(s, j),
                _ => lex_from(s, j),
            }
        }
    }
}

/// Every integer literal from position `i` on fits in 64 bits.
pub open spec fn lex_fits_from(s: Seq<char>, i: int) -> bool
    decreases s.len() - i,
{
    if i < 0 || i >= s.len() {
        true
    } else {
        let (k, j) = scan(s, i);
        if j <= i || j > s.len() {
            true
        } else {
            match k {
                LexKind::Num(v) => fits_i64(v) && lex_fits_from(s, j),
                _ => lex_fits_from(s, j),
            }
        }
    }
}

/// The tokens of a text.
pub open spec fn spec_tokens(s: Seq<char>) -> Seq<SToken> {
    lex_from(s, 0).map_values(|x: (SToken, int, int)| x.0)
}

// ---------------------------------------------------------------------------
// Facts about the scanning functions
// ---------------------------------------------------------------------------

pub proof fn lemma_end_while(s: Seq<char>, i: int, k: CharClass)
    requires
        0 <= i <= s.len(),
    ensures
        i <= end_while(s, i, k) <= s.len(),
        forall|j: int| i <= j < end_while(s, i, k) ==> in_class(k, #[trigger] s[j]),
        end_while(s, i, k) < s.len() ==> !in_class(k, s[end_while(s, i, k)]),
    decreases s.len() - i,
{
    if i < s.len() && in_class(k, s[i]) {
        lemma_end_while(s, i + 1, k);
    }
}

/// A text that is one token from its first character to its last lexes to that
/// token alone.
proof fn lemma_lex_one(s: Seq<char>, t: SToken)
    requires
        s.len() > 0,
        scan(s, 0) == (LexKind::Tok(t), s.len() as int),
    ensures
        spec_tokens(s) == seq![t],
{
    assert(lex_from(s, s.len() as int) == Seq::<(SToken, int, int)>::empty());
    assert(lex_from(s, 0) =~= seq![(t, 0int, s.len() as int)]);
    assert(spec_tokens(s) =~= seq![t]);
}

/// A word made of name characters that spells a keyword lexes to that keyword.
proof fn lemma_lex_keyword(s: Seq<char>)
    requires
        s.len() > 0,
        is_ident_start(s[0]),
        forall|j: int| 1 <= j < s.len() ==> is_ident_start(#[trigger] s[j]),
        keyword(s) is Some,
    ensures
        spec_tokens(s) == seq![keyword(s)->0],
{
    lemma_end_while(s, 1, CharClass::IdentChar);
    assert(s.subrange(0, s.len() as int) =~= s);
    lemma_lex_one(s, keyword(s)->0);
}

/// A name — a letter or `_` followed by letters, digits and `_` — that is not a
/// keyword lexes to one identifier token holding the whole name.
pub proof fn law_name_lexes_to_one_identifier(s: Seq<char>)
    requires
        s.len() > 0,
        ('a' <= s[0] && s[0] <= 'z') || ('A' <= s[0] && s[0] <= 'Z') || s[0] == '_',
        forall|j: int|
            1 <= j < s.len() ==> {
                let c = #[trigger] s[j];
                ('a' <= c && c <= 'z') || ('A' <= c && c <= 'Z') || c == '_' || ('0' <= c && c <= '9')
            },
        keyword(s) is None,
    ensures
        spec_tokens(s) == seq![SToken::Identifier(s)],
{
    assert forall|j: int| 1 <= j < s.len() implies in_class(CharClass::IdentChar, #[trigger] s[j]) by {
        let c = s[j];
    }
    lemma_end_while(s, 1, CharClass::IdentChar);
    if end_while(s, 1, CharClass::IdentChar) < s.len() {
        let e = end_while(s, 1, CharClass::IdentChar);
        assert(in_class(CharClass::IdentChar, s[e]));
    }
    assert(s.subrange(0, s.len() as int) =~= s);
    lemma_lex_one(s, SToken::Identifier(s));
}

/// A token without a value is shown as the text that spells it: lexing the
/// text by which it is shown gives the token back.
pub proof fn law_display_text_lexes_back(t: SToken)
    requires
        !(t is Identifier || t is FloatLit || t is Number || t is StringLit),
    ensures
        spec_tokens(spec_token_text(t)) == seq![t],
{
    match t {
        SToken::Let => { reveal_strlit("let"); assert("let"@ =~= seq!['l', 'e', 't']); lemma_lex_keyword("let"@); },
        SToken::Print => { reveal_strlit("print"); assert("print"@ =~= seq!['p', 'r', 'i', 'n', 't']); lemma_lex_keyword("print"@); },
        SToken::Bridge => { reveal_strlit("bridge"); assert("bridge"@ =~= seq!['b', 'r', 'i', 'd', 'g', 'e']); lemma_lex_keyword("bridge"@); },
        SToken::Func => { reveal_strlit("func"); assert("func"@ =~= seq!['f', 'u', 'n', 'c']); lemma_lex_keyword("func"@); },
        SToken::Return => { reveal_strlit("return"); assert("return"@ =~= seq!['r', 'e', 't', 'u', 'r', 'n']); lemma_lex_keyword("return"@); },
        SToken::Use => { reveal_strlit("use"); assert("use"@ =~= seq!['u', 's', 'e']); lemma_lex_keyword("use"@); },
        SToken::System => { reveal_strlit("system"); assert("system"@ =~= seq!['s', 'y', 's', 't', 'e', 'm']); lemma_lex_keyword("system"@); },
        SToken::Package => { reveal_strlit("package"); assert("package"@ =~= seq!['p', 'a', 'c', 'k', 'a', 'g', 'e']); lemma_lex_keyword("package"@); },
        SToken::Service => { reveal_strlit("service"); assert("service"@ =~= seq!['s', 'e', 'r', 'v', 'i', 'c', 'e']); lemma_lex_keyword("service"@); },
        SToken::If => { reveal_strlit("if"); assert("if"@ =~= seq!['i', 'f']); lemma_lex_keyword("if"@); },
        SToken::Else => { reveal_strlit("else"); assert("else"@ =~= seq!['e', 'l', 's', 'e']); lemma_lex_keyword("else"@); },
        SToken::While => { reveal_strlit("while"); assert("while"@ =~= seq!['w', 'h', 'i', 'l', 'e']); lemma_lex_keyword("while"@); },
        SToken::True => { reveal_strlit("true"); assert("true"@ =~= seq!['t', 'r', 'u', 'e']); lemma_lex_keyword("true"@); },
        SToken::False => { reveal_strlit("false"); assert("false"@ =~= seq!['f', 'a', 'l', 's', 'e']); lemma_lex_keyword("false"@); },
        SToken::TypeInt => { reveal_strlit("Int"); assert("Int"@ =~= seq!['I', 'n', 't']); lemma_lex_keyword("Int"@); },
        SToken::TypeFloat => { reveal_strlit("Float"); assert("Float"@ =~= seq!['F', 'l', 'o', 'a', 't']); lemma_lex_keyword("Float"@); },
        SToken::TypeString => { reveal_strlit("String"); assert("String"@ =~= seq!['S', 't', 'r', 'i', 'n', 'g']); lemma_lex_keyword("String"@); },
        SToken::RArrow => { reveal_strlit("->"); lemma_lex_one("->"@, t); },
        SToken::LBrace => { reveal_strlit("{"); lemma_lex_one("{"@, t); },
        SToken::RBrace => { reveal_strlit("}"); lemma_lex_one("}"@, t); },
        SToken::Comma => { reveal_strlit(","); lemma_lex_one(","@, t); },
        SToken::Semicolon => { reveal_strlit(";"); lemma_lex_one(";"@, t); },
        SToken::Assign => { reveal_strlit("="); lemma_lex_one("="@, t); },
        SToken::LParen => { reveal_strlit("("); lemma_lex_one("("@, t); },
        SToken::RParen => { reveal_strlit(")"); lemma_lex_one(")"@, t); },
        SToken::Add => { reveal_strlit("+"); lemma_lex_one("+"@, t); },
        SToken::Sub => { reveal_strlit("-"); lemma_lex_one("-"@, t); },
        SToken::Mul => { reveal_strlit("*"); lemma_lex_one("*"@, t); },
        SToken::Div => { reveal_strlit("/"); lemma_lex_one("/"@, t); },
        SToken::EqEq => { reveal_strlit("=="); lemma_lex_one("=="@, t); },
        SToken::NotEq => { reveal_strlit("!="); lemma_lex_one("!="@, t); },
        SToken::Lt => { reveal_strlit("<"); lemma_lex_one("<"@, t); },
        SToken::Gt => { reveal_strlit(">"); lemma_lex_one(">"@, t); },
        SToken::Le => { reveal_strlit("<="); lemma_lex_one("<="@, t); },
        SToken::Ge => { reveal_strlit(">="); lemma_lex_one(">="@, t); },
        _ => {},
    }
}

/// The value of a run of digits is not negative.
pub proof fn lemma_digits_value_nonneg(s: Seq<char>, a: int, b: int)
    requires
        forall|j: int| a <= j < b ==> is_digit(#[trigger] s[j]),
    ensures
        digits_value(s, a, b) >= 0,
    decreases b - a,
{
    if b > a {
        lemma_digits_value_nonneg(s, a, b - 1);
    }
}

pub proof fn lemma_scan_advances(s: Seq<char>, i: int)
    requires
        0 <= i < s.len(),
    ensures
        i < scan(s, i).1 <= s.len(),
{
    let c = s[i];
    if is_space(c) {
        lemma_end_while(s, i, CharClass::Space);
    } else if c == '/' && char_at(s, i + 1) == Some('/') {
        lemma_end_while(s, i + 2, CharClass::NotNewline);
    } else if c == '"' {
        lemma_end_while(s, i + 1, CharClass::NotQuote);
    } else if is_ident_start(c) {
        lemma_end_while(s, i + 1, CharClass::IdentChar);
    } else if is_digit(c) || (c == '-' && char_at(s, i + 1) is Some && is_digit(s[i + 1])) {
        let a = if c == '-' { i + 1 } else { i };
        lemma_end_while(s, a, CharClass::Digit);
        let d = end_while(s, a, CharClass::Digit);
        if char_at(s, d) == Some('.') && char_at(s, d + 1) is Some && is_digit(s[d + 1]) {
            lemma_end_while(s, d + 1, CharClass::Digit);
        }
    }
}

// ---------------------------------------------------------------------------
// The executable lexer
// ---------------------------------------------------------------------------

fn x_in_class(k: &CharClass, c: char) -> (r: bool)
    ensures
        r == in_class(*k, c),
{
    match k {
        CharClass::Space => c == ' ' || c == '\t' || c == '\n' || c == '\r' || c == '\x0C',
        CharClass::IdentChar => ('a' <= c && c <= 'z') || ('A' <= c && c <= 'Z') || c == '_' || (
        '0' <= c && c <= '9'),
        CharClass::Digit => '0' <= c && c <= '9',
        CharClass::NotNewline => c != '\n',
        CharClass::NotQuote => c != '"',
    }
}

fn x_end_while(cs: &Vec<char>, i: usize, k: CharClass) -> (r: usize)
    requires
        i <= cs@.len(),
    ensures
        r == end_while(cs@, i as int, k),
        i <= r <= cs@.len(),
{
    let mut j = i;
    while j < cs.len() && x_in_class(&k, cs[j])
        invariant
            i <= j <= cs@.len(),
            end_while(cs@, i as int, k) == end_while(cs@, j as int, k),
        decreases cs@.len() - j,
    {
        j = j + 1;
    }
    j
}

fn x_char_at(cs: &Vec<char>, i: usize) -> (r: Option<char>)
    ensures
        r == char_at(cs@, i as int),
{
    if i < cs.len() {
        Some(cs[i])
    } else {
        None
    }
}

/// The characters `cs[a..b]` as a string.
fn string_of_range(cs: &Vec<char>, a: usize, b: usize) -> (r: String)
    requires
        a <= b <= cs@.len(),
    ensures
        r@ == cs@.subrange(a as int, b as int),
{
    let mut r = String::new();
    let mut j = a;
    while j < b
        invariant
            a <= j <= b <= cs@.len(),
            r@ == cs@.subrange(a as int, j as int),
        decreases b - j,
    {
        push_char(&mut r, cs[j]);
        assert(cs@.subrange(a as int, j as int).push(cs@[j as int]) =~= cs@.subrange(a as int, j + 1));
        j = j + 1;
    }
    r
}

fn word_is(cs: &Vec<char>, a: usize, b: usize, w: &[char]) -> (r: bool)
    requires
        a <= b <= cs@.len(),
    ensures
        r == (cs@.subrange(a as int, b as int) == w@),
{
    if b - a != w.len() {
        assert(cs@.subrange(a as int, b as int).len() != w@.len());
        return false;
    }
    let mut j: usize = 0;
    while j < w.len()
        invariant
            b - a == w@.len(),
            a <= b <= cs@.len(),
            j <= w@.len(),
            forall|m: int| 0 <= m < j ==> cs@[a + m] == w@[m],
        decreases w@.len() - j,
    {
        if cs[a + j] != w[j] {
            assert(cs@.subrange(a as int, b as int)[j as int] != w@[j as int]);
            return false;
        }
        j = j + 1;
    }
    assert(cs@.subrange(a as int, b as int) =~= w@);
    true
}

fn x_keyword(cs: &Vec<char>, a: usize, b: usize) -> (r: Option<Token>)
    requires
        a <= b <= cs@.len(),
    ensures
        match r {
            Some(t) => keyword(cs@.subrange(a as int, b as int)) == Some(t@),
            None => keyword(cs@.subrange(a as int, b as int)) is None,
        },
{
    if word_is(cs, a, b, &['l', 'e', 't']) {
        Some(Token::Let)
    } else if word_is(cs, a, b, &['p', 'r', 'i', 'n', 't']) {
        Some(Token::Print)
    } else if word_is(cs, a, b, &['b', 'r', 'i', 'd', 'g', 'e']) {
        Some(Token::Bridge)
    } else if word_is(cs, a, b, &['f', 'u', 'n', 'c']) {
        Some(Token::Func)
    } else if word_is(cs, a, b, &['r', 'e', 't', 'u', 'r', 'n']) {
        Some(Token::Return)
    } else if word_is(cs, a, b, &['u', 's', 'e']) {
        Some(Token::Use)
    } else if word_is(cs, a, b, &['s', 'y', 's', 't', 'e', 'm']) {
        Some(Token::System)
    } else if word_is(cs, a, b, &['p', 'a', 'c', 'k', 'a', 'g', 'e']) {
        Some(Token::Package)
    } else if word_is(cs, a, b, &['s', 'e', 'r', 'v', 'i', 'c', 'e']) {
        Some(Token::Service)
    } else if word_is(cs, a, b, &['i', 'f']) {
        Some(Token::If)
    } else if word_is(cs, a, b, &['e', 'l', 's', 'e']) {
        Some(Token::Else)
    } else if word_is(cs, a, b, &['w', 'h', 'i', 'l', 'e']) {
        Some(Token::While)
    } else if word_is(cs, a, b, &['t', 'r', 'u', 'e']) {
        Some(Token::True)
    } else if word_is(cs, a, b, &['f', 'a', 'l', 's', 'e']) {
        Some(Token::False)
    } else if word_is(cs, a, b, &['I', 'n', 't']) {
        Some(Token::TypeInt)
    } else if word_is(cs, a, b, &['F', 'l', 'o', 'a', 't']) {
        Some(Token::TypeFloat)
    } else if word_is(cs, a, b, &['S', 't', 'r', 'i', 'n', 'g']) {
        Some(Token::TypeString)
    } else {
        None
    }
}

/// The value of the digits `cs[a..d]`, negated when `neg`, if it fits in 64 bits.
fn x_number(cs: &Vec<char>, a: usize, d: usize, neg: bool) -> (r: Option<i64>)
    requires
        a <= d <= cs@.len(),
        forall|j: int| a <= j < d ==> is_digit(#[trigger] cs@[j]),
    ensures
        ({
            let v = if neg { -digits_value(cs@, a as int, d as int) } else { digits_value(cs@, a as int, d as int) };
            match r {
                Some(n) => fits_i64(v) && n == v,
                None => !fits_i64(v),
            }
        }),
{
    let ghost s = cs@;
    let mut mag: u64 = 0;
    let mut overflow = false;
    let mut k = a;
    while k < d
        invariant
            a <= k <= d <= s.len(),
            s == cs@,
            forall|j: int| a <= j < d ==> is_digit(#[trigger] s[j]),
            !overflow ==> mag == digits_value(s, a as int, k as int),
            overflow ==> digits_value(s, a as int, k as int) > u64::MAX,
        decreases d - k,
    {
        let dig: u64 = (cs[k] as u32 - 48) as u64;
        assert(is_digit(s[k as int]));
        proof {
            lemma_digits_value_nonneg(s, a as int, k as int);
        }
        let ghost prev = digits_value(s, a as int, k as int);
        assert(digits_value(s, a as int, k + 1) == prev * 10 + dig);
        if !overflow {
            if mag > (u64::MAX - dig) / 10 {
                overflow = true;
                assert(prev * 10 + dig > u64::MAX) by (nonlinear_arith)
                    requires
                        prev == mag,
                        mag > (u64::MAX - dig) / 10,
                        dig <= 9,
                ;
            } else {
                assert(mag * 10 + dig <= u64::MAX) by (nonlinear_arith)
                    requires
                        mag <= (u64::MAX - dig) / 10,
                        dig <= 9,
                ;
                mag = mag * 10 + dig;
            }
        } else {
            assert(prev * 10 + dig > u64::MAX) by (nonlinear_arith)
                requires
                    prev > u64::MAX,
                    dig >= 0,
            ;
        }
        k = k + 1;
    }
    if overflow {
        return None;
    }
    if neg {
        if mag <= 0x8000_0000_0000_0000u64 {
            if mag == 0x8000_0000_0000_0000u64 {
                Some(i64::MIN)
            } else {
                Some(-(mag as i64))
            }
        } else {
            None
        }
    } else {
        if mag <= 0x7fff_ffff_ffff_ffffu64 {
            Some(mag as i64)
        } else {
            None
        }
    }
}

/// What one step of the executable lexer yields.
enum Step {
    Tok(Token),
    Num(Option<i64>),
    Skip,
    Error,
}

spec fn step_matches(st: Step, k: LexKind) -> bool {
    match (st, k) {
        (Step::Tok(t), LexKind::Tok(u)) => t@ == u,
        (Step::Num(Some(n)), LexKind::Num(v)) => fits_i64(v) && n == v,
        (Step::Num(None), LexKind::Num(v)) => !fits_i64(v),
        (Step::Skip, LexKind::Skip) => true,
        (Step::Error, LexKind::Error) => true,
        _ => false,
    }
}

fn two(cs: &Vec<char>, i: usize, second: char, both: Token, one: Token) -> (r: (Step, usize))
    requires
        i < cs@.len() < usize::MAX,
    ensures
        char_at(cs@, i + 1) == Some(second) ==> r.0 == Step::Tok(both) && r.1 == i + 2,
        char_at(cs@, i + 1) != Some(second) ==> r.0 == Step::Tok(one) && r.1 == i + 1,
{
    if x_char_at(cs, i + 1) == Some(second) {
        (Step::Tok(both), i + 2)
    } else {
        (Step::Tok(one), i + 1)
    }
}

#[verifier::rlimit(60)]
fn x_scan(cs: &Vec<char>, i: usize) -> (r: (Step, usize))
    requires
        i < cs@.len() < usize::MAX,
    ensures
        step_matches(r.0, scan(cs@, i as int).0),
        r.1 == scan(cs@, i as int).1,
        i < r.1 <= cs@.len(),
{
    proof {
        lemma_scan_advances(cs@, i as int);
    }
    let c = cs[i];
    let next = x_char_at(cs, i + 1);
    if c == ' ' || c == '\t' || c == '\n' || c == '\r' || c == '\x0C' {
        (Step::Skip, x_end_while(cs, i, CharClass::Space))
    } else if c == '/' && next == Some('/') {
        (Step::Skip, x_end_while(cs, i + 2, CharClass::NotNewline))
    } else if c == '/' {
        (Step::Tok(Token::Div), i + 1)
    } else if c == '"' {
        let j = x_end_while(cs, i + 1, CharClass::NotQuote);
        if j < cs.len() {
            (Step::Tok(Token::StringLit(string_of_range(cs, i + 1, j))), j + 1)
        } else {
            (Step::Error, cs.len())
        }
    } else if ('a' <= c && c <= 'z') || ('A' <= c && c <= 'Z') || c == '_' {
        let e = x_end_while(cs, i + 1, CharClass::IdentChar);
        match x_keyword(cs, i, e) {
            Some(k) => (Step::Tok(k), e),
            None => (Step::Tok(Token::Identifier(string_of_range(cs, i, e))), e),
        }
    } else if ('0' <= c && c <= '9') || (c == '-' && next.is_some() && '0' <= next.unwrap()
        && next.unwrap() <= '9') {
        let a = if c == '-' { i + 1 } else { i };
        let d = x_end_while(cs, a, CharClass::Digit);
        proof {
            lemma_end_while(cs@, a as int, CharClass::Digit);
        }
        let dot = x_char_at(cs, d);
        let after = x_char_at(cs, d + 1);
        if dot == Some('.') && after.is_some() && '0' <= after.unwrap() && after.unwrap() <= '9' {
            let f = x_end_while(cs, d + 1, CharClass::Digit);
            (Step::Tok(Token::FloatLit(string_of_range(cs, i, f))), f)
        } else {
            (Step::Num(x_number(cs, a, d, c == '-')), d)
        }
    } else if c == '-' {
        two(cs, i, '>', Token::RArrow, Token::Sub)
    } else if c == '=' {
        two(cs, i, '=', Token::EqEq, Token::Assign)
    } else if c == '!' {
        if next == Some('=') {
            (Step::Tok(Token::NotEq), i + 2)
        } else {
            (Step::Error, i + 1)
        }
    } else if c == '<' {
        two(cs, i, '=', Token::Le, Token::Lt)
    } else if c == '>' {
        two(cs, i, '=', Token::Ge, Token::Gt)
    } else if c == '{' {
        (Step::Tok(Token::LBrace), i + 1)
    } else if c == '}' {
        (Step::Tok(Token::RBrace), i + 1)
    } else if c == ',' {
        (Step::Tok(Token::Comma), i + 1)
    } else if c == ';' {
        (Step::Tok(Token::Semicolon), i + 1)
    } else if c == '(' {
        (Step::Tok(Token::LParen), i + 1)
    } else if c == ')' {
        (Step::Tok(Token::RParen), i + 1)
    } else if c == '+' {
        (Step::Tok(Token::Add), i + 1)
    } else if c == '*' {
        (Step::Tok(Token::Mul), i + 1)
    } else {
        (Step::Error, i + 1)
    }
}

pub open spec fn spans_view(v: Seq<(Token, usize, usize)>) -> Seq<(SToken, int, int)> {
    v.map_values(|x: (Token, usize, usize)| (x.0@, x.1 as int, x.2 as int))
}

/// All tokens of `cs` with their character spans, or `None` when an integer
/// literal does not fit in 64 bits.
fn lex_chars(cs: &Vec<char>) -> (r: Option<Vec<(Token, usize, usize)>>)
    requires
        cs@.len() < usize::MAX,
    ensures
        r is Some <==> lex_fits_from(cs@, 0),
        r matches Some(v) ==> spans_view(v@) == lex_from(cs@, 0),
{
    let ghost s = cs@;
    let mut out: Vec<(Token, usize, usize)> = Vec::new();
    let mut i: usize = 0;
    while i < cs.len()
        invariant
            s == cs@,
            s.len() < usize::MAX,
            i <= s.len(),
            lex_from(s, 0) == spans_view(out@) + lex_from(s, i as int),
            lex_fits_from(s, 0) == lex_fits_from(s, i as int),
        decreases s.len() - i,
    {
        let (st, j) = x_scan(cs, i);
        let ghost rest = lex_from(s, j as int);
        match st {
            Step::Tok(t) => {
                let ghost tv = t@;
                proof {
                    assert(spans_view(out@.push((t, i, j))) =~= spans_view(out@).push((tv, i as int, j as int)));
                    assert(spans_view(out@) + (seq![(tv, i as int, j as int)] + rest) =~= spans_view(out@).push((tv, i as int, j as int)) + rest);
                }
                out.push((t, i, j));
            },
            Step::Num(Some(n)) => {
                let t = Token::Number(n);
                let ghost tv = t@;
                proof {
                    assert(spans_view(out@.push((t, i, j))) =~= spans_view(out@).push((tv, i as int, j as int)));
                    assert(spans_view(out@) + (seq![(tv, i as int, j as int)] + rest) =~= spans_view(out@).push((tv, i as int, j as int)) + rest);
                }
                out.push((t, i, j));
            },
            Step::Num(None) => {
                return None;
            },
            Step::Skip => {},
            Step::Error => {},
        }
        i = j;
    }
    proof {
        assert(spans_view(out@) + Seq::<(SToken, int, int)>::empty() =~= spans_view(out@));
    }
    Some(out)
}

/// Every integer literal of a text fits in 64 bits.
pub open spec fn lex_fits(s: Seq<char>) -> bool {
    lex_fits_from(s, 0)
}

/// The tokens of a text, or `None` when an integer literal in it does not fit in
/// 64 bits.
pub fn try_tokenize(source: &str) -> (r: Option<Vec<Token>>)
    requires
        source@.len() < usize::MAX,
    ensures
        r is Some <==> lex_fits(source@),
        r matches Some(v) ==> toks_view(v@) == spec_tokens(source@),
{
    let cs = chars_of(source);
    match lex_chars(&cs) {
        None => None,
        Some(spanned) => {
            let mut out: Vec<Token> = Vec::new();
            let mut k: usize = 0;
            while k < spanned.len()
                invariant
                    k <= spanned@.len(),
                    out@.len() == k,
                    spans_view(spanned@) == lex_from(source@, 0),
                    forall|m: int| 0 <= m < k ==> #[trigger] out@[m]@ == spanned@[m].0@,
                decreases spanned@.len() - k,
            {
                out.push(spanned[k].0.duplicate());
                k = k + 1;
            }
            assert(toks_view(out@) =~= spec_tokens(source@)) by {
                assert forall|m: int| 0 <= m < out@.len() implies toks_view(out@)[m] == spec_tokens(source@)[m] by {
                    assert(spans_view(spanned@)[m] == lex_from(source@, 0)[m]);
                }
            }
            Some(out)
        },
    }
}

/// The tokens of a text whose integer literals all fit in 64 bits.
pub fn tokenize(source: &str) -> (r: Vec<Token>)
    requires
        source@.len() < usize::MAX,
        lex_fits(source@),
    ensures
        toks_view(r@) == spec_tokens(source@),
{
    match try_tokenize(source) {
        Some(v) => v,
        None => Vec::new(),
    }
}

// ---------------------------------------------------------------------------
// Byte offsets
// ---------------------------------------------------------------------------

/// The number of bytes of a character in UTF-8.
pub open spec fn utf8_width(c: char) -> int {
    if (c as u32) < 0x80 {
        1
    } else if (c as u32) < 0x800 {
        2
    } else if (c as u32) < 0x10000 {
        3
    } else {
        4
    }
}

/// The byte offset in the UTF-8 text of the character at index `i`.
pub open spec fn byte_offset(s: Seq<char>, i: int) -> int
    decreases i,
{
    if i <= 0 || i > s.len() {
        0
    } else {
        byte_offset(s, i - 1) + utf8_width(s[i - 1])
    }
}

fn x_utf8_width(c: char) -> (r: usize)
    ensures
        r == utf8_width(c),
{
    let n = c as u32;
    if n < 0x80 {
        1
    } else if n < 0x800 {
        2
    } else if n < 0x10000 {
        3
    } else {
        4
    }
}

/// The byte offsets of every character index of `cs`, and of its end.
fn byte_offsets(cs: &Vec<char>) -> (r: Vec<usize>)
    requires
        cs@.len() <= usize::MAX / 4,
    ensures
        r@.len() == cs@.len() + 1,
        forall|i: int| 0 <= i <= cs@.len() ==> #[trigger] r@[i] == byte_offset(cs@, i),
{
    let mut r: Vec<usize> = Vec::new();
    r.push(0);
    let mut acc: usize = 0;
    let mut i: usize = 0;
    while i < cs.len()
        invariant
            i <= cs@.len() <= usize::MAX / 4,
            r@.len() == i + 1,
            acc == byte_offset(cs@, i as int),
            acc <= 4 * i,
            forall|m: int| 0 <= m <= i ==> #[trigger] r@[m] == byte_offset(cs@, m),
        decreases cs@.len() - i,
    {
        acc = acc + x_utf8_width(cs[i]);
        i = i + 1;
        r.push(acc);
    }
    r
}

/// A token with the byte range of the text that it was read from.
#[derive(Debug, Clone, PartialEq)]
pub struct SpannedToken {
    pub token: Token,
    pub start: usize,
    pub end: usize,
}

/// The tokens of a text with their byte ranges, or `None` when an integer literal
/// in it does not fit in 64 bits.
pub fn tokenize_spanned(source: &str) -> (r: Option<Vec<SpannedToken>>)
    requires
        source@.len() <= usize::MAX / 4,
    ensures
        r is Some <==> lex_fits(source@),
        r matches Some(v) ==> {
            &&& v@.len() == lex_from(source@, 0).len()
            &&& forall|k: int| 0 <= k < v@.len() ==> {
                let (t, a, b) = #[trigger] lex_from(source@, 0)[k];
                &&& v@[k].token@ == t
                &&& v@[k].start == byte_offset(source@, a)
                &&& v@[k].end == byte_offset(source@, b)
            }
        },
{
    let cs = chars_of(source);
    let offs = byte_offsets(&cs);
    match lex_chars(&cs) {
        None => None,
        Some(spanned) => {
            let mut out: Vec<SpannedToken> = Vec::new();
            let mut k: usize = 0;
            while k < spanned.len()
                invariant
                    k <= spanned@.len(),
                    out@.len() == k,
                    cs@ == source@,
                    offs@.len() == cs@.len() + 1,
                    forall|i: int| 0 <= i <= cs@.len() ==> #[trigger] offs@[i] == byte_offset(cs@, i),
                    spans_view(spanned@) == lex_from(source@, 0),
                    forall|m: int| 0 <= m < k ==> {
                        let (t, a, b) = #[trigger] lex_from(source@, 0)[m];
                        &&& out@[m].token@ == t
                        &&& out@[m].start == byte_offset(source@, a)
                        &&& out@[m].end == byte_offset(source@, b)
                    },
                decreases spanned@.len() - k,
            {
                let a = spanned[k].1;
                let b = spanned[k].2;
                proof {
                    assert(spans_view(spanned@)[k as int] == lex_from(source@, 0)[k as int]);
                    lemma_lex_spans(source@, 0, k as int);
                }
                out.push(SpannedToken { token: spanned[k].0.duplicate(), start: offs[a], end: offs[b] });
                k = k + 1;
            }
            Some(out)
        },
    }
}

/// The lexer yields at most one token per character.
pub proof fn lemma_lex_len(s: Seq<char>, i: int)
    requires
        0 <= i,
    ensures
        lex_from(s, i).len() <= if i <= s.len() { s.len() - i } else { 0 },
    decreases s.len() - i,
{
    if 0 <= i < s.len() {
        let (kind, j) = scan(s, i);
        lemma_scan_advances(s, i);
        lemma_lex_len(s, j);
    }
}

/// Every span that the lexer yields lies within the text.
pub proof fn lemma_lex_spans(s: Seq<char>, i: int, k: int)
    requires
        0 <= i,
        0 <= k < lex_from(s, i).len(),
    ensures
        i <= lex_from(s, i)[k].1 < lex_from(s, i)[k].2 <= s.len(),
    decreases s.len() - i,
{
    if 0 <= i < s.len() {
        let (kind, j) = scan(s, i);
        lemma_scan_advances(s, i);
        match kind {
            LexKind::Tok(t) => {
                if k > 0 {
                    lemma_lex_spans(s, j, k - 1);
                }
            },
            LexKind::Num(v) => {
                if k > 0 {
                    lemma_lex_spans(s, j, k - 1);
                }
            },
            _ => {
                lemma_lex_spans(s, j, k);
            },
        }
    }
}

} // verus!
