//! What the language server reports about a document: the diagnostics of its
//! parse, placed by line and column.
use vstd::prelude::*;
use crate::lexer::{tokenize_spanned, lex_from, lex_fits, byte_offset, lemma_lex_len, SpannedToken};
use crate::token::{Token, SToken, spec_token_text};
use crate::parser::toks_view;
use crate::diagnose::{PErr, ParseFailure, program_error, program_failure};
use crate::program_text::joined;
use crate::text::{chars_of, lit, concat};

verus! {

/// A place in a document: a zero-based line and a zero-based column counted in
/// characters.
#[derive(Debug, Clone, Copy, PartialEq, Eq, Structural)]
pub struct Position {
    pub line: u32,
    pub character: u32,
}

/// An error to show over a range of a document.
#[derive(Debug, Clone, PartialEq)]
pub struct Diagnostic {
    pub start: Position,
    pub end: Position,
    pub message: String,
}

/// The line and column reached when the character at index `k` starts at byte
/// `offset`, or, if none from `k` on does, after the last character.
pub open spec fn position_from(s: Seq<char>, offset: int, k: int, line: nat, col: nat) -> (nat, nat)
    decreases s.len() - k,
{
    if k < 0 || k >= s.len() {
        (line, col)
    } else if byte_offset(s, k) == offset {
        (line, col)
    } else if s[k] == '\n' {
        position_from(s, offset, k + 1, line + 1, 0)
    } else {
        position_from(s, offset, k + 1, line, col + 1)
    }
}

/// The position of byte `offset` of a text: the line and column of the character
/// that starts there, or the end of the text when no character starts there.
pub open spec fn spec_position(s: Seq<char>, offset: int) -> Position {
    let (line, col) = position_from(s, offset, 0, 0, 0);
    Position { line: line as u32, character: col as u32 }
}

/// The line and column of the character that starts at byte `offset` of
/// `source`; the position after the last character when none starts there.
pub fn offset_to_position(offset: usize, source: &str) -> (r: Position)
    requires
        source@.len() <= usize::MAX / 4,
    ensures
        r == spec_position(source@, offset as int),
{
    let cs = chars_of(source);
    let ghost s = cs@;
    let mut line: usize = 0;
    let mut col: usize = 0;
    let mut at: usize = 0;
    let mut k: usize = 0;
    while k < cs.len()
        invariant
            s == source@,
            s == cs@,
            s.len() <= usize::MAX / 4,
            k <= s.len(),
            at == byte_offset(s, k as int),
            at <= 4 * k,
            line + col <= k,
            position_from(s, offset as int, 0, 0, 0) == position_from(s, offset as int, k as int, line as nat, col as nat),
        decreases s.len() - k,
    {
        if at == offset {
            return Position { line: line as u32, character: col as u32 };
        }
        let c = cs[k];
        if c == '\n' {
            line = line + 1;
            col = 0;
        } else {
            col = col + 1;
        }
        let n = c as u32;
        let w: usize = if n < 0x80 {
            1
        } else if n < 0x800 {
            2
        } else if n < 0x10000 {
            3
        } else {
            4
        };
        at = at + w;
        k = k + 1;
    }
    Position { line: line as u32, character: col as u32 }
}

/// The line and column of the character at index `k`: how many line breaks
/// come before it, and how many characters since the last of them.
pub open spec fn line_col(s: Seq<char>, k: int) -> (nat, nat)
    decreases k,
{
    if k <= 0 || k > s.len() {
        (0, 0)
    } else {
        let (line, col) = line_col(s, k - 1);
        if s[k - 1] == '\n' {
            (line + 1, 0)
        } else {
            (line, col + 1)
        }
    }
}

proof fn lemma_offsets_increase(s: Seq<char>, a: int, b: int)
    requires
        0 <= a < b <= s.len(),
    ensures
        byte_offset(s, a) < byte_offset(s, b),
    decreases b - a,
{
    if a + 1 < b {
        lemma_offsets_increase(s, a, b - 1);
    }
}

proof fn lemma_position_from(s: Seq<char>, j: int, k: int)
    requires
        0 <= k <= j < s.len(),
    ensures
        position_from(s, byte_offset(s, j), k, line_col(s, k).0, line_col(s, k).1) == line_col(s, j),
    decreases j - k,
{
    if k < j {
        lemma_offsets_increase(s, k, j);
        lemma_position_from(s, j, k + 1);
    }
}

/// The byte offset at which a character starts is placed at that character's
/// line and column.
pub proof fn law_position_of_character(s: Seq<char>, j: int)
    requires
        0 <= j < s.len(),
    ensures
        spec_position(s, byte_offset(s, j)) == (Position {
            line: line_col(s, j).0 as u32,
            character: line_col(s, j).1 as u32,
        }),
{
    lemma_position_from(s, j, 0);
}

/// The number of bytes of `source` in UTF-8.
fn text_byte_len(source: &str) -> (r: usize)
    requires
        source@.len() <= usize::MAX / 4,
    ensures
        r == text_bytes(source@),
{
    let cs = chars_of(source);
    let mut at: usize = 0;
    let mut k: usize = 0;
    while k < cs.len()
        invariant
            cs@ == source@,
            cs@.len() <= usize::MAX / 4,
            k <= cs@.len(),
            at == byte_offset(cs@, k as int),
            at <= 4 * k,
        decreases cs@.len() - k,
    {
        let n = cs[k] as u32;
        let w: usize = if n < 0x80 {
            1
        } else if n < 0x800 {
            2
        } else if n < 0x10000 {
            3
        } else {
            4
        };
        at = at + w;
        k = k + 1;
    }
    at
}

/// The text of a string as `{:?}` writes it: quoted, with special characters
/// escaped.
pub uninterp spec fn str_debug(s: Seq<char>) -> Seq<char>;

/// Quotes a string with Rust's `Debug` formatting of `str`.
///
/// Trusted: `format!("{:?}", s)` is a function of the characters of `s` alone;
/// the contract names its result and states nothing more of it.
#[verifier::external_body]
pub(crate) fn debug_quote(s: &String) -> (r: String)
    ensures
        r@ == str_debug(s@),
{
    format!("{:?}", s)
}

/// The keyword or symbol numbered `k` (as `skind` numbers them, from 1 to 35).
pub open spec fn kind_token(k: int) -> SToken {
    if k == 1 { SToken::Let } else if k == 2 { SToken::Print } else if k == 3 { SToken::Bridge }
    else if k == 4 { SToken::Func } else if k == 5 { SToken::Return } else if k == 6 { SToken::Use }
    else if k == 7 { SToken::System } else if k == 8 { SToken::Package } else if k == 9 { SToken::Service }
    else if k == 10 { SToken::RArrow } else if k == 11 { SToken::If } else if k == 12 { SToken::Else }
    else if k == 13 { SToken::While } else if k == 14 { SToken::True } else if k == 15 { SToken::False }
    else if k == 16 { SToken::LBrace } else if k == 17 { SToken::RBrace } else if k == 18 { SToken::Comma }
    else if k == 19 { SToken::Semicolon } else if k == 20 { SToken::Assign } else if k == 21 { SToken::LParen }
    else if k == 22 { SToken::RParen } else if k == 23 { SToken::Add } else if k == 24 { SToken::Sub }
    else if k == 25 { SToken::Mul } else if k == 26 { SToken::Div } else if k == 27 { SToken::EqEq }
    else if k == 28 { SToken::NotEq } else if k == 29 { SToken::Lt } else if k == 30 { SToken::Gt }
    else if k == 31 { SToken::Le } else if k == 32 { SToken::Ge } else if k == 33 { SToken::TypeInt }
    else if k == 34 { SToken::TypeFloat } else { SToken::TypeString }
}

/// Whether bit `k` of an expected set is set.
pub open spec fn has_bit(m: u64, k: u64) -> bool {
    (m >> k) & 1u64 == 1u64
}

/// How an expected item is written: the end of the input in words, a keyword
/// or symbol as its text quoted as `{:?}` quotes it.
pub open spec fn expected_desc(k: int) -> Seq<char> {
    if k == 0 {
        "end of input"@
    } else {
        str_debug(spec_token_text(kind_token(k)))
    }
}

/// The descriptions of the items of the expected set `m` numbered below `n`,
/// in the order of their numbers, each once.
pub open spec fn expected_list(m: u64, n: int) -> Seq<Seq<char>>
    decreases n,
{
    if n <= 0 {
        Seq::empty()
    } else {
        expected_list(m, n - 1) + if has_bit(m, (n - 1) as u64) {
            seq![expected_desc(n - 1)]
        } else {
            Seq::empty()
        }
    }
}

/// The message of a failure: `found` and what was found (a token's text quoted,
/// or the end of the input), then what was expected there, if anything: one
/// item, or `one of` the items separated by `, `.
pub open spec fn message_text(found: Option<Seq<char>>, expected: Seq<Seq<char>>) -> Seq<char> {
    (match found {
        Some(q) => "found "@ + q,
        None => "found end of input"@,
    }) + if expected.len() == 0 {
        Seq::empty()
    } else if expected.len() == 1 {
        " but expected "@ + expected[0]
    } else {
        " but expected one of "@ + joined(expected)
    }
}

/// The message of a failure that found `found` (or the end of the input) where
/// the set `m` was expected. The expected items are listed in the order of
/// their numbers.
pub open spec fn failure_message(found: Option<SToken>, m: u64) -> Seq<char> {
    message_text(
        match found {
            Some(t) => Some(str_debug(spec_token_text(t))),
            None => None,
        },
        expected_list(m, 36),
    )
}

/// Writes the message of a failure from the quoted text of what was found
/// (`None` at the end of the input) and the written expected items.
pub fn compose_message(found: Option<String>, expected: &Vec<String>) -> (r: String)
    ensures
        r@ == message_text(
            match found {
                Some(q) => Some(q@),
                None => None,
            },
            expected@.map_values(|e: String| e@),
        ),
{
    let ghost ev = expected@.map_values(|e: String| e@);
    let mut r = match found {
        Some(q) => concat(lit("found "), q.as_str()),
        None => lit("found end of input"),
    };
    if expected.len() == 1 {
        r = concat(concat(r, " but expected "), expected[0].as_str());
    } else if expected.len() > 1 {
        r = concat(r, " but expected one of ");
        let mut list = String::new();
        let mut k: usize = 0;
        proof {
            assert(ev.take(0) =~= Seq::<Seq<char>>::empty());
        }
        while k < expected.len()
            invariant
                k <= expected@.len(),
                ev == expected@.map_values(|e: String| e@),
                list@ == joined(ev.take(k as int)),
            decreases expected@.len() - k,
        {
            proof {
                assert(ev.take(k + 1).drop_last() =~= ev.take(k as int));
            }
            if k == 0 {
                list = expected[0].clone();
            } else {
                list = concat(concat(list, ", "), expected[k].as_str());
            }
            k = k + 1;
        }
        proof {
            assert(ev.take(expected@.len() as int) =~= ev);
        }
        r = concat(r, list.as_str());
    }
    r
}

fn x_kind_token(k: u8) -> (r: Token)
    requires
        1 <= k <= 35,
    ensures
        r@ == kind_token(k as int),
{
    match k {
        1 => Token::Let, 2 => Token::Print, 3 => Token::Bridge, 4 => Token::Func, 5 => Token::Return,
        6 => Token::Use, 7 => Token::System, 8 => Token::Package, 9 => Token::Service, 10 => Token::RArrow,
        11 => Token::If, 12 => Token::Else, 13 => Token::While, 14 => Token::True, 15 => Token::False,
        16 => Token::LBrace, 17 => Token::RBrace, 18 => Token::Comma, 19 => Token::Semicolon, 20 => Token::Assign,
        21 => Token::LParen, 22 => Token::RParen, 23 => Token::Add, 24 => Token::Sub, 25 => Token::Mul,
        26 => Token::Div, 27 => Token::EqEq, 28 => Token::NotEq, 29 => Token::Lt, 30 => Token::Gt,
        31 => Token::Le, 32 => Token::Ge, 33 => Token::TypeInt, 34 => Token::TypeFloat, _ => Token::TypeString,
    }
}

/// The written items of an expected set, in the order of their numbers.
fn expected_items(m: u64) -> (r: Vec<String>)
    ensures
        r@.map_values(|e: String| e@) == expected_list(m, 36),
{
    let mut r: Vec<String> = Vec::new();
    let mut k: u8 = 0;
    while k < 36
        invariant
            k <= 36,
            r@.map_values(|e: String| e@) == expected_list(m, k as int),
        decreases 36 - k,
    {
        let ghost before = r@;
        if (m >> (k as u64)) & 1u64 == 1u64 {
            let d = if k == 0 {
                lit("end of input")
            } else {
                debug_quote(&x_kind_token(k).to_display_string())
            };
            r.push(d);
            assert(r@.map_values(|e: String| e@) =~= before.map_values(|e: String| e@).push(expected_desc(k as int)));
        }
        assert(expected_list(m, k + 1) =~= expected_list(m, k as int) + if has_bit(m, k as u64) {
            seq![expected_desc(k as int)]
        } else {
            Seq::empty()
        });
        k = k + 1;
    }
    r
}

/// The byte length of a text.
pub open spec fn text_bytes(s: Seq<char>) -> int {
    byte_offset(s, s.len() as int)
}

/// The diagnostic of a failure: the range of the token where it happened and
/// what was found there, or an empty range at the end of the text when it
/// happened at the end of the input; and the message.
pub open spec fn failure_diagnostic(s: Seq<char>, e: PErr) -> (Position, Position, Seq<char>) {
    let toks = lex_from(s, 0);
    if 0 <= e.at < toks.len() {
        let (t, a, b) = toks[e.at];
        (spec_position(s, byte_offset(s, a)), spec_position(s, byte_offset(s, b)), failure_message(Some(t), e.exp))
    } else {
        (spec_position(s, text_bytes(s)), spec_position(s, text_bytes(s)), failure_message(None, e.exp))
    }
}

pub open spec fn spanned_tokens(s: Seq<char>) -> Seq<SToken> {
    lex_from(s, 0).map_values(|x: (SToken, int, int)| x.0)
}

fn plain_tokens(spanned: &Vec<SpannedToken>) -> (r: Vec<Token>)
    ensures
        r@.len() == spanned@.len(),
        forall|m: int| 0 <= m < spanned@.len() ==> #[trigger] r@[m]@ == spanned@[m].token@,
{
    let mut tokens: Vec<Token> = Vec::new();
    let mut k: usize = 0;
    while k < spanned.len()
        invariant
            k <= spanned@.len(),
            tokens@.len() == k,
            forall|m: int| 0 <= m < k ==> #[trigger] tokens@[m]@ == spanned@[m].token@,
        decreases spanned@.len() - k,
    {
        tokens.push(spanned[k].token.duplicate());
        k = k + 1;
    }
    tokens
}

/// The diagnostic of a failure in a lexed document.
fn diagnostic_of(source: &str, spanned: &Vec<SpannedToken>, e: ParseFailure) -> (d: Diagnostic)
    requires
        source@.len() <= usize::MAX / 4,
        spanned@.len() == lex_from(source@, 0).len(),
        forall|k: int| 0 <= k < spanned@.len() ==> {
            let (t, a, b) = #[trigger] lex_from(source@, 0)[k];
            &&& spanned@[k].token@ == t
            &&& spanned@[k].start == byte_offset(source@, a)
            &&& spanned@[k].end == byte_offset(source@, b)
        },
    ensures
        (d.start, d.end, d.message@) == failure_diagnostic(source@, e.view()),
{
    let expected = expected_items(e.exp);
    if e.at < spanned.len() {
        let t = &spanned[e.at];
        let found = debug_quote(&t.token.to_display_string());
        Diagnostic {
            start: offset_to_position(t.start, source),
            end: offset_to_position(t.end, source),
            message: compose_message(Some(found), &expected),
        }
    } else {
        let end = text_byte_len(source);
        Diagnostic {
            start: offset_to_position(end, source),
            end: offset_to_position(end, source),
            message: compose_message(None, &expected),
        }
    }
}

/// The diagnostics of a document: none when it parses, otherwise one for the
/// failure it reports (the furthest failure reached, with what was expected
/// there). `None` when an integer literal in the document does not fit in 64
/// bits.
pub fn document_diagnostics(source: &str) -> (r: Option<Vec<Diagnostic>>)
    requires
        source@.len() <= usize::MAX / 4,
    ensures
        r is Some <==> lex_fits(source@),
        r matches Some(v) ==> match program_error(spanned_tokens(source@)) {
            None => v@.len() == 0,
            Some(e) => {
                let (a, b, m) = failure_diagnostic(source@, e);
                &&& v@.len() == 1
                &&& v@[0].start == a
                &&& v@[0].end == b
                &&& v@[0].message@ == m
            },
        },
{
    let spanned = match tokenize_spanned(source) {
        Some(v) => v,
        None => return None,
    };
    let tokens = plain_tokens(&spanned);
    proof {
        let toks = lex_from(source@, 0);
        assert forall|m: int| 0 <= m < tokens@.len() implies #[trigger] toks_view(tokens@)[m] == spanned_tokens(source@)[m] by {
            let (t, a, b) = toks[m];
            assert(spanned@[m].token@ == t);
        }
        assert(toks_view(tokens@) =~= spanned_tokens(source@));
        lemma_lex_len(source@, 0);
    }
    let mut out: Vec<Diagnostic> = Vec::new();
    match program_failure(tokens.as_slice()) {
        None => {},
        Some(e) => {
            out.push(diagnostic_of(source, &spanned, e));
        },
    }
    Some(out)
}

} // verus!
