use crate::text::push_char;
use vstd::prelude::*;

verus! {

/// Punctuation of the language.
#[derive(Debug, Clone, Copy, PartialEq, Eq, Structural)]
pub enum Sym {
    Plus,
    Minus,
    Star,
    Slash,
    AndAnd,
    OrOr,
    EqEq,
    Lt,
    Gt,
    Bang,
    Assign,
    Semi,
    Comma,
    Colon,
    LParen,
    RParen,
    LBrace,
    RBrace,
    LBracket,
    RBracket,
    Arrow,
    Amp,
    Pipe,
    Dot,
}

/// A token of the source text. Keywords are identifiers here; integer
/// literals are their (unsigned, 32-bit) value; string literals their
/// content with escapes resolved.
#[derive(Debug, PartialEq, Eq)]
pub enum Token {
    Ident(String),
    Int(u32),
    Str(String),
    Sym(Sym),
}

/// Model of a token.
pub enum SToken {
    Ident(Seq<char>),
    Int(u32),
    Str(Seq<char>),
    Sym(Sym),
}

pub open spec fn token_model(t: Token) -> SToken {
    match t {
        Token::Ident(s) => SToken::Ident(s@),
        Token::Int(v) => SToken::Int(v),
        Token::Str(s) => SToken::Str(s@),
        Token::Sym(y) => SToken::Sym(y),
    }
}

pub open spec fn tokens_model(v: Seq<Token>) -> Seq<SToken> {
    v.map_values(|t: Token| token_model(t))
}

pub open spec fn is_space(c: char) -> bool {
    c == ' ' || c == '\t' || c == '\n' || c == '\r'
}

pub open spec fn is_digit(c: char) -> bool {
    '0' <= c && c <= '9'
}

pub open spec fn is_ident_start(c: char) -> bool {
    ('a' <= c && c <= 'z') || ('A' <= c && c <= 'Z') || c == '_'
}

pub open spec fn is_ident_char(c: char) -> bool {
    is_ident_start(c) || is_digit(c)
}

/// The end of the identifier that continues at `i`.
pub open spec fn ident_end(s: Seq<char>, i: int) -> int
    decreases s.len() - i,
{
    if 0 <= i < s.len() && is_ident_char(s[i]) {
        ident_end(s, i + 1)
    } else {
        i
    }
}

/// The end of the line that contains position `i` (the position of its
/// newline, or the end of the text).
pub open spec fn line_end(s: Seq<char>, i: int) -> int
    decreases s.len() - i,
{
    if 0 <= i < s.len() && s[i] != '\n' {
        line_end(s, i + 1)
    } else {
        i
    }
}

/// Where a block comment ends: after the `*/` that closes it, `depth`
/// comments being open at `i` (block comments nest); `None` when it is
/// not closed.
pub open spec fn comment_end(s: Seq<char>, i: int, depth: nat) -> Option<int>
    decreases s.len() - i,
{
    if i < 0 || i + 1 >= s.len() {
        None
    } else if s[i] == '/' && s[i + 1] == '*' {
        comment_end(s, i + 2, depth + 1)
    } else if s[i] == '*' && s[i + 1] == '/' {
        if depth <= 1 {
            Some(i + 2)
        } else {
            comment_end(s, i + 2, (depth - 1) as nat)
        }
    } else {
        comment_end(s, i + 1, depth)
    }
}

pub proof fn lemma_comment_end(s: Seq<char>, i: int, depth: nat)
    requires
        0 <= i,
    ensures
        comment_end(s, i, depth) matches Some(j) ==> i < j <= s.len(),
    decreases s.len() - i,
{
    if 0 <= i && i + 1 < s.len() {
        if s[i] == '/' && s[i + 1] == '*' {
            lemma_comment_end(s, i + 2, depth + 1);
        } else if s[i] == '*' && s[i + 1] == '/' {
            if depth > 1 {
                lemma_comment_end(s, i + 2, (depth - 1) as nat);
            }
        } else {
            lemma_comment_end(s, i + 1, depth);
        }
    }
}

pub open spec fn is_hex_digit(c: char) -> bool {
    is_digit(c) || ('a' <= c && c <= 'f') || ('A' <= c && c <= 'F')
}

pub open spec fn hex_value(c: char) -> nat {
    if is_digit(c) {
        (c as int - '0' as int) as nat
    } else if 'a' <= c && c <= 'f' {
        (c as int - 'a' as int + 10) as nat
    } else {
        (c as int - 'A' as int + 10) as nat
    }
}

/// The value of the hexadecimal digits from `i` on, after those read so
/// far gave `v`, and where they end; `_` between digits is skipped. `None`
/// when it exceeds `u32::MAX`.
pub open spec fn hex_number(s: Seq<char>, i: int, v: nat) -> Option<(nat, int)>
    decreases s.len() - i,
{
    if 0 <= i < s.len() && is_hex_digit(s[i]) {
        let w = v * 16 + hex_value(s[i]);
        if w > u32::MAX {
            None
        } else {
            hex_number(s, i + 1, w)
        }
    } else if 0 <= i < s.len() && s[i] == '_' {
        hex_number(s, i + 1, v)
    } else {
        Some((v, i))
    }
}

pub proof fn lemma_hex_number(s: Seq<char>, i: int, v: nat)
    requires
        0 <= i <= s.len(),
        v <= u32::MAX,
    ensures
        hex_number(s, i, v) matches Some((w, j)) ==> i <= j <= s.len() && w <= u32::MAX,
    decreases s.len() - i,
{
    if i < s.len() && is_hex_digit(s[i]) {
        let w = v * 16 + hex_value(s[i]);
        if w <= u32::MAX {
            lemma_hex_number(s, i + 1, w);
        }
    } else if i < s.len() && s[i] == '_' {
        lemma_hex_number(s, i + 1, v);
    }
}

pub open spec fn digit_value(c: char) -> nat {
    (c as int - '0' as int) as nat
}

/// The value of the decimal digits from `i` on, after the digits read so
/// far gave `v`, and where they end; `_` between digits is skipped. `None`
/// when it exceeds `u32::MAX`.
pub open spec fn number(s: Seq<char>, i: int, v: nat) -> Option<(nat, int)>
    decreases s.len() - i,
{
    if 0 <= i < s.len() && is_digit(s[i]) {
        let w = v * 10 + digit_value(s[i]);
        if w > u32::MAX {
            None
        } else {
            number(s, i + 1, w)
        }
    } else if 0 <= i < s.len() && s[i] == '_' {
        number(s, i + 1, v)
    } else {
        Some((v, i))
    }
}

/// The character that an escape `\c` stands for in a string literal.
pub open spec fn escape(c: char) -> Option<char> {
    if c == 'n' {
        Some('\n')
    } else if c == 't' {
        Some('\t')
    } else if c == 'r' {
        Some('\r')
    } else if c == '0' {
        Some('\0')
    } else if c == '\\' || c == '"' || c == '\'' {
        Some(c)
    } else {
        None
    }
}

/// The content of a string literal from `i` on (after the opening quote),
/// with what was read so far in `acc`, and the position after its closing
/// quote.
pub open spec fn string_body(s: Seq<char>, i: int, acc: Seq<char>) -> Option<(Seq<char>, int)>
    decreases s.len() - i,
{
    if i < 0 || i >= s.len() {
        None
    } else if s[i] == '"' {
        Some((acc, i + 1))
    } else if s[i] == '\\' {
        if i + 1 >= s.len() {
            None
        } else {
            match escape(s[i + 1]) {
                Some(c) => string_body(s, i + 2, acc.push(c)),
                None => None,
            }
        }
    } else {
        string_body(s, i + 1, acc.push(s[i]))
    }
}

/// The punctuation at `i`, longest first, and where it ends.
pub open spec fn sym_at(s: Seq<char>, i: int) -> Option<(Sym, int)> {
    if i < 0 || i >= s.len() {
        None
    } else {
        let c = s[i];
        let d = if i + 1 < s.len() { s[i + 1] } else { ' ' };
        if c == '&' && d == '&' {
            Some((Sym::AndAnd, i + 2))
        } else if c == '|' && d == '|' {
            Some((Sym::OrOr, i + 2))
        } else if c == '=' && d == '=' {
            Some((Sym::EqEq, i + 2))
        } else if c == '-' && d == '>' {
            Some((Sym::Arrow, i + 2))
        } else if c == '+' {
            Some((Sym::Plus, i + 1))
        } else if c == '-' {
            Some((Sym::Minus, i + 1))
        } else if c == '*' {
            Some((Sym::Star, i + 1))
        } else if c == '/' {
            Some((Sym::Slash, i + 1))
        } else if c == '<' {
            Some((Sym::Lt, i + 1))
        } else if c == '>' {
            Some((Sym::Gt, i + 1))
        } else if c == '!' {
            Some((Sym::Bang, i + 1))
        } else if c == '=' {
            Some((Sym::Assign, i + 1))
        } else if c == ';' {
            Some((Sym::Semi, i + 1))
        } else if c == ',' {
            Some((Sym::Comma, i + 1))
        } else if c == ':' {
            Some((Sym::Colon, i + 1))
        } else if c == '(' {
            Some((Sym::LParen, i + 1))
        } else if c == ')' {
            Some((Sym::RParen, i + 1))
        } else if c == '{' {
            Some((Sym::LBrace, i + 1))
        } else if c == '}' {
            Some((Sym::RBrace, i + 1))
        } else if c == '[' {
            Some((Sym::LBracket, i + 1))
        } else if c == ']' {
            Some((Sym::RBracket, i + 1))
        } else if c == '&' {
            Some((Sym::Amp, i + 1))
        } else if c == '|' {
            Some((Sym::Pipe, i + 1))
        } else if c == '.' {
            Some((Sym::Dot, i + 1))
        } else {
            None
        }
    }
}

/// The tokens of `s` from position `i` on, after the tokens `acc`; `None`
/// where the text holds something that is no token of the language.
/// Whitespace, `//` comments and (nested) `/* */` comments separate
/// tokens; an integer literal, decimal or hexadecimal (`0x`), may hold `_`
/// between its digits, and may not run into an identifier.
pub open spec fn lex_from(s: Seq<char>, i: int, acc: Seq<SToken>) -> Option<Seq<SToken>>
    decreases s.len() - i,
{
    if i < 0 || i >= s.len() {
        Some(acc)
    } else if is_space(s[i]) {
        lex_from(s, i + 1, acc)
    } else if s[i] == '/' && i + 1 < s.len() && s[i + 1] == '/' {
        proof { lemma_line_end(s, i + 2); }
        lex_from(s, line_end(s, i + 2), acc)
    } else if s[i] == '/' && i + 1 < s.len() && s[i + 1] == '*' {
        proof { lemma_comment_end(s, i + 2, 1); }
        match comment_end(s, i + 2, 1) {
            None => None,
            Some(j) => lex_from(s, j, acc),
        }
    } else if is_ident_start(s[i]) {
        proof { lemma_ident_end(s, i + 1); }
        let j = ident_end(s, i + 1);
        lex_from(s, j, acc.push(SToken::Ident(s.subrange(i, j))))
    } else if s[i] == '0' && i + 1 < s.len() && s[i + 1] == 'x' {
        if i + 2 < s.len() && is_hex_digit(s[i + 2]) {
            proof { lemma_hex_number(s, i + 2, 0); }
            match hex_number(s, i + 2, 0) {
                None => None,
                Some((v, j)) => if 0 <= j < s.len() && is_ident_char(s[j]) {
                    None
                } else {
                    lex_from(s, j, acc.push(SToken::Int(v as u32)))
                },
            }
        } else {
            None
        }
    } else if is_digit(s[i]) {
        proof { lemma_number(s, i, 0); }
        match number(s, i, 0) {
            None => None,
            Some((v, j)) => if 0 <= j < s.len() && is_ident_char(s[j]) {
                None
            } else {
                lex_from(s, j, acc.push(SToken::Int(v as u32)))
            },
        }
    } else if s[i] == '"' {
        proof { lemma_string_body(s, i + 1, Seq::empty()); }
        match string_body(s, i + 1, Seq::empty()) {
            None => None,
            Some((b, j)) => lex_from(s, j, acc.push(SToken::Str(b))),
        }
    } else {
        match sym_at(s, i) {
            None => None,
            Some((y, j)) => lex_from(s, j, acc.push(SToken::Sym(y))),
        }
    }
}

/// The tokens of a source text.
pub open spec fn lex_spec(s: Seq<char>) -> Option<Seq<SToken>> {
    lex_from(s, 0, Seq::empty())
}

pub proof fn lemma_ident_end(s: Seq<char>, i: int)
    requires
        0 <= i <= s.len(),
    ensures
        i <= ident_end(s, i) <= s.len(),
        forall|k: int| i <= k < ident_end(s, i) ==> is_ident_char(#[trigger] s[k]),
        ident_end(s, i) < s.len() ==> !is_ident_char(s[ident_end(s, i)]),
    decreases s.len() - i,
{
    if i < s.len() && is_ident_char(s[i]) {
        lemma_ident_end(s, i + 1);
    }
}

pub proof fn lemma_line_end(s: Seq<char>, i: int)
    requires
        0 <= i <= s.len(),
    ensures
        i <= line_end(s, i) <= s.len(),
    decreases s.len() - i,
{
    if i < s.len() && s[i] != '\n' {
        lemma_line_end(s, i + 1);
    }
}

pub proof fn lemma_number(s: Seq<char>, i: int, v: nat)
    requires
        0 <= i <= s.len(),
        v <= u32::MAX,
    ensures
        number(s, i, v) matches Some((w, j)) ==> i <= j <= s.len() && w <= u32::MAX,
        0 <= i < s.len() && is_digit(s[i]) ==> (number(s, i, v) matches Some((w, j)) ==> i < j),
    decreases s.len() - i,
{
    if i < s.len() && is_digit(s[i]) {
        let w = v * 10 + digit_value(s[i]);
        if w <= u32::MAX {
            lemma_number(s, i + 1, w);
        }
    } else if i < s.len() && s[i] == '_' {
        lemma_number(s, i + 1, v);
    }
}

pub proof fn lemma_string_body(s: Seq<char>, i: int, acc: Seq<char>)
    requires
        0 <= i,
    ensures
        string_body(s, i, acc) matches Some((b, j)) ==> i < j <= s.len(),
    decreases s.len() - i,
{
    if i < s.len() && s[i] != '"' {
        if s[i] == '\\' {
            if i + 1 < s.len() {
                match escape(s[i + 1]) {
                    Some(c) => lemma_string_body(s, i + 2, acc.push(c)),
                    None => {},
                }
            }
        } else {
            lemma_string_body(s, i + 1, acc.push(s[i]));
        }
    }
}

fn is_space_exec(c: char) -> (r: bool)
    ensures
        r == is_space(c),
{
    c == ' ' || c == '\t' || c == '\n' || c == '\r'
}

fn is_digit_exec(c: char) -> (r: bool)
    ensures
        r == is_digit(c),
{
    '0' <= c && c <= '9'
}

fn is_ident_start_exec(c: char) -> (r: bool)
    ensures
        r == is_ident_start(c),
{
    ('a' <= c && c <= 'z') || ('A' <= c && c <= 'Z') || c == '_'
}

fn is_ident_char_exec(c: char) -> (r: bool)
    ensures
        r == is_ident_char(c),
{
    is_ident_start_exec(c) || is_digit_exec(c)
}

fn escape_exec(c: char) -> (r: Option<char>)
    ensures
        r == escape(c),
{
    if c == 'n' {
        Some('\n')
    } else if c == 't' {
        Some('\t')
    } else if c == 'r' {
        Some('\r')
    } else if c == '0' {
        Some('\0')
    } else if c == '\\' || c == '"' || c == '\'' {
        Some(c)
    } else {
        None
    }
}

fn sym_at_exec(s: &Vec<char>, i: usize) -> (r: Option<(Sym, usize)>)
    requires
        i < s@.len(),
    ensures
        match sym_at(s@, i as int) {
            Some((y, j)) => r == Some((y, j as usize)) && j <= s@.len(),
            None => r is None,
        },
{
    let c = s[i];
    let d = if i < s.len() - 1 { s[i + 1] } else { ' ' };
    if c == '&' && d == '&' {
        Some((Sym::AndAnd, i + 2))
    } else if c == '|' && d == '|' {
        Some((Sym::OrOr, i + 2))
    } else if c == '=' && d == '=' {
        Some((Sym::EqEq, i + 2))
    } else if c == '-' && d == '>' {
        Some((Sym::Arrow, i + 2))
    } else if c == '+' {
        Some((Sym::Plus, i + 1))
    } else if c == '-' {
        Some((Sym::Minus, i + 1))
    } else if c == '*' {
        Some((Sym::Star, i + 1))
    } else if c == '/' {
        Some((Sym::Slash, i + 1))
    } else if c == '<' {
        Some((Sym::Lt, i + 1))
    } else if c == '>' {
        Some((Sym::Gt, i + 1))
    } else if c == '!' {
        Some((Sym::Bang, i + 1))
    } else if c == '=' {
        Some((Sym::Assign, i + 1))
    } else if c == ';' {
        Some((Sym::Semi, i + 1))
    } else if c == ',' {
        Some((Sym::Comma, i + 1))
    } else if c == ':' {
        Some((Sym::Colon, i + 1))
    } else if c == '(' {
        Some((Sym::LParen, i + 1))
    } else if c == ')' {
        Some((Sym::RParen, i + 1))
    } else if c == '{' {
        Some((Sym::LBrace, i + 1))
    } else if c == '}' {
        Some((Sym::RBrace, i + 1))
    } else if c == '[' {
        Some((Sym::LBracket, i + 1))
    } else if c == ']' {
        Some((Sym::RBracket, i + 1))
    } else if c == '&' {
        Some((Sym::Amp, i + 1))
    } else if c == '|' {
        Some((Sym::Pipe, i + 1))
    } else if c == '.' {
        Some((Sym::Dot, i + 1))
    } else {
        None
    }
}

/// The characters of a string, in order.
pub fn chars_of(s: &str) -> (v: Vec<char>)
    ensures
        v@ == s@,
{
    let mut v: Vec<char> = Vec::new();
    let n = s.unicode_len();
    for i in 0..n
        invariant
            n == s@.len(),
            v@ == s@.take(i as int),
    {
        v.push(s.get_char(i));
        assert(v@ =~= s@.take(i + 1));
    }
    assert(s@.take(n as int) =~= s@);
    v
}

pub(crate) fn string_of(s: &Vec<char>, from: usize, to: usize) -> (r: String)
    requires
        from <= to <= s@.len(),
    ensures
        r@ == s@.subrange(from as int, to as int),
{
    let mut r = String::new();
    let mut k = from;
    while k < to
        invariant
            from <= k <= to,
            to <= s@.len(),
            r@ == s@.subrange(from as int, k as int),
        decreases to - k,
    {
        push_char(&mut r, s[k]);
        assert(r@ =~= s@.subrange(from as int, k + 1));
        k = k + 1;
    }
    r
}

fn is_hex_digit_exec(c: char) -> (r: bool)
    ensures
        r == is_hex_digit(c),
{
    ('0' <= c && c <= '9') || ('a' <= c && c <= 'f') || ('A' <= c && c <= 'F')
}

fn scan_hex(s: &Vec<char>, from: usize) -> (r: Option<(u32, usize)>)
    requires
        from <= s@.len(),
    ensures
        match hex_number(s@, from as int, 0) {
            Some((v, j)) => r == Some((v as u32, j as usize)) && from <= j <= s@.len(),
            None => r is None,
        },
{
    proof { lemma_hex_number(s@, from as int, 0); }
    let mut v: u64 = 0;
    let mut j = from;
    while j < s.len() && (is_hex_digit_exec(s[j]) || s[j] == '_')
        invariant
            from <= j <= s@.len(),
            v <= u32::MAX,
            hex_number(s@, from as int, 0) == hex_number(s@, j as int, v as nat),
        decreases s@.len() - j,
    {
        let c = s[j];
        if c == '_' {
            j = j + 1;
            continue;
        }
        let d: u64 = if '0' <= c && c <= '9' {
            (c as u32 - '0' as u32) as u64
        } else if 'a' <= c && c <= 'f' {
            (c as u32 - 'a' as u32 + 10) as u64
        } else {
            (c as u32 - 'A' as u32 + 10) as u64
        };
        assert(d == hex_value(c));
        let w = v * 16 + d;
        if w > 4294967295 {
            return None;
        }
        v = w;
        j = j + 1;
    }
    Some((v as u32, j))
}

fn scan_comment_end(s: &Vec<char>, from: usize) -> (r: Option<usize>)
    requires
        2 <= from <= s@.len(),
    ensures
        match comment_end(s@, from as int, 1) {
            Some(j) => r == Some(j as usize) && from < j <= s@.len(),
            None => r is None,
        },
{
    proof { lemma_comment_end(s@, from as int, 1); }
    let mut j = from;
    let mut depth: usize = 1;
    while s.len() - j >= 2
        invariant
            from <= j <= s@.len(),
            1 <= depth <= j,
            comment_end(s@, from as int, 1) == comment_end(s@, j as int, depth as nat),
        decreases s@.len() - j,
    {
        if s[j] == '/' && s[j + 1] == '*' {
            depth = depth + 1;
            j = j + 2;
        } else if s[j] == '*' && s[j + 1] == '/' {
            if depth <= 1 {
                return Some(j + 2);
            }
            depth = depth - 1;
            j = j + 2;
        } else {
            j = j + 1;
        }
    }
    None
}

fn scan_line_end(s: &Vec<char>, from: usize) -> (j: usize)
    requires
        from <= s@.len(),
    ensures
        j as int == line_end(s@, from as int),
        from <= j <= s@.len(),
{
    let mut j = from;
    proof { lemma_line_end(s@, j as int); }
    while j < s.len() && s[j] != '\n'
        invariant
            from <= j <= s@.len(),
            line_end(s@, j as int) == line_end(s@, from as int),
        decreases s@.len() - j,
    {
        j = j + 1;
    }
    j
}

fn scan_ident_end(s: &Vec<char>, from: usize) -> (j: usize)
    requires
        from <= s@.len(),
    ensures
        j as int == ident_end(s@, from as int),
        from <= j <= s@.len(),
{
    let mut j = from;
    while j < s.len() && is_ident_char_exec(s[j])
        invariant
            from <= j <= s@.len(),
            ident_end(s@, j as int) == ident_end(s@, from as int),
        decreases s@.len() - j,
    {
        j = j + 1;
    }
    j
}

fn scan_number(s: &Vec<char>, from: usize) -> (r: Option<(u32, usize)>)
    requires
        from < s@.len(),
        is_digit(s@[from as int]),
    ensures
        match number(s@, from as int, 0) {
            Some((v, j)) => r == Some((v as u32, j as usize)) && from < j <= s@.len(),
            None => r is None,
        },
{
    proof { lemma_number(s@, from as int, 0); }
    let mut v: u64 = 0;
    let mut j = from;
    while j < s.len() && (is_digit_exec(s[j]) || s[j] == '_')
        invariant
            from <= j <= s@.len(),
            v <= u32::MAX,
            number(s@, from as int, 0) == number(s@, j as int, v as nat),
        decreases s@.len() - j,
    {
        if s[j] == '_' {
            j = j + 1;
            continue;
        }
        let d = (s[j] as u32 - '0' as u32) as u64;
        assert(d == digit_value(s@[j as int]));
        let w = v * 10 + d;
        if w > 4294967295 {
            return None;
        }
        v = w;
        j = j + 1;
    }
    Some((v as u32, j))
}

fn scan_string(s: &Vec<char>, from: usize) -> (r: Option<(Vec<char>, usize)>)
    requires
        from <= s@.len(),
    ensures
        match string_body(s@, from as int, Seq::empty()) {
            Some((b, j)) => r matches Some((v, k)) && v@ == b && k == j && from < j <= s@.len(),
            None => r is None,
        },
{
    let mut body: Vec<char> = Vec::new();
    let mut j = from;
    proof { lemma_string_body(s@, from as int, Seq::empty()); }
    loop
        invariant
            from <= j <= s@.len(),
            string_body(s@, from as int, Seq::empty()) == string_body(s@, j as int, body@),
        decreases s@.len() - j,
    {
        if j >= s.len() {
            return None;
        }
        let d = s[j];
        if d == '"' {
            return Some((body, j + 1));
        }
        if d == '\\' {
            if j + 1 >= s.len() {
                return None;
            }
            match escape_exec(s[j + 1]) {
                Some(e) => {
                    body.push(e);
                    j = j + 2;
                },
                None => {
                    return None;
                },
            }
        } else {
            body.push(d);
            j = j + 1;
        }
    }
}

/// Splits a source text into tokens; `None` where it holds something that
/// is no token of the language.
pub fn lex(src: &str) -> (r: Option<Vec<Token>>)
    ensures
        match lex_spec(src@) {
            Some(ts) => r matches Some(v) && tokens_model(v@) == ts,
            None => r is None,
        },
{
    let s = chars_of(src);
    let n = s.len();
    let mut toks: Vec<Token> = Vec::new();
    let mut i: usize = 0;
    assert(tokens_model(toks@) =~= Seq::<SToken>::empty());
    while i < n
        invariant
            n == s@.len(),
            s@ == src@,
            i <= n,
            lex_spec(src@) == lex_from(s@, i as int, tokens_model(toks@)),
        decreases n - i,
    {
        let c = s[i];
        let ghost acc = tokens_model(toks@);
        if is_space_exec(c) {
            i = i + 1;
        } else if c == '/' && i + 1 < n && s[i + 1] == '/' {
            i = scan_line_end(&s, i + 2);
        } else if c == '/' && i + 1 < n && s[i + 1] == '*' {
            match scan_comment_end(&s, i + 2) {
                None => {
                    return None;
                },
                Some(j) => {
                    i = j;
                },
            }
        } else if is_ident_start_exec(c) {
            let j = scan_ident_end(&s, i + 1);
            let id = string_of(&s, i, j);
            toks.push(Token::Ident(id));
            assert(tokens_model(toks@) =~= acc.push(SToken::Ident(s@.subrange(i as int, j as int))));
            i = j;
        } else if c == '0' && i + 1 < n && s[i + 1] == 'x' {
            if !(i + 2 < n && is_hex_digit_exec(s[i + 2])) {
                return None;
            }
            match scan_hex(&s, i + 2) {
                None => {
                    return None;
                },
                Some((v, j)) => {
                    if j < n && is_ident_char_exec(s[j]) {
                        return None;
                    }
                    toks.push(Token::Int(v));
                    assert(tokens_model(toks@) =~= acc.push(SToken::Int(v)));
                    i = j;
                },
            }
        } else if is_digit_exec(c) {
            match scan_number(&s, i) {
                None => {
                    return None;
                },
                Some((v, j)) => {
                    if j < n && is_ident_char_exec(s[j]) {
                        return None;
                    }
                    toks.push(Token::Int(v));
                    assert(tokens_model(toks@) =~= acc.push(SToken::Int(v)));
                    i = j;
                },
            }
        } else if c == '"' {
            match scan_string(&s, i + 1) {
                None => {
                    return None;
                },
                Some((body, j)) => {
                    let lit = string_of(&body, 0, body.len());
                    assert(body@.subrange(0, body@.len() as int) =~= body@);
                    toks.push(Token::Str(lit));
                    assert(tokens_model(toks@) =~= acc.push(SToken::Str(body@)));
                    i = j;
                },
            }
        } else {
            match sym_at_exec(&s, i) {
                Some((y, j)) => {
                    toks.push(Token::Sym(y));
                    assert(tokens_model(toks@) =~= acc.push(SToken::Sym(y)));
                    i = j;
                },
                None => {
                    return None;
                },
            }
        }
    }
    Some(toks)
}

} // verus!
