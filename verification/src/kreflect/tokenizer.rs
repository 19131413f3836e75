use vstd::prelude::*;

use crate::kgltf::glb::lemma_encode_concat;
use crate::kserde::json_deserialize::{
    chars_of, digits_end, is_ascii_digit, is_digit, is_white_space, is_whitespace, simple_escape,
};
use vstd::utf8::{encode_scalar, encode_utf8};

verus! {

/// The characters from `start` up to `end` of the source text.
#[derive(Clone, Copy, Debug, PartialEq, Eq, Structural)]
pub struct Span {
    pub start: usize,
    pub end: usize,
}

/// A token of Rust source text. Names, string literals and float literals
/// point back into the text.
#[derive(Clone, Copy, Debug, PartialEq, Eq, Structural)]
pub enum Token {
    For,
    Struct,
    Enum,
    Fn,
    In,
    Pub,
    Use,
    OpenBrace,
    CloseBrace,
    OpenBracket,
    CloseBracket,
    PlusEqual,
    MinusEqual,
    TimesEqual,
    Colon,
    Plus,
    Star,
    Minus,
    /// `::`
    Colon2,
    Comma,
    LessThan,
    LessThanOrEqual,
    GreaterThan,
    GreaterThanOrEqual,
    OpenParentheses,
    CloseParentheses,
    Pound,
    Crate,
    SelfLowercase,
    Super,
    SingleQuote,
    SemiColon,
    Dyn,
    And,
    Mut,
    Not,
    Equal,
    EqualEqual,
    NotEqual,
    Const,
    CharLiteral(char),
    /// The characters between the quotes, escapes left as they are.
    StringLiteral(Span),
    LiteralBool(bool),
    IntegerLiteral(i128),
    /// The characters of the literal, to be read as a float.
    FloatLiteral(Span),
    BoolLiteral(bool),
    Identifier(Span),
    RArrow,
    FatArrow,
    Dot,
    DotDot,
    Div,
    DivEqual,
    Else,
    If,
    Let,
    Mod,
    Return,
    Or,
    VerticalBar,
}

/// Where a token ends: its line (counting the line breaks between tokens)
/// and the byte offset just after it.
#[derive(Clone, Copy, Debug, PartialEq, Eq, Structural)]
pub struct TokenPosition {
    pub line: usize,
    pub last_character: usize,
}

/// The byte offset of the character at `j` in the UTF-8 text.
pub open spec fn byte_offset(src: Seq<char>, j: int) -> int {
    encode_utf8(src.take(j)).len() as int
}

/// Characters that may appear in a name (or another unknown token).
pub open spec fn is_ident_char(c: char) -> bool {
    !is_white_space(c) && c != ':' && c != '+' && c != '-' && c != '*' && c != '(' && c != ')' && c
        != '{' && c != '}' && c != '^' && c != '/' && c != '.' && c != '|' && c != '&' && c != '"'
        && c != '\'' && c != '!' && c != ',' && c != '>' && c != '<'
}

/// The first index at or after `j` that holds no name character.
pub open spec fn ident_end(src: Seq<char>, j: int) -> int
    decreases src.len() - j,
{
    if j < 0 || j >= src.len() || !is_ident_char(src[j]) {
        j
    } else {
        ident_end(src, j + 1)
    }
}

/// The token that a word stands for: a keyword or a name.
pub open spec fn word_token(src: Seq<char>, start: int, end: int) -> Token {
    let w = src.subrange(start, end);
    if w == seq!['f', 'n'] {
        Token::Fn
    } else if w == seq!['l', 'e', 't'] {
        Token::Let
    } else if w == seq!['i', 'f'] {
        Token::If
    } else if w == seq!['m', 'o', 'd'] {
        Token::Mod
    } else if w == seq!['t', 'r', 'u', 'e'] {
        Token::BoolLiteral(true)
    } else if w == seq!['f', 'a', 'l', 's', 'e'] {
        Token::BoolLiteral(false)
    } else if w == seq!['e', 'l', 's', 'e'] {
        Token::Else
    } else if w == seq!['r', 'e', 't', 'u', 'r', 'n'] {
        Token::Return
    } else if w == seq!['f', 'o', 'r'] {
        Token::For
    } else if w == seq!['i', 'n'] {
        Token::In
    } else {
        Token::Identifier(Span { start: start as usize, end: end as usize })
    }
}

/// The value of decimal digits.
pub open spec fn digits_value(s: Seq<char>) -> int
    decreases s.len(),
{
    if s.len() == 0 {
        0
    } else {
        digits_value(s.drop_last()) * 10 + (s.last() as u32 - '0' as u32)
    }
}

/// The value of an integer literal: digits, with a minus sign before them
/// where `negative`.
pub open spec fn literal_value(digits: Seq<char>, negative: bool) -> int {
    if negative {
        -digits_value(digits)
    } else {
        digits_value(digits)
    }
}

/// Whether `v` fits an `i128`.
pub open spec fn fits_i128(v: int) -> bool {
    i128::MIN <= v <= i128::MAX
}

/// A number starting at `i` (a minus sign where `i < k`) whose digits
/// start at `k`: an integer, a float with a point, or an integer followed by
/// `..`, which gives two tokens. `None` where the integer does not fit.
pub open spec fn lex_number(src: Seq<char>, i: int, k: int) -> Option<(Seq<Token>, int)> {
    let d = digits_end(src, k);
    let value = literal_value(src.subrange(k, d), i < k);
    if d < src.len() && src[d] == '.' {
        if d + 1 < src.len() && src[d + 1] == '.' {
            if fits_i128(value) {
                Some((seq![Token::IntegerLiteral(value as i128), Token::DotDot], d + 2))
            } else {
                None
            }
        } else {
            let f = digits_end(src, d + 1);
            Some((seq![Token::FloatLiteral(Span { start: i as usize, end: f as usize })], f))
        }
    } else if fits_i128(value) {
        Some((seq![Token::IntegerLiteral(value as i128)], d))
    } else {
        None
    }
}

/// The first line break at or after `j`, or the end.
pub open spec fn line_end(src: Seq<char>, j: int) -> int
    decreases src.len() - j,
{
    if j < 0 || j >= src.len() || src[j] == '\n' {
        j
    } else {
        line_end(src, j + 1)
    }
}

/// Where a block comment ends, reading from `j` with `nesting` comments
/// open: a `*` or a `/` takes the character after it along.
pub open spec fn block_end(src: Seq<char>, j: int, nesting: int) -> int
    decreases src.len() - j,
{
    if j < 0 || j >= src.len() {
        src.len() as int
    } else if src[j] == '*' {
        if j + 1 < src.len() && src[j + 1] == '/' {
            if nesting <= 1 {
                j + 2
            } else {
                block_end(src, j + 2, nesting - 1)
            }
        } else {
            block_end(src, if j + 1 < src.len() { j + 2 } else { j + 1 }, nesting)
        }
    } else if src[j] == '/' {
        if j + 1 < src.len() && src[j + 1] == '*' {
            block_end(src, j + 2, nesting + 1)
        } else {
            block_end(src, if j + 1 < src.len() { j + 2 } else { j + 1 }, nesting)
        }
    } else {
        block_end(src, j + 1, nesting)
    }
}

/// Where a string literal's closing quote is, reading from `j`; a
/// backslash takes the character after it along. The end where there is
/// none.
pub open spec fn string_end(src: Seq<char>, j: int) -> int
    decreases src.len() - j,
{
    if j < 0 || j >= src.len() {
        src.len() as int
    } else if src[j] == '\\' {
        string_end(src, if j + 1 < src.len() { j + 2 } else { j + 1 })
    } else if src[j] == '"' {
        j
    } else {
        string_end(src, j + 1)
    }
}

/// The character that an escape in a character literal stands for; `None`
/// for `\x` and `\u`, which are not read.
pub open spec fn char_escape(e: char) -> Option<char> {
    if e == 'x' || e == 'u' {
        None
    } else if e == 'n' {
        Some('\n')
    } else if e == 'r' {
        Some('\r')
    } else if e == 't' {
        Some('\t')
    } else if e == '0' {
        Some('\0')
    } else {
        Some(e)
    }
}

/// The token that one character gives, or `second` where `next` follows.
pub open spec fn one_or_two(src: Seq<char>, i: int, next: char, second: Token, first: Token) -> Option<(Seq<Token>, int)> {
    let n = src.len();
    if i + 1 < n && src[i + 1] == next {
        Some((seq![second], i + 2))
    } else {
        Some((seq![first], i + 1))
    }
}

/// What the text gives at `i`, which holds no white space: the tokens (none
/// for a comment, two for an integer followed by `..`) and the index after
/// them; `None` where the text cannot be read there.
pub open spec fn lex_one(src: Seq<char>, i: int) -> Option<(Seq<Token>, int)> {
    let c = src[i];
    let n = src.len();
    if c == '{' {
        Some((seq![Token::OpenBrace], i + 1))
    } else if c == '}' {
        Some((seq![Token::CloseBrace], i + 1))
    } else if c == '[' {
        Some((seq![Token::OpenBracket], i + 1))
    } else if c == ']' {
        Some((seq![Token::CloseBracket], i + 1))
    } else if c == '(' {
        Some((seq![Token::OpenParentheses], i + 1))
    } else if c == ')' {
        Some((seq![Token::CloseParentheses], i + 1))
    } else if c == ',' {
        Some((seq![Token::Comma], i + 1))
    } else if c == ';' {
        Some((seq![Token::SemiColon], i + 1))
    } else if c == '|' {
        one_or_two(src, i, '|', Token::Or, Token::VerticalBar)
    } else if c == '+' {
        one_or_two(src, i, '=', Token::PlusEqual, Token::Plus)
    } else if c == '*' {
        one_or_two(src, i, '=', Token::TimesEqual, Token::Star)
    } else if c == '!' {
        one_or_two(src, i, '=', Token::NotEqual, Token::Not)
    } else if c == ':' {
        one_or_two(src, i, ':', Token::Colon2, Token::Colon)
    } else if c == '.' {
        one_or_two(src, i, '.', Token::DotDot, Token::Dot)
    } else if c == '=' {
        if i + 1 < n && src[i + 1] == '=' {
            Some((seq![Token::EqualEqual], i + 2))
        } else if i + 1 < n && src[i + 1] == '>' {
            Some((seq![Token::FatArrow], i + 2))
        } else {
            Some((seq![Token::Equal], i + 1))
        }
    } else if c == '-' {
        if i + 1 < n && src[i + 1] == '=' {
            Some((seq![Token::MinusEqual], i + 2))
        } else if i + 1 < n && src[i + 1] == '>' {
            Some((seq![Token::RArrow], i + 2))
        } else if i + 1 < n && is_digit(src[i + 1]) {
            lex_number(src, i, i + 1)
        } else {
            Some((seq![Token::Minus], i + 1))
        }
    } else if c == '<' {
        one_or_two(src, i, '=', Token::LessThanOrEqual, Token::LessThan)
    } else if c == '>' {
        one_or_two(src, i, '=', Token::GreaterThanOrEqual, Token::GreaterThan)
    } else if c == '/' {
        if i + 1 < n && src[i + 1] == '/' {
            Some((Seq::empty(), line_end(src, i + 1)))
        } else if i + 1 < n && src[i + 1] == '*' {
            Some((Seq::empty(), block_end(src, i + 1, 1)))
        } else if i + 1 < n && src[i + 1] == '=' {
            Some((seq![Token::DivEqual], i + 1))
        } else {
            Some((seq![Token::Div], i + 1))
        }
    } else if is_digit(c) {
        lex_number(src, i, i)
    } else if c == '\'' {
        if i + 1 >= n {
            None
        } else if src[i + 1] == '\\' {
            if i + 2 >= n {
                None
            } else {
                match char_escape(src[i + 2]) {
                    None => None,
                    Some(ch) => if i + 3 < n && src[i + 3] == '\'' {
                        Some((seq![Token::CharLiteral(ch)], i + 4))
                    } else {
                        None
                    },
                }
            }
        } else if i + 2 < n && src[i + 2] == '\'' {
            Some((seq![Token::CharLiteral(src[i + 1])], i + 3))
        } else {
            None
        }
    } else if c == '"' {
        let q = string_end(src, i + 1);
        if q < n {
            Some((seq![Token::StringLiteral(Span { start: (i + 1) as usize, end: q as usize })], q + 1))
        } else if i + 1 >= n || (src[n - 1] as u32) >= 0x80 {
            None
        } else {
            Some((seq![Token::StringLiteral(Span { start: (i + 1) as usize, end: (n - 1) as usize })], n as int))
        }
    } else {
        let e = ident_end(src, i);
        if e == i {
            None
        } else {
            Some((seq![word_token(src, i, e)], e))
        }
    }
}

/// The tokens of the text from `i` on, and where each step that gave tokens
/// ended (one position for the two tokens of an integer followed by `..`);
/// `line` counts the line breaks seen between tokens. `None` where the text
/// cannot be read.
pub open spec fn tokens_from(src: Seq<char>, i: int, line: int) -> Option<(Seq<Token>, Seq<TokenPosition>)>
    decreases src.len() - i,
{
    if i < 0 || i >= src.len() {
        Some((Seq::empty(), Seq::empty()))
    } else if is_white_space(src[i]) {
        tokens_from(src, i + 1, if src[i] == '\n' { line + 1 } else { line })
    } else {
        match lex_one(src, i) {
            None => None,
            Some((ts, j)) => if j <= i || j > src.len() {
                None
            } else {
                match tokens_from(src, j, line) {
                    None => None,
                    Some((rest, positions)) => Some((
                        ts + rest,
                        if ts.len() > 0 {
                            seq![TokenPosition { line: line as usize, last_character: byte_offset(src, j) as usize }]
                                + positions
                        } else {
                            positions
                        },
                    )),
                }
            },
        }
    }
}

/// The tokens and positions that came before, in front of those of the rest.
pub open spec fn joined_result(
    tokens: Seq<Token>,
    positions: Seq<TokenPosition>,
    rest: Option<(Seq<Token>, Seq<TokenPosition>)>,
) -> Option<(Seq<Token>, Seq<TokenPosition>)> {
    match rest {
        Some((t, p)) => Some((tokens + t, positions + p)),
        None => None,
    }
}

/// How many bytes the UTF-8 of `c` takes.
fn utf8_len(c: char) -> (r: usize)
    ensures
        r == encode_scalar(c as u32).len(),
{
    let u = c as u32;
    if u <= 0x7F {
        1
    } else if u <= 0x7FF {
        2
    } else if u <= 0xFFFF {
        3
    } else {
        4
    }
}

proof fn lemma_byte_offset_step(src: Seq<char>, j: int)
    requires
        0 <= j < src.len(),
    ensures
        byte_offset(src, j + 1) == byte_offset(src, j) + encode_scalar(src[j] as u32).len(),
{
    assert(src.take(j + 1) =~= src.take(j) + seq![src[j]]);
    lemma_encode_concat(src.take(j), seq![src[j]]);
    let single = seq![src[j]];
    assert(single.drop_first() =~= Seq::<char>::empty());
    assert(encode_utf8(single.drop_first()) =~= Seq::<u8>::empty());
    assert(encode_utf8(single) == encode_scalar(single[0] as u32) + encode_utf8(single.drop_first()));
    assert(encode_utf8(single) =~= encode_scalar(src[j] as u32));
}

proof fn lemma_byte_offset_le(src: Seq<char>, j: int)
    requires
        0 <= j <= src.len(),
    ensures
        byte_offset(src, j) <= encode_utf8(src).len(),
{
    assert(src =~= src.take(j) + src.skip(j));
    lemma_encode_concat(src.take(j), src.skip(j));
}

proof fn lemma_digits_value_prefix(s: Seq<char>, p: int)
    requires
        0 <= p <= s.len(),
        forall|k: int| 0 <= k < s.len() ==> #[trigger] is_digit(s[k]),
    ensures
        0 <= digits_value(s.take(p)) <= digits_value(s),
    decreases s.len() - p,
{
    if p < s.len() {
        lemma_digits_value_prefix(s, p + 1);
        assert(s.take(p + 1).drop_last() =~= s.take(p));
        assert(is_digit(s.take(p + 1).last()));
    } else {
        assert(s.take(p) =~= s);
        lemma_digits_value_nonneg(s);
    }
}

proof fn lemma_digits_value_nonneg(s: Seq<char>)
    requires
        forall|k: int| 0 <= k < s.len() ==> #[trigger] is_digit(s[k]),
    ensures
        0 <= digits_value(s),
    decreases s.len(),
{
    if s.len() > 0 {
        lemma_digits_value_nonneg(s.drop_last());
        assert(is_digit(s[s.len() - 1]));
    }
}

/// The first index at or after `j` that holds no digit.
fn find_digits_end(src: &Vec<char>, j: usize) -> (r: usize)
    requires
        j <= src@.len(),
    ensures
        r == digits_end(src@, j as int),
        j <= r <= src@.len(),
        forall|k: int| j <= k < r ==> #[trigger] is_digit(src@[k]),
{
    let mut p = j;
    while p < src.len() && is_ascii_digit(src[p])
        invariant
            j <= p <= src@.len(),
            digits_end(src@, p as int) == digits_end(src@, j as int),
            forall|k: int| j <= k < p ==> #[trigger] is_digit(src@[k]),
        decreases src@.len() - p,
    {
        p += 1;
    }
    p
}

/// The value of the digits from `k` up to `d`, negated where `negative`,
/// where it fits an `i128`.
pub(crate) fn literal_from(src: &Vec<char>, k: usize, d: usize, negative: bool) -> (r: Option<i128>)
    requires
        k <= d <= src@.len(),
        forall|x: int| k <= x < d ==> #[trigger] is_digit(src@[x]),
    ensures
        r is Some <==> fits_i128(literal_value(src@.subrange(k as int, d as int), negative)),
        r matches Some(v) ==> v == literal_value(src@.subrange(k as int, d as int), negative),
{
    let ghost digits = src@.subrange(k as int, d as int);
    assert forall|x: int| 0 <= x < digits.len() implies #[trigger] is_digit(digits[x]) by {
        assert(digits[x] == src@[k + x]);
    }
    let mut v: i128 = 0;
    let mut p = k;
    while p < d
        invariant
            k <= p <= d <= src@.len(),
            digits == src@.subrange(k as int, d as int),
            forall|x: int| 0 <= x < digits.len() ==> #[trigger] is_digit(digits[x]),
            v == literal_value(digits.take(p - k), negative),
        decreases d - p,
    {
        assert(digits[p - k] == src@[p as int]);
        assert(is_digit(digits[p - k]));
        let digit = (src[p] as u32 - 0x30) as i128;
        proof {
            lemma_digits_value_prefix(digits, p - k + 1);
            lemma_digits_value_prefix(digits, p - k);
            assert(digits.take(p - k + 1).drop_last() =~= digits.take(p - k));
            assert(digits.take(p - k + 1).last() == src@[p as int]);
        }
        let next = match v.checked_mul(10) {
            Some(m) => if negative {
                m.checked_sub(digit)
            } else {
                m.checked_add(digit)
            },
            None => None,
        };
        match next {
            Some(n) => {
                v = n;
            },
            None => {
                return None;
            },
        }
        p += 1;
    }
    assert(digits.take(d - k) =~= digits);
    Some(v)
}

/// What `lex_number` gives.
fn lex_number_at(src: &Vec<char>, i: usize, k: usize) -> (r: Option<(Vec<Token>, usize)>)
    requires
        i <= k <= src@.len(),
        k == i || k == i + 1,
    ensures
        match lex_number(src@, i as int, k as int) {
            Some((ts, j)) => r matches Some((v, j2)) && v@ == ts && j2 == j,
            None => r is None,
        },
{
    let n = src.len();
    let d = find_digits_end(src, k);
    let negative = i < k;
    if d < n && src[d] == '.' {
        if d + 1 < n && src[d + 1] == '.' {
            match literal_from(src, k, d, negative) {
                Some(v) => {
                    let mut ts = Vec::new();
                    ts.push(Token::IntegerLiteral(v));
                    ts.push(Token::DotDot);
                    assert(ts@ =~= seq![Token::IntegerLiteral(v), Token::DotDot]);
                    Some((ts, d + 2))
                },
                None => None,
            }
        } else {
            let f = find_digits_end(src, d + 1);
            let mut ts = Vec::new();
            ts.push(Token::FloatLiteral(Span { start: i, end: f }));
            assert(ts@ =~= seq![Token::FloatLiteral(Span { start: i, end: f })]);
            Some((ts, f))
        }
    } else {
        match literal_from(src, k, d, negative) {
            Some(v) => {
                let mut ts = Vec::new();
                ts.push(Token::IntegerLiteral(v));
                assert(ts@ =~= seq![Token::IntegerLiteral(v)]);
                Some((ts, d))
            },
            None => None,
        }
    }
}

/// Whether `c` may appear in a name.
fn is_identifier_character(c: char) -> (r: bool)
    ensures
        r == is_ident_char(c),
{
    !is_whitespace(c) && c != ':' && c != '+' && c != '-' && c != '*' && c != '(' && c != ')' && c
        != '{' && c != '}' && c != '^' && c != '/' && c != '.' && c != '|' && c != '&' && c != '"'
        && c != '\'' && c != '!' && c != ',' && c != '>' && c != '<'
}

fn find_ident_end(src: &Vec<char>, j: usize) -> (r: usize)
    requires
        j <= src@.len(),
    ensures
        r == ident_end(src@, j as int),
        j <= r <= src@.len(),
{
    let mut p = j;
    while p < src.len() && is_identifier_character(src[p])
        invariant
            j <= p <= src@.len(),
            ident_end(src@, p as int) == ident_end(src@, j as int),
        decreases src@.len() - p,
    {
        p += 1;
    }
    p
}

fn find_line_end(src: &Vec<char>, j: usize) -> (r: usize)
    requires
        j <= src@.len(),
    ensures
        r == line_end(src@, j as int),
        j <= r <= src@.len(),
{
    let mut p = j;
    while p < src.len() && src[p] != '\n'
        invariant
            j <= p <= src@.len(),
            line_end(src@, p as int) == line_end(src@, j as int),
        decreases src@.len() - p,
    {
        p += 1;
    }
    p
}

fn find_block_end(src: &Vec<char>, j: usize) -> (r: usize)
    requires
        j <= src@.len(),
    ensures
        r == block_end(src@, j as int, 1),
        j <= r <= src@.len(),
{
    let n = src.len();
    let mut p = j;
    let mut nesting: usize = 1;
    while p < n
        invariant
            n == src@.len(),
            j <= p <= n,
            1 <= nesting <= p + 1,
            block_end(src@, p as int, nesting as int) == block_end(src@, j as int, 1),
        decreases n - p,
    {
        let c = src[p];
        if c == '*' {
            if p + 1 < n && src[p + 1] == '/' {
                if nesting <= 1 {
                    return p + 2;
                }
                nesting -= 1;
                p += 2;
            } else if p + 1 < n {
                p += 2;
            } else {
                p += 1;
            }
        } else if c == '/' {
            if p + 1 < n && src[p + 1] == '*' {
                nesting += 1;
                p += 2;
            } else if p + 1 < n {
                p += 2;
            } else {
                p += 1;
            }
        } else {
            p += 1;
        }
    }
    n
}

fn find_string_end(src: &Vec<char>, j: usize) -> (r: usize)
    requires
        j <= src@.len(),
    ensures
        r == string_end(src@, j as int),
        j <= r <= src@.len(),
{
    let n = src.len();
    let mut p = j;
    while p < n
        invariant
            n == src@.len(),
            j <= p <= n,
            string_end(src@, p as int) == string_end(src@, j as int),
        decreases n - p,
    {
        let c = src[p];
        if c == '\\' {
            if p + 1 < n {
                p += 2;
            } else {
                p += 1;
            }
        } else if c == '"' {
            return p;
        } else {
            p += 1;
        }
    }
    n
}

/// Whether the characters from `start` up to `end` spell `word`.
fn spells(src: &Vec<char>, start: usize, end: usize, word: &[char]) -> (r: bool)
    requires
        start <= end <= src@.len(),
    ensures
        r == (src@.subrange(start as int, end as int) == word@),
{
    if end - start != word.len() {
        return false;
    }
    let mut k: usize = 0;
    while k < word.len()
        invariant
            start <= end <= src@.len(),
            end - start == word@.len(),
            k <= word@.len(),
            forall|x: int| 0 <= x < k ==> src@[start + x] == word@[x],
        decreases word@.len() - k,
    {
        if src[start + k] != word[k] {
            assert(src@.subrange(start as int, end as int)[k as int] != word@[k as int]);
            return false;
        }
        k += 1;
    }
    assert(src@.subrange(start as int, end as int) =~= word@);
    true
}

fn word_token_of(src: &Vec<char>, start: usize, end: usize) -> (r: Token)
    requires
        start <= end <= src@.len(),
    ensures
        r == word_token(src@, start as int, end as int),
{
    let fn_word = ['f', 'n'];
    let let_word = ['l', 'e', 't'];
    let if_word = ['i', 'f'];
    let mod_word = ['m', 'o', 'd'];
    let true_word = ['t', 'r', 'u', 'e'];
    let false_word = ['f', 'a', 'l', 's', 'e'];
    let else_word = ['e', 'l', 's', 'e'];
    let return_word = ['r', 'e', 't', 'u', 'r', 'n'];
    let for_word = ['f', 'o', 'r'];
    let in_word = ['i', 'n'];
    assert(fn_word@ =~= seq!['f', 'n']);
    assert(let_word@ =~= seq!['l', 'e', 't']);
    assert(if_word@ =~= seq!['i', 'f']);
    assert(mod_word@ =~= seq!['m', 'o', 'd']);
    assert(true_word@ =~= seq!['t', 'r', 'u', 'e']);
    assert(false_word@ =~= seq!['f', 'a', 'l', 's', 'e']);
    assert(else_word@ =~= seq!['e', 'l', 's', 'e']);
    assert(return_word@ =~= seq!['r', 'e', 't', 'u', 'r', 'n']);
    assert(for_word@ =~= seq!['f', 'o', 'r']);
    assert(in_word@ =~= seq!['i', 'n']);
    if spells(src, start, end, &fn_word) {
        Token::Fn
    } else if spells(src, start, end, &let_word) {
        Token::Let
    } else if spells(src, start, end, &if_word) {
        Token::If
    } else if spells(src, start, end, &mod_word) {
        Token::Mod
    } else if spells(src, start, end, &true_word) {
        Token::BoolLiteral(true)
    } else if spells(src, start, end, &false_word) {
        Token::BoolLiteral(false)
    } else if spells(src, start, end, &else_word) {
        Token::Else
    } else if spells(src, start, end, &return_word) {
        Token::Return
    } else if spells(src, start, end, &for_word) {
        Token::For
    } else if spells(src, start, end, &in_word) {
        Token::In
    } else {
        Token::Identifier(Span { start, end })
    }
}

fn one(t: Token, j: usize) -> (r: Option<(Vec<Token>, usize)>)
    ensures
        r matches Some((v, j2)) && v@ == seq![t] && j2 == j,
{
    let mut v = Vec::new();
    v.push(t);
    assert(v@ =~= seq![t]);
    Some((v, j))
}

fn one_or_two_at(src: &Vec<char>, i: usize, next: char, second: Token, first: Token) -> (r: Option<(Vec<Token>, usize)>)
    requires
        i < src@.len(),
    ensures
        match one_or_two(src@, i as int, next, second, first) {
            Some((ts, j)) => r matches Some((v, j2)) && v@ == ts && j2 == j,
            None => r is None,
        },
{
    let n = src.len();
    if i + 1 < n && src[i + 1] == next {
        one(second, i + 2)
    } else {
        one(first, i + 1)
    }
}

/// What `lex_one` gives for a character literal at `i`.
fn lex_char_at(src: &Vec<char>, i: usize) -> (r: Option<(Vec<Token>, usize)>)
    requires
        i < src@.len(),
        src@[i as int] == '\'',
    ensures
        match lex_one(src@, i as int) {
            Some((ts, j)) => r matches Some((v, j2)) && v@ == ts && j2 == j,
            None => r is None,
        },
{
    let n = src.len();
    if i + 1 >= n {
        return None;
    }
    if src[i + 1] == '\\' {
        if i + 2 >= n {
            return None;
        }
        let e = src[i + 2];
        let ch = if e == 'x' || e == 'u' {
            return None;
        } else if e == 'n' {
            '\n'
        } else if e == 'r' {
            '\r'
        } else if e == 't' {
            '\t'
        } else if e == '0' {
            '\0'
        } else {
            e
        };
        if i + 3 < n && src[i + 3] == '\'' {
            one(Token::CharLiteral(ch), i + 4)
        } else {
            None
        }
    } else if i + 2 < n && src[i + 2] == '\'' {
        one(Token::CharLiteral(src[i + 1]), i + 3)
    } else {
        None
    }
}

/// What `lex_one` gives for a string literal at `i`.
fn lex_string_at(src: &Vec<char>, i: usize) -> (r: Option<(Vec<Token>, usize)>)
    requires
        i < src@.len(),
        src@[i as int] == '"',
    ensures
        match lex_one(src@, i as int) {
            Some((ts, j)) => r matches Some((v, j2)) && v@ == ts && j2 == j,
            None => r is None,
        },
{
    let n = src.len();
    let q = find_string_end(src, i + 1);
    if q < n {
        one(Token::StringLiteral(Span { start: i + 1, end: q }), q + 1)
    } else if i + 1 >= n || src[n - 1] as u32 >= 0x80 {
        None
    } else {
        one(Token::StringLiteral(Span { start: i + 1, end: n - 1 }), n)
    }
}

/// What `lex_one` gives for a `/` at `i`: a comment, `/=` or `/`.
fn lex_slash_at(src: &Vec<char>, i: usize) -> (r: Option<(Vec<Token>, usize)>)
    requires
        i < src@.len(),
        src@[i as int] == '/',
    ensures
        match lex_one(src@, i as int) {
            Some((ts, j)) => r matches Some((v, j2)) && v@ == ts && j2 == j,
            None => r is None,
        },
{
    let n = src.len();
    if i + 1 < n && src[i + 1] == '/' {
        let j = find_line_end(src, i + 1);
        Some((Vec::new(), j))
    } else if i + 1 < n && src[i + 1] == '*' {
        let j = find_block_end(src, i + 1);
        Some((Vec::new(), j))
    } else if i + 1 < n && src[i + 1] == '=' {
        one(Token::DivEqual, i + 1)
    } else {
        one(Token::Div, i + 1)
    }
}

/// What `lex_one` gives for `-`, `=`, `<` or `>` at `i`.
fn lex_operator_at(src: &Vec<char>, i: usize) -> (r: Option<(Vec<Token>, usize)>)
    requires
        i < src@.len(),
        src@[i as int] == '-' || src@[i as int] == '=' || src@[i as int] == '<' || src@[i as int] == '>',
    ensures
        match lex_one(src@, i as int) {
            Some((ts, j)) => r matches Some((v, j2)) && v@ == ts && j2 == j,
            None => r is None,
        },
{
    let n = src.len();
    let c = src[i];
    if c == '=' {
        if i + 1 < n && src[i + 1] == '=' {
            one(Token::EqualEqual, i + 2)
        } else if i + 1 < n && src[i + 1] == '>' {
            one(Token::FatArrow, i + 2)
        } else {
            one(Token::Equal, i + 1)
        }
    } else if c == '-' {
        if i + 1 < n && src[i + 1] == '=' {
            one(Token::MinusEqual, i + 2)
        } else if i + 1 < n && src[i + 1] == '>' {
            one(Token::RArrow, i + 2)
        } else if i + 1 < n && is_ascii_digit(src[i + 1]) {
            lex_number_at(src, i, i + 1)
        } else {
            one(Token::Minus, i + 1)
        }
    } else if c == '<' {
        one_or_two_at(src, i, '=', Token::LessThanOrEqual, Token::LessThan)
    } else {
        one_or_two_at(src, i, '=', Token::GreaterThanOrEqual, Token::GreaterThan)
    }
}

/// What the text gives at `i`: see `lex_one`.
fn lex_one_at(src: &Vec<char>, i: usize) -> (r: Option<(Vec<Token>, usize)>)
    requires
        i < src@.len(),
    ensures
        match lex_one(src@, i as int) {
            Some((ts, j)) => r matches Some((v, j2)) && v@ == ts && j2 == j,
            None => r is None,
        },
{
    let n = src.len();
    let c = src[i];
    if c == '{' {
        one(Token::OpenBrace, i + 1)
    } else if c == '}' {
        one(Token::CloseBrace, i + 1)
    } else if c == '[' {
        one(Token::OpenBracket, i + 1)
    } else if c == ']' {
        one(Token::CloseBracket, i + 1)
    } else if c == '(' {
        one(Token::OpenParentheses, i + 1)
    } else if c == ')' {
        one(Token::CloseParentheses, i + 1)
    } else if c == ',' {
        one(Token::Comma, i + 1)
    } else if c == ';' {
        one(Token::SemiColon, i + 1)
    } else if c == '|' {
        one_or_two_at(src, i, '|', Token::Or, Token::VerticalBar)
    } else if c == '+' {
        one_or_two_at(src, i, '=', Token::PlusEqual, Token::Plus)
    } else if c == '*' {
        one_or_two_at(src, i, '=', Token::TimesEqual, Token::Star)
    } else if c == '!' {
        one_or_two_at(src, i, '=', Token::NotEqual, Token::Not)
    } else if c == ':' {
        one_or_two_at(src, i, ':', Token::Colon2, Token::Colon)
    } else if c == '.' {
        one_or_two_at(src, i, '.', Token::DotDot, Token::Dot)
    } else if c == '=' || c == '-' || c == '<' || c == '>' {
        lex_operator_at(src, i)
    } else if c == '/' {
        lex_slash_at(src, i)
    } else if is_ascii_digit(c) {
        lex_number_at(src, i, i)
    } else if c == '\'' {
        lex_char_at(src, i)
    } else if c == '"' {
        lex_string_at(src, i)
    } else {
        let e = find_ident_end(src, i);
        if e == i {
            None
        } else {
            one(word_token_of(src, i, e), e)
        }
    }
}

/// Splits Rust source text into tokens, and gives the position after each
/// step that gave tokens; `None` where the text cannot be read (see
/// `tokens_from`).
pub fn try_tokenize(s: &str) -> (r: Option<(Vec<Token>, Vec<TokenPosition>)>)
    ensures
        r matches Some((t, p)) ==> tokens_from(s@, 0, 0) == Some((t@, p@)),
        tokens_from(s@, 0, 0) is Some && encode_utf8(s@).len() <= usize::MAX ==> r is Some,
        tokens_from(s@, 0, 0) is None ==> r is None,
{
    let src = chars_of(s);
    let n = src.len();
    let mut tokens: Vec<Token> = Vec::new();
    let mut positions: Vec<TokenPosition> = Vec::new();
    let mut i: usize = 0;
    let mut line: usize = 0;
    let mut byte: usize = 0;
    assert(tokens_from(src@, 0, 0) =~= joined_result(tokens@, positions@, tokens_from(src@, 0, 0))) by {
        match tokens_from(src@, 0, 0) {
            Some((t, p)) => {
                assert(tokens@ + t =~= t);
                assert(positions@ + p =~= p);
            },
            None => {},
        }
    }
    assert(src@.take(0) =~= Seq::<char>::empty());
    assert(encode_utf8(Seq::<char>::empty()) =~= Seq::<u8>::empty());
    while i < n
        invariant
            n == src@.len(),
            src@ == s@,
            i <= n,
            line <= i,
            byte == byte_offset(src@, i as int),
            tokens_from(src@, 0, 0) == joined_result(tokens@, positions@, tokens_from(src@, i as int, line as int)),
        decreases n - i,
    {
        let c = src[i];
        let width = utf8_len(c);
        proof {
            lemma_byte_offset_step(src@, i as int);
            lemma_byte_offset_le(src@, i + 1);
        }
        if is_whitespace(c) {
            byte = match byte.checked_add(width) {
                Some(b) => b,
                None => return None,
            };
            if c == '\n' {
                line += 1;
            }
            i += 1;
        } else {
            match lex_one_at(&src, i) {
                Some((ts, j)) => {
                    if j <= i || j > n {
                        return None;
                    }
                    let ghost old_tokens = tokens@;
                    let ghost old_positions = positions@;
                    let ghost rest = tokens_from(src@, j as int, line as int);
                    let mut b = byte;
                    let mut p = i;
                    while p < j
                        invariant
                            i <= p <= j <= src@.len(),
                            src@ == s@,
                            b == byte_offset(src@, p as int),
                        decreases j - p,
                    {
                        proof {
                            lemma_byte_offset_step(src@, p as int);
                            lemma_byte_offset_le(src@, p + 1);
                        }
                        b = match b.checked_add(utf8_len(src[p])) {
                            Some(x) => x,
                            None => return None,
                        };
                        p += 1;
                    }
                    let pushed = ts.len() > 0;
                    if pushed {
                        positions.push(TokenPosition { line, last_character: b });
                    }
                    let mut k: usize = 0;
                    while k < ts.len()
                        invariant
                            k <= ts@.len(),
                            tokens@ == old_tokens + ts@.take(k as int),
                        decreases ts@.len() - k,
                    {
                        tokens.push(ts[k]);
                        k += 1;
                        assert(tokens@ =~= old_tokens + ts@.take(k as int));
                    }
                    proof {
                        assert(ts@.take(ts@.len() as int) =~= ts@);
                        if let Some((rt, rp)) = rest {
                            assert(old_tokens + (ts@ + rt) =~= tokens@ + rt);
                            if pushed {
                                let pos = seq![TokenPosition { line: line as usize, last_character: byte_offset(src@, j as int) as usize }];
                                assert(old_positions + (pos + rp) =~= positions@ + rp);
                            } else {
                                assert(positions@ == old_positions);
                            }
                        }
                    }
                    i = j;
                    byte = b;
                },
                None => {
                    return None;
                },
            }
        }
    }
    proof {
        assert(tokens@ + Seq::<Token>::empty() =~= tokens@);
        assert(positions@ + Seq::<TokenPosition>::empty() =~= positions@);
    }
    Some((tokens, positions))
}

/// Splits Rust source text into tokens, and gives the position after each
/// step that gave tokens. The text must be one that can be read: no `&` or
/// `^` outside literals and comments, no character literal that is not
/// closed at once, no integer that does not fit an `i128`, and so on.
pub fn tokenize(s: &str) -> (r: (Vec<Token>, Vec<TokenPosition>))
    requires
        tokens_from(s@, 0, 0) is Some,
        encode_utf8(s@).len() <= usize::MAX,
    ensures
        tokens_from(s@, 0, 0) == Some((r.0@, r.1@)),
{
    match try_tokenize(s) {
        Some(r) => r,
        None => (Vec::new(), Vec::new()),
    }
}

/// A character literal `'\e'` reads as the character its escape names, as
/// Rust defines them: `\n` line feed (U+000A), `\r` carriage return
/// (U+000D), `\t` tab (U+0009), `\0` null (U+0000); any other escaped
/// character but `x` and `u` stands for itself.
pub proof fn lemma_char_literal_escapes(src: Seq<char>, i: int)
    requires
        0 <= i,
        i + 3 < src.len(),
        src[i] == '\'',
        src[i + 1] == '\\',
        src[i + 3] == '\'',
        src[i + 2] != 'x' && src[i + 2] != 'u',
    ensures
        lex_one(src, i) == Some((
            seq![
                Token::CharLiteral(
                    if src[i + 2] == 'n' {
                        0x0Aint as char
                    } else if src[i + 2] == 'r' {
                        0x0Dint as char
                    } else if src[i + 2] == 't' {
                        0x09int as char
                    } else if src[i + 2] == '0' {
                        0int as char
                    } else {
                        src[i + 2]
                    },
                ),
            ],
            i + 4,
        )),
{
    let e = src[i + 2];
    if e == 'n' {
        assert((0x0Aint as char) == '\n');
    } else if e == 'r' {
        assert((0x0Dint as char) == '\r');
    } else if e == 't' {
        assert((0x09int as char) == '\t');
    } else if e == '0' {
        assert((0int as char) == '\0');
    }
    assert(char_escape(e) is Some);
}

/// The escapes that Rust character literals share with JSON strings (`\n`,
/// `\r`, `\t`, `\\`, `\"`) stand for the same characters in both.
pub proof fn lemma_char_escapes_agree_with_json(e: char)
    requires
        e == 'n' || e == 'r' || e == 't' || e == '\\' || e == '"',
    ensures
        char_escape(e) == simple_escape(e),
{
}

} // verus!
