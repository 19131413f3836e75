use vstd::prelude::*;

use crate::kreflect::common::Token;
use crate::kreflect::tokenizer::{fits_i128, literal_from, literal_value};
use crate::kserde::json_deserialize::{chars_of, is_ascii_digit, is_digit, same_text};

verus! {

/// Whether a punctuation character stands alone or is joined to the token
/// after it.
#[derive(Clone, Copy, Debug, PartialEq, Eq, Structural)]
pub enum Spacing {
    Alone,
    Joint,
}

/// The brackets around a group of token trees; `Invisible` groups have none.
#[derive(Clone, Copy, Debug, PartialEq, Eq, Structural)]
pub enum Delimiter {
    Parenthesis,
    Brace,
    Bracket,
    Invisible,
}

/// A token tree as a derive macro receives it: a name, a punctuation
/// character, a group in brackets, or a literal with the text it was written
/// with.
#[derive(Debug)]
pub enum TokenTree {
    Ident(String),
    Punct(char, Spacing),
    Group(Delimiter, Vec<TokenTree>),
    Literal(String),
}

pub enum TokenTreeModel {
    Ident(String),
    Punct(char, Spacing),
    Group(Delimiter, Seq<TokenTreeModel>),
    Literal(String),
}

pub open spec fn tree_model(t: TokenTree) -> TokenTreeModel
    decreases t,
{
    match t {
        TokenTree::Ident(s) => TokenTreeModel::Ident(s),
        TokenTree::Punct(c, s) => TokenTreeModel::Punct(c, s),
        TokenTree::Group(d, v) => TokenTreeModel::Group(
            d,
            Seq::new(
                v@.len(),
                |i: int|
                    if 0 <= i < v@.len() {
                        tree_model(v@[i])
                    } else {
                        TokenTreeModel::Punct(' ', Spacing::Alone)
                    },
            ),
        ),
        TokenTree::Literal(s) => TokenTreeModel::Literal(s),
    }
}

impl View for TokenTree {
    type V = TokenTreeModel;

    open spec fn view(&self) -> TokenTreeModel {
        tree_model(*self)
    }
}

/// The trees of a stream.
pub open spec fn trees_model(v: Seq<TokenTree>) -> Seq<TokenTreeModel> {
    Seq::new(v.len(), |i: int| v[i]@)
}

/// The token for a name: a keyword the parser knows, or an identifier.
pub open spec fn ident_token(s: String) -> Token {
    if s@ == "struct"@ {
        Token::Struct
    } else if s@ == "enum"@ {
        Token::Enum
    } else if s@ == "fn"@ {
        Token::Fn
    } else if s@ == "for"@ {
        Token::For
    } else if s@ == "in"@ {
        Token::In
    } else if s@ == "pub"@ {
        Token::Pub
    } else if s@ == "use"@ {
        Token::Use
    } else if s@ == "crate"@ {
        Token::Crate
    } else if s@ == "self"@ {
        Token::SelfLowercase
    } else if s@ == "super"@ {
        Token::Super
    } else if s@ == "dyn"@ {
        Token::Dyn
    } else if s@ == "mut"@ {
        Token::Mut
    } else if s@ == "const"@ {
        Token::Const
    } else {
        Token::Identifier(s)
    }
}

/// The token for a punctuation character standing alone; none for the
/// characters the parser does not know.
pub open spec fn char_token(c: char) -> Option<Token> {
    if c == ':' {
        Some(Token::Colon)
    } else if c == ',' {
        Some(Token::Comma)
    } else if c == '<' {
        Some(Token::LessThan)
    } else if c == '>' {
        Some(Token::GreaterThan)
    } else if c == '#' {
        Some(Token::Pound)
    } else if c == '\'' {
        Some(Token::SingleQuote)
    } else if c == ';' {
        Some(Token::SemiColon)
    } else if c == '&' {
        Some(Token::And)
    } else if c == '!' {
        Some(Token::Not)
    } else if c == '=' {
        Some(Token::Equal)
    } else if c == '+' {
        Some(Token::Plus)
    } else if c == '*' {
        Some(Token::Star)
    } else {
        None
    }
}

/// The tokens for two joined punctuation characters.
pub open spec fn pair_tokens(a: char, b: char) -> Option<Seq<Token>> {
    if a == '+' && b == '=' {
        Some(seq![Token::PlusEqual])
    } else if a == '-' && b == '=' {
        Some(seq![Token::MinusEqual])
    } else if a == '*' && b == '=' {
        Some(seq![Token::TimesEqual])
    } else if a == '<' && b == '=' {
        Some(seq![Token::LessThanOrEqual])
    } else if a == '>' && b == '=' {
        Some(seq![Token::GreaterThanOrEqual])
    } else if a == ':' && b == ':' {
        Some(seq![Token::Colon2])
    } else if a == '-' && b == '>' {
        Some(seq![Token::RArrow])
    } else {
        match (char_token(a), char_token(b)) {
            (Some(x), Some(y)) => Some(seq![x, y]),
            _ => None,
        }
    }
}

/// Whether every character is one of `0` to `9`.
pub open spec fn all_digits(s: Seq<char>) -> bool {
    forall|i: int| 0 <= i < s.len() ==> #[trigger] is_digit(s[i])
}

/// What `i128`'s `from_str` reads from `s`: an optional sign and at least
/// one digit, with a value that fits.
pub open spec fn parsed_i128(s: Seq<char>) -> Option<i128> {
    let negative = s.len() > 0 && s[0] == '-';
    let digits = if s.len() > 0 && (s[0] == '-' || s[0] == '+') {
        s.drop_first()
    } else {
        s
    };
    if digits.len() > 0 && all_digits(digits) && fits_i128(literal_value(digits, negative)) {
        Some(literal_value(digits, negative) as i128)
    } else {
        None
    }
}

/// `c` in lower case, for the letters `A` to `Z`.
pub open spec fn lower(c: char) -> char {
    if 'A' <= c <= 'Z' {
        ((c as u32) + 32) as char
    } else {
        c
    }
}

/// The digits of a float with at most one point and at least one digit.
pub open spec fn mantissa_ok(m: Seq<char>) -> bool {
    &&& forall|i: int| 0 <= i < m.len() ==> is_digit(#[trigger] m[i]) || m[i] == '.'
    &&& forall|i: int, j: int| 0 <= i < m.len() && 0 <= j < m.len() && #[trigger] m[i] == '.'
        && #[trigger] m[j] == '.' ==> i == j
    &&& exists|i: int| 0 <= i < m.len() && is_digit(#[trigger] m[i])
}

/// An exponent after `e`: an optional sign and at least one digit.
pub open spec fn exponent_ok(x: Seq<char>) -> bool {
    let y = if x.len() > 0 && (x[0] == '+' || x[0] == '-') {
        x.drop_first()
    } else {
        x
    };
    y.len() > 0 && all_digits(y)
}

/// A number in the grammar of `f64`'s `from_str`: a mantissa, then an
/// optional exponent.
pub open spec fn number_ok(b: Seq<char>) -> bool {
    mantissa_ok(b) || exists|k: int|
        0 <= k < b.len() && #[trigger] b[k] == 'e' && mantissa_ok(b.take(k)) && exponent_ok(
            b.skip(k + 1),
        )
}

/// Whether `f64`'s `from_str` accepts `s`: after lowering the case, an
/// optional sign, then `inf`, `infinity`, `nan` or a number.
pub open spec fn float_syntax(s: Seq<char>) -> bool {
    let t = s.map_values(|c: char| lower(c));
    let b = if t.len() > 0 && (t[0] == '+' || t[0] == '-') {
        t.drop_first()
    } else {
        t
    };
    b == seq!['i', 'n', 'f'] || b == seq!['i', 'n', 'f', 'i', 'n', 'i', 't', 'y'] || b == seq![
        'n',
        'a',
        'n',
    ] || number_ok(b)
}

/// The token for a literal, tried in turn as a boolean, an `i128`, an
/// `f64`, a single character and, failing all these, a string kept with its
/// quotes.
pub open spec fn literal_token(s: String) -> Token {
    if s@ == "true"@ {
        Token::BoolLiteral(true)
    } else if s@ == "false"@ {
        Token::BoolLiteral(false)
    } else if parsed_i128(s@) is Some {
        Token::IntegerLiteral(parsed_i128(s@)->0)
    } else if float_syntax(s@) {
        Token::FloatLiteral(s)
    } else if s@.len() == 1 {
        Token::CharLiteral(s@[0])
    } else {
        Token::StringLiteral(s)
    }
}

/// The tokens for the tree at position `i` of `s`, with the position after
/// it: a joined punctuation character takes the tree after it too.
pub open spec fn step_tokens(s: Seq<TokenTreeModel>, i: int) -> (Option<Seq<Token>>, int)
    decreases s, s.len() - i, 0int,
{
    if i < 0 || i >= s.len() {
        (Some(Seq::empty()), i + 1)
    } else {
        match s[i] {
            TokenTreeModel::Ident(name) => (Some(seq![ident_token(name)]), i + 1),
            TokenTreeModel::Punct(c, Spacing::Alone) => (
                match char_token(c) {
                    Some(t) => Some(seq![t]),
                    None => None,
                },
                i + 1,
            ),
            TokenTreeModel::Punct(c, Spacing::Joint) => {
                if i + 1 < s.len() {
                    match s[i + 1] {
                        TokenTreeModel::Punct(d, _) => (pair_tokens(c, d), i + 2),
                        TokenTreeModel::Ident(name) => (
                            if c == '\'' {
                                Some(seq![Token::SingleQuote, Token::Identifier(name)])
                            } else {
                                None
                            },
                            i + 2,
                        ),
                        _ => (None, i + 2),
                    }
                } else {
                    (
                        match char_token(c) {
                            Some(t) => Some(seq![t]),
                            None => None,
                        },
                        i + 1,
                    )
                }
            },
            TokenTreeModel::Group(d, inner) => (
                match stream_tokens(inner, 0) {
                    Some(ts) => Some(
                        match d {
                            Delimiter::Brace => seq![Token::OpenBrace] + ts + seq![Token::CloseBrace],
                            Delimiter::Bracket => seq![Token::OpenBracket] + ts + seq![
                                Token::CloseBracket,
                            ],
                            Delimiter::Parenthesis => seq![Token::OpenParentheses] + ts + seq![
                                Token::CloseParentheses,
                            ],
                            Delimiter::Invisible => ts,
                        },
                    ),
                    None => None,
                },
                i + 1,
            ),
            TokenTreeModel::Literal(text) => (Some(seq![literal_token(text)]), i + 1),
        }
    }
}

/// The tokens for the trees of `s` from position `i` on; none where a tree
/// has no token (punctuation the parser does not know).
pub open spec fn stream_tokens(s: Seq<TokenTreeModel>, i: int) -> Option<Seq<Token>>
    decreases s, s.len() - i, 1int,
{
    if i < 0 || i >= s.len() {
        Some(Seq::empty())
    } else {
        let (here, next) = step_tokens(s, i);
        match here {
            Some(ts) => {
                if i < next <= s.len() {
                    match stream_tokens(s, next) {
                        Some(rest) => Some(ts + rest),
                        None => None,
                    }
                } else {
                    None
                }
            },
            None => None,
        }
    }
}

/// Prepends `done` to what follows, where something follows.
pub open spec fn prepended(done: Seq<Token>, rest: Option<Seq<Token>>) -> Option<Seq<Token>> {
    match rest {
        Some(r) => Some(done + r),
        None => None,
    }
}

fn ident_token_of(name: &String) -> (r: Token)
    ensures
        r == ident_token(*name),
{
    let s = name.as_str();
    if same_text(s, "struct") {
        Token::Struct
    } else if same_text(s, "enum") {
        Token::Enum
    } else if same_text(s, "fn") {
        Token::Fn
    } else if same_text(s, "for") {
        Token::For
    } else if same_text(s, "in") {
        Token::In
    } else if same_text(s, "pub") {
        Token::Pub
    } else if same_text(s, "use") {
        Token::Use
    } else if same_text(s, "crate") {
        Token::Crate
    } else if same_text(s, "self") {
        Token::SelfLowercase
    } else if same_text(s, "super") {
        Token::Super
    } else if same_text(s, "dyn") {
        Token::Dyn
    } else if same_text(s, "mut") {
        Token::Mut
    } else if same_text(s, "const") {
        Token::Const
    } else {
        Token::Identifier(name.clone())
    }
}

fn char_to_token(c: char) -> (r: Option<Token>)
    ensures
        r == char_token(c),
{
    if c == ':' {
        Some(Token::Colon)
    } else if c == ',' {
        Some(Token::Comma)
    } else if c == '<' {
        Some(Token::LessThan)
    } else if c == '>' {
        Some(Token::GreaterThan)
    } else if c == '#' {
        Some(Token::Pound)
    } else if c == '\'' {
        Some(Token::SingleQuote)
    } else if c == ';' {
        Some(Token::SemiColon)
    } else if c == '&' {
        Some(Token::And)
    } else if c == '!' {
        Some(Token::Not)
    } else if c == '=' {
        Some(Token::Equal)
    } else if c == '+' {
        Some(Token::Plus)
    } else if c == '*' {
        Some(Token::Star)
    } else {
        None
    }
}

/// Reads an `i128` as its `from_str` does.
fn parse_i128(s: &Vec<char>) -> (r: Option<i128>)
    ensures
        r == parsed_i128(s@),
{
    let negative = s.len() > 0 && s[0] == '-';
    let k: usize = if s.len() > 0 && (s[0] == '-' || s[0] == '+') {
        1
    } else {
        0
    };
    let ghost digits = if s@.len() > 0 && (s@[0] == '-' || s@[0] == '+') {
        s@.drop_first()
    } else {
        s@
    };
    assert(digits =~= s@.subrange(k as int, s@.len() as int));
    if k >= s.len() {
        return None;
    }
    let mut p = k;
    while p < s.len()
        invariant
            k <= p <= s@.len(),
            digits == s@.subrange(k as int, s@.len() as int),
            digits == if s@.len() > 0 && (s@[0] == '-' || s@[0] == '+') {
                s@.drop_first()
            } else {
                s@
            },
            negative == (s@.len() > 0 && s@[0] == '-'),
            forall|x: int| k <= x < p ==> #[trigger] is_digit(s@[x]),
        decreases s@.len() - p,
    {
        if !is_ascii_digit(s[p]) {
            assert(digits[p - k] == s@[p as int]);
            assert(!is_digit(digits[p - k]));
            return None;
        }
        p += 1;
    }
    assert(all_digits(digits)) by {
        assert forall|x: int| 0 <= x < digits.len() implies #[trigger] is_digit(digits[x]) by {
            assert(digits[x] == s@[k + x]);
        }
    }
    match literal_from(s, k, s.len(), negative) {
        Some(v) => Some(v),
        None => None,
    }
}

/// Checks the digits of a float: at most one point, at least one digit.
fn mantissa_check(m: &Vec<char>, start: usize, end: usize) -> (r: bool)
    requires
        start <= end <= m@.len(),
    ensures
        r == mantissa_ok(m@.subrange(start as int, end as int)),
{
    let ghost t = m@.subrange(start as int, end as int);
    let mut dots: usize = 0;
    let mut dot_at: usize = 0;
    let mut digit = false;
    let mut p = start;
    while p < end
        invariant
            start <= p <= end <= m@.len(),
            t == m@.subrange(start as int, end as int),
            dots <= 1,
            forall|i: int| 0 <= i < p - start ==> is_digit(#[trigger] t[i]) || t[i] == '.',
            dots == 0 ==> forall|i: int| 0 <= i < p - start ==> #[trigger] t[i] != '.',
            dots == 1 ==> start <= dot_at < p && t[dot_at - start] == '.' && forall|i: int|
                0 <= i < p - start && #[trigger] t[i] == '.' ==> i == dot_at - start,
            digit <==> exists|i: int| 0 <= i < p - start && is_digit(#[trigger] t[i]),
        decreases end - p,
    {
        let c = m[p];
        assert(t[p - start] == c);
        if c == '.' {
            if dots == 1 {
                assert(!mantissa_ok(t)) by {
                    assert(t[dot_at - start] == '.' && t[p - start] == '.');
                }
                return false;
            }
            dots = 1;
            dot_at = p;
        } else if is_ascii_digit(c) {
            digit = true;
        } else {
            assert(!(is_digit(t[p - start]) || t[p - start] == '.'));
            return false;
        }
        p += 1;
    }
    digit
}

/// Checks an exponent: an optional sign and at least one digit.
fn exponent_check(m: &Vec<char>, start: usize) -> (r: bool)
    requires
        start <= m@.len(),
    ensures
        r == exponent_ok(m@.skip(start as int)),
{
    let ghost x = m@.skip(start as int);
    let k = if start < m.len() && (m[start] == '+' || m[start] == '-') {
        start + 1
    } else {
        start
    };
    let ghost y = if x.len() > 0 && (x[0] == '+' || x[0] == '-') {
        x.drop_first()
    } else {
        x
    };
    assert(y =~= m@.skip(k as int));
    if k >= m.len() {
        return false;
    }
    let mut p = k;
    while p < m.len()
        invariant
            k <= p <= m@.len(),
            y == m@.skip(k as int),
            exponent_ok(m@.skip(start as int)) == (y.len() > 0 && all_digits(y)),
            forall|i: int| k <= i < p ==> #[trigger] is_digit(m@[i]),
        decreases m@.len() - p,
    {
        if !is_ascii_digit(m[p]) {
            assert(y[p - k] == m@[p as int]);
            assert(!is_digit(y[p - k]));
            return false;
        }
        p += 1;
    }
    assert forall|i: int| 0 <= i < y.len() implies #[trigger] is_digit(y[i]) by {
        assert(y[i] == m@[k + i]);
    }
    true
}

/// Checks whether `f64`'s `from_str` accepts the text.
fn float_check(s: &Vec<char>) -> (r: bool)
    ensures
        r == float_syntax(s@),
{
    let ghost t = s@.map_values(|c: char| lower(c));
    let mut b: Vec<char> = Vec::new();
    let start: usize = if s.len() > 0 && (s[0] == '+' || s[0] == '-') {
        1
    } else {
        0
    };
    let mut p = start;
    while p < s.len()
        invariant
            start <= p <= s@.len(),
            t == s@.map_values(|c: char| lower(c)),
            b@ == t.subrange(start as int, p as int),
        decreases s@.len() - p,
    {
        let c = s[p];
        let l = if 'A' <= c && c <= 'Z' {
            ((c as u32) + 32) as u8 as char
        } else {
            c
        };
        assert(l == lower(c)) by {
            if 'A' <= c && c <= 'Z' {
                assert(((c as u32) + 32) as u8 as char == ((c as u32) + 32) as char);
            }
        }
        b.push(l);
        p += 1;
        assert(b@ =~= t.subrange(start as int, p as int));
    }
    let ghost body = if t.len() > 0 && (t[0] == '+' || t[0] == '-') {
        t.drop_first()
    } else {
        t
    };
    assert(body =~= b@);
    if b.len() == 3 && b[0] == 'i' && b[1] == 'n' && b[2] == 'f' {
        assert(b@ =~= seq!['i', 'n', 'f']);
        return true;
    }
    if b.len() == 8 && b[0] == 'i' && b[1] == 'n' && b[2] == 'f' && b[3] == 'i' && b[4] == 'n'
        && b[5] == 'i' && b[6] == 't' && b[7] == 'y' {
        assert(b@ =~= seq!['i', 'n', 'f', 'i', 'n', 'i', 't', 'y']);
        return true;
    }
    if b.len() == 3 && b[0] == 'n' && b[1] == 'a' && b[2] == 'n' {
        assert(b@ =~= seq!['n', 'a', 'n']);
        return true;
    }
    let mut e: usize = 0;
    while e < b.len() && b[e] != 'e'
        invariant
            e <= b@.len(),
            forall|i: int| 0 <= i < e ==> #[trigger] b@[i] != 'e',
        decreases b@.len() - e,
    {
        e += 1;
    }
    if e == b.len() {
        assert(b@.subrange(0, b@.len() as int) =~= b@);
        let r = mantissa_check(&b, 0, b.len());
        assert(!exists|k: int| 0 <= k < b@.len() && #[trigger] b@[k] == 'e');
        r
    } else {
        let r = mantissa_check(&b, 0, e) && exponent_check(&b, e + 1);
        assert(b@.subrange(0, e as int) =~= b@.take(e as int));
        if !r {
            assert forall|k: int|
                0 <= k < b@.len() && #[trigger] b@[k] == 'e' && mantissa_ok(b@.take(k))
                    implies !exponent_ok(b@.skip(k + 1)) by {
                if k != e {
                    assert(k > e);
                    assert(b@.take(k)[e as int] == 'e');
                }
            }
            assert(!mantissa_ok(b@)) by {
                assert(b@[e as int] == 'e');
            }
        }
        r
    }
}

fn literal_token_of(text: &String) -> (r: Token)
    ensures
        r == literal_token(*text),
{
    let s = text.as_str();
    if same_text(s, "true") {
        return Token::BoolLiteral(true);
    }
    if same_text(s, "false") {
        return Token::BoolLiteral(false);
    }
    let chars = chars_of(s);
    if let Some(i) = parse_i128(&chars) {
        return Token::IntegerLiteral(i);
    }
    if float_check(&chars) {
        return Token::FloatLiteral(text.clone());
    }
    if chars.len() == 1 {
        return Token::CharLiteral(chars[0]);
    }
    Token::StringLiteral(text.clone())
}

/// Appends the tokens for the tree at position `i`; gives the position
/// after it, or `None` where it has no token.
fn push_tree_tokens(token_stream: &[TokenTree], i: usize, rust_tokens: &mut Vec<Token>) -> (r:
    Option<usize>)
    requires
        i < token_stream@.len(),
    ensures
        ({
            let (here, next) = step_tokens(trees_model(token_stream@), i as int);
            match r {
                Some(n) => here is Some && n == next && final(rust_tokens)@ == old(rust_tokens)@
                    + here->0,
                None => here is None,
            }
        }),
    decreases token_stream@, 0int,
{
    let ghost s = trees_model(token_stream@);
    assert(s[i as int] == token_stream@[i as int]@);
    match &token_stream[i] {
        TokenTree::Ident(name) => {
            rust_tokens.push(ident_token_of(name));
            Some(i + 1)
        },
        TokenTree::Punct(c, Spacing::Alone) => {
            match char_to_token(*c) {
                Some(t) => rust_tokens.push(t),
                None => return None,
            }
            Some(i + 1)
        },
        TokenTree::Punct(c, Spacing::Joint) => {
            if i + 1 < token_stream.len() {
                assert(s[i + 1] == token_stream@[i + 1]@);
                match &token_stream[i + 1] {
                    TokenTree::Punct(d, _) => {
                        let (a, b) = (*c, *d);
                        if a == '+' && b == '=' {
                            rust_tokens.push(Token::PlusEqual);
                        } else if a == '-' && b == '=' {
                            rust_tokens.push(Token::MinusEqual);
                        } else if a == '*' && b == '=' {
                            rust_tokens.push(Token::TimesEqual);
                        } else if a == '<' && b == '=' {
                            rust_tokens.push(Token::LessThanOrEqual);
                        } else if a == '>' && b == '=' {
                            rust_tokens.push(Token::GreaterThanOrEqual);
                        } else if a == ':' && b == ':' {
                            rust_tokens.push(Token::Colon2);
                        } else if a == '-' && b == '>' {
                            rust_tokens.push(Token::RArrow);
                        } else {
                            match (char_to_token(a), char_to_token(b)) {
                                (Some(x), Some(y)) => {
                                    rust_tokens.push(x);
                                    rust_tokens.push(y);
                                },
                                _ => return None,
                            }
                        }
                    },
                    TokenTree::Ident(name) => {
                        if *c == '\'' {
                            rust_tokens.push(Token::SingleQuote);
                            rust_tokens.push(Token::Identifier(name.clone()));
                        } else {
                            return None;
                        }
                    },
                    _ => return None,
                }
                Some(i + 2)
            } else {
                match char_to_token(*c) {
                    Some(t) => rust_tokens.push(t),
                    None => return None,
                }
                Some(i + 1)
            }
        },
        TokenTree::Group(d, inner) => {
            let ghost inner_model = trees_model(inner@);
            assert(inner_model =~= match s[i as int] {
                TokenTreeModel::Group(_, m) => m,
                _ => Seq::empty(),
            });
            let ghost before = rust_tokens@;
            match d {
                Delimiter::Brace => rust_tokens.push(Token::OpenBrace),
                Delimiter::Bracket => rust_tokens.push(Token::OpenBracket),
                Delimiter::Parenthesis => rust_tokens.push(Token::OpenParentheses),
                Delimiter::Invisible => {},
            }
            if !push_stream_tokens(inner.as_slice(), rust_tokens) {
                return None;
            }
            match d {
                Delimiter::Brace => rust_tokens.push(Token::CloseBrace),
                Delimiter::Bracket => rust_tokens.push(Token::CloseBracket),
                Delimiter::Parenthesis => rust_tokens.push(Token::CloseParentheses),
                Delimiter::Invisible => {},
            }
            assert(rust_tokens@ =~= before + step_tokens(s, i as int).0->0);
            Some(i + 1)
        },
        TokenTree::Literal(text) => {
            rust_tokens.push(literal_token_of(text));
            Some(i + 1)
        },
    }
}

/// Appends the tokens for a stream of token trees; says whether every tree
/// had a token.
fn push_stream_tokens(token_stream: &[TokenTree], rust_tokens: &mut Vec<Token>) -> (ok: bool)
    ensures
        ok == stream_tokens(trees_model(token_stream@), 0) is Some,
        ok ==> final(rust_tokens)@ == old(rust_tokens)@ + stream_tokens(
            trees_model(token_stream@),
            0,
        )->0,
    decreases token_stream@, 1int,
{
    let ghost s = trees_model(token_stream@);
    let ghost start = rust_tokens@;
    let mut i: usize = 0;
    proof {
        assert(rust_tokens@.subrange(start.len() as int, rust_tokens@.len() as int) =~= Seq::<
            Token,
        >::empty());
        match stream_tokens(s, 0) {
            Some(r) => {
                assert(Seq::<Token>::empty() + r =~= r);
            },
            None => {},
        }
    }
    while i < token_stream.len()
        invariant
            i <= token_stream@.len(),
            s == trees_model(token_stream@),
            start == old(rust_tokens)@,
            stream_tokens(s, 0) == prepended(
                rust_tokens@.subrange(start.len() as int, rust_tokens@.len() as int),
                stream_tokens(s, i as int),
            ),
            start.len() <= rust_tokens@.len(),
            rust_tokens@.subrange(0, start.len() as int) == start,
        decreases token_stream@.len() - i,
    {
        let ghost done = rust_tokens@.subrange(start.len() as int, rust_tokens@.len() as int);
        let ghost before = rust_tokens@;
        let next = match push_tree_tokens(token_stream, i, rust_tokens) {
            Some(n) => n,
            None => return false,
        };
        proof {
            let added = step_tokens(s, i as int).0->0;
            assert(rust_tokens@.subrange(start.len() as int, rust_tokens@.len() as int) =~= done
                + added);
            assert(rust_tokens@.subrange(0, start.len() as int) =~= start);
            match stream_tokens(s, next as int) {
                Some(r) => {
                    assert(done + (added + r) =~= (done + added) + r);
                },
                None => {},
            }
        }
        i = next;
    }
    proof {
        assert(stream_tokens(s, i as int) == Some(Seq::<Token>::empty()));
        assert(rust_tokens@.subrange(start.len() as int, rust_tokens@.len() as int)
            + Seq::<Token>::empty() =~= rust_tokens@.subrange(
            start.len() as int,
            rust_tokens@.len() as int,
        ));
        assert(rust_tokens@ =~= start + rust_tokens@.subrange(
            start.len() as int,
            rust_tokens@.len() as int,
        ));
    }
    true
}

/// Appends the tokens for a stream of token trees, as the derive macros hand
/// them to the parser.
pub fn token_stream_to_rust_tokens(token_stream: &[TokenTree], rust_tokens: &mut Vec<Token>)
    requires
        stream_tokens(trees_model(token_stream@), 0) is Some,
    ensures
        final(rust_tokens)@ == old(rust_tokens)@ + stream_tokens(trees_model(token_stream@), 0)->0,
{
    push_stream_tokens(token_stream, rust_tokens);
}

/// The tokens for a stream of token trees, or `None` where a punctuation
/// character has no token.
pub fn tokens_of_stream(token_stream: &[TokenTree]) -> (r: Option<Vec<Token>>)
    ensures
        match r {
            Some(v) => stream_tokens(trees_model(token_stream@), 0) == Some(v@),
            None => stream_tokens(trees_model(token_stream@), 0) is None,
        },
{
    let mut v: Vec<Token> = Vec::new();
    if push_stream_tokens(token_stream, &mut v) {
        assert(v@ =~= Seq::<Token>::empty() + stream_tokens(trees_model(token_stream@), 0)->0);
        Some(v)
    } else {
        None
    }
}
} // verus!
