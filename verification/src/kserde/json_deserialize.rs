use vstd::prelude::*;

verus! {

/// Objects and arrays may nest at most this deep.
pub const RECURSIVE_LIMIT: usize = 1024;

/// The characters that `char::is_whitespace` accepts: those with the
/// Unicode `White_Space` property.
pub open spec fn is_white_space(c: char) -> bool {
    let u = c as u32;
    ||| 0x09 <= u <= 0x0D
    ||| u == 0x20
    ||| u == 0x85
    ||| u == 0xA0
    ||| u == 0x1680
    ||| 0x2000 <= u <= 0x200A
    ||| u == 0x2028
    ||| u == 0x2029
    ||| u == 0x202F
    ||| u == 0x205F
    ||| u == 0x3000
}

/// Whether `c` has the Unicode `White_Space` property.
pub fn is_whitespace(c: char) -> (r: bool)
    ensures
        r == is_white_space(c),
{
    let u = c as u32;
    (0x09 <= u && u <= 0x0D) || u == 0x20 || u == 0x85 || u == 0xA0 || u == 0x1680 || (0x2000 <= u
        && u <= 0x200A) || u == 0x2028 || u == 0x2029 || u == 0x202F || u == 0x205F || u == 0x3000
}

/// The first index at or after `i` whose character is not white space.
pub open spec fn skip_ws(src: Seq<char>, i: int) -> int
    decreases src.len() - i,
{
    if i < 0 || i >= src.len() || !is_white_space(src[i]) {
        i
    } else {
        skip_ws(src, i + 1)
    }
}

/// Skipping white space never moves back, nor past the end.
pub proof fn lemma_skip_ws_bounds(src: Seq<char>, i: int)
    ensures
        skip_ws(src, i) >= i,
        0 <= i <= src.len() ==> skip_ws(src, i) <= src.len(),
    decreases src.len() - i,
{
    if 0 <= i < src.len() && is_white_space(src[i]) {
        lemma_skip_ws_bounds(src, i + 1);
    }
}

/// Whether `c` is a digit of base 16.
pub open spec fn is_hex(c: char) -> bool {
    ||| ('0' as u32) <= (c as u32) <= ('9' as u32)
    ||| ('a' as u32) <= (c as u32) <= ('f' as u32)
    ||| ('A' as u32) <= (c as u32) <= ('F' as u32)
}

/// The value of a base 16 digit.
pub open spec fn hex_value(c: char) -> int {
    if ('0' as u32) <= (c as u32) <= ('9' as u32) {
        c as u32 - '0' as u32
    } else if ('a' as u32) <= (c as u32) <= ('f' as u32) {
        c as u32 - 'a' as u32 + 10
    } else {
        c as u32 - 'A' as u32 + 10
    }
}

/// The number that `u32::from_str_radix` reads, in base 16, from the four
/// characters at `i`: four digits, or a `+` and three digits.
pub open spec fn hex4(src: Seq<char>, i: int) -> Option<int> {
    if i < 0 || i + 4 > src.len() {
        None
    } else if src[i] == '+' {
        if is_hex(src[i + 1]) && is_hex(src[i + 2]) && is_hex(src[i + 3]) {
            Some(hex_value(src[i + 1]) * 256 + hex_value(src[i + 2]) * 16 + hex_value(src[i + 3]))
        } else {
            None
        }
    } else if is_hex(src[i]) && is_hex(src[i + 1]) && is_hex(src[i + 2]) && is_hex(src[i + 3]) {
        Some(
            hex_value(src[i]) * 4096 + hex_value(src[i + 1]) * 256 + hex_value(src[i + 2]) * 16
                + hex_value(src[i + 3]),
        )
    } else {
        None
    }
}

/// Whether `u` is the number of a `char`: at most 0x10FFFF and no surrogate.
pub open spec fn is_scalar(u: int) -> bool {
    0 <= u <= 0x10FFFF && !(0xD800 <= u <= 0xDFFF)
}

/// The character that a one-character escape (after a backslash) stands for.
pub open spec fn simple_escape(e: char) -> Option<char> {
    if e == '"' {
        Some('"')
    } else if e == '/' {
        Some('/')
    } else if e == '\\' {
        Some('\\')
    } else if e == 'n' {
        Some('\n')
    } else if e == 'b' {
        Some('\x08')
    } else if e == 'f' {
        Some('\x0C')
    } else if e == 'r' {
        Some('\r')
    } else if e == 't' {
        Some('\t')
    } else {
        None
    }
}

/// `rest` with `c` in front.
pub open spec fn prepend(c: char, rest: Option<(Seq<char>, int)>) -> Option<(Seq<char>, int)> {
    match rest {
        Some((t, k)) => Some((seq![c] + t, k)),
        None => None,
    }
}

/// The contents of a string literal whose opening quote stands just before
/// index `i`, with its escapes decoded, and the index just past the closing
/// quote; `None` where the literal is cut off or holds a bad escape.
pub open spec fn decode_string(src: Seq<char>, i: int) -> Option<(Seq<char>, int)>
    decreases src.len() - i,
{
    if i < 0 || i >= src.len() {
        None
    } else if src[i] == '"' {
        Some((Seq::empty(), i + 1))
    } else if src[i] == '\\' {
        if i + 1 >= src.len() {
            None
        } else if simple_escape(src[i + 1]) is Some {
            prepend(simple_escape(src[i + 1])->0, decode_string(src, i + 2))
        } else if src[i + 1] == 'u' {
            match hex4(src, i + 2) {
                None => None,
                Some(u) => if 0xD800 <= u <= 0xDBFF {
                    if i + 7 >= src.len() || (src[i + 7] as u32) >= 0x80 {
                        None
                    } else {
                        match hex4(src, i + 8) {
                            None => None,
                            Some(u1) => if u1 < 0xDC00 || u1 > 0xDFFF {
                                None
                            } else {
                                prepend(
                                    ((u - 0xD800) * 1024 + (u1 - 0xDC00) + 0x10000) as char,
                                    decode_string(src, i + 12),
                                )
                            },
                        }
                    }
                } else if is_scalar(u) {
                    prepend(u as char, decode_string(src, i + 6))
                } else {
                    None
                },
            }
        } else {
            None
        }
    } else {
        prepend(src[i], decode_string(src, i + 1))
    }
}

/// Where reading a string literal whose opening quote stands just before
/// index `i` stops when it fails: at the end of the text, or just after the
/// escape that is refused.
pub open spec fn decode_stop(src: Seq<char>, i: int) -> int
    decreases src.len() - i,
{
    if i < 0 || i >= src.len() {
        i
    } else if src[i] == '"' {
        i + 1
    } else if src[i] == '\\' {
        if i + 1 >= src.len() {
            i + 1
        } else if simple_escape(src[i + 1]) is Some {
            decode_stop(src, i + 2)
        } else if src[i + 1] == 'u' {
            match hex4(src, i + 2) {
                None => i + 2,
                Some(u) => if 0xD800 <= u <= 0xDBFF {
                    if i + 7 >= src.len() || (src[i + 7] as u32) >= 0x80 {
                        i + 6
                    } else {
                        match hex4(src, i + 8) {
                            None => i + 6,
                            Some(u1) => if u1 < 0xDC00 || u1 > 0xDFFF {
                                i + 6
                            } else {
                                decode_stop(src, i + 12)
                            },
                        }
                    }
                } else if is_scalar(u) {
                    decode_stop(src, i + 6)
                } else {
                    i + 6
                },
            }
        } else {
            i + 2
        }
    } else {
        decode_stop(src, i + 1)
    }
}

/// Where `parse_string` at index `i` stops when it fails.
pub open spec fn string_stop(src: Seq<char>, i: int) -> int {
    if 0 <= i < src.len() {
        if src[i] == '"' {
            decode_stop(src, i + 1)
        } else {
            i + 1
        }
    } else {
        i
    }
}

/// `parse_string` at index `i`: a quote there, then a literal.
pub open spec fn string_at(src: Seq<char>, i: int) -> Option<(Seq<char>, int)> {
    if 0 <= i < src.len() && src[i] == '"' {
        decode_string(src, i + 1)
    } else {
        None
    }
}

/// `out` in front of the text that `rest` decodes.
pub open spec fn after(out: Seq<char>, rest: Option<(Seq<char>, int)>) -> Option<(Seq<char>, int)> {
    match rest {
        Some((t, k)) => Some((out + t, k)),
        None => None,
    }
}

proof fn lemma_after_prepend(out: Seq<char>, c: char, rest: Option<(Seq<char>, int)>)
    ensures
        after(out, prepend(c, rest)) == after(out.push(c), rest),
{
    if let Some((t, k)) = rest {
        assert(out + (seq![c] + t) =~= out.push(c) + t);
    }
}

/// Whether `c` is one of `0` to `9`.
pub(crate) fn is_ascii_digit(c: char) -> (r: bool)
    ensures
        r == is_digit(c),
{
    let u = c as u32;
    0x30 <= u && u <= 0x39
}

/// The value of a base 16 digit, if `c` is one.
fn hex_digit(c: char) -> (r: Option<u32>)
    ensures
        r is Some <==> is_hex(c),
        r matches Some(v) ==> v == hex_value(c),
{
    let u = c as u32;
    if 0x30 <= u && u <= 0x39 {
        Some(u - 0x30)
    } else if 0x61 <= u && u <= 0x66 {
        Some(u - 0x61 + 10)
    } else if 0x41 <= u && u <= 0x46 {
        Some(u - 0x41 + 10)
    } else {
        None
    }
}

/// `char::from_u32`: the character with number `u`, where there is one.
#[verifier::external_body]
fn char_from_u32(u: u32) -> (r: Option<char>)
    ensures
        r is Some <==> is_scalar(u as int),
        r matches Some(c) ==> c == u as char,
{
    std::char::from_u32(u)
}

/// `String::push`: appends `c`.
#[verifier::external_body]
pub(crate) fn push_char(s: &mut String, c: char)
    ensures
        final(s)@ == old(s)@.push(c),
{
    s.push(c);
}

/// The string of the characters in `chars`.
pub(crate) fn string_from_chars(chars: &Vec<char>) -> (s: String)
    ensures
        s@ == chars@,
{
    let mut s = String::new();
    let mut i: usize = 0;
    while i < chars.len()
        invariant
            i <= chars@.len(),
            s@ == chars@.take(i as int),
        decreases chars@.len() - i,
    {
        push_char(&mut s, chars[i]);
        i += 1;
        assert(s@ =~= chars@.take(i as int));
    }
    assert(chars@.take(chars@.len() as int) =~= chars@);
    s
}

/// Whether `c` is one of `0` to `9`.
pub open spec fn is_digit(c: char) -> bool {
    ('0' as u32) <= (c as u32) <= ('9' as u32)
}

/// Reading digits never moves back.
proof fn lemma_digits_end_ge(src: Seq<char>, i: int)
    ensures
        digits_end(src, i) >= i,
    decreases src.len() - i,
{
    if 0 <= i < src.len() && is_digit(src[i]) {
        lemma_digits_end_ge(src, i + 1);
    }
}

/// The first index at or after `i` that holds no digit.
pub open spec fn digits_end(src: Seq<char>, i: int) -> int
    decreases src.len() - i,
{
    if i < 0 || i >= src.len() || !is_digit(src[i]) {
        i
    } else {
        digits_end(src, i + 1)
    }
}

/// The first index at or after `i` that holds no `0`.
pub open spec fn zeros_end(src: Seq<char>, i: int) -> int
    decreases src.len() - i,
{
    if i < 0 || i >= src.len() || src[i] != '0' {
        i
    } else {
        zeros_end(src, i + 1)
    }
}

/// A number as `parse_number` reads it at index `i`: whether it is negative,
/// the digits before the point, the digits after it, whether the exponent is
/// negative and the exponent's digits after its leading zeros; and the index
/// after the number.
///
/// The integer part is a single `0`, or digits that start with another
/// digit. A point may follow, with any number of digits. An `e` or `E` may
/// follow, with a sign and at least one digit; the exponent's leading zeros
/// are dropped, so an exponent of zeros only has no digits left.
pub open spec fn number_at(src: Seq<char>, i: int) -> Option<(bool, Seq<char>, Seq<char>, bool, Seq<char>, int)> {
    let negative = 0 <= i < src.len() && src[i] == '-';
    let j = if negative { i + 1 } else { i };
    if j < 0 || j >= src.len() || !is_digit(src[j]) {
        None
    } else {
        let k = if src[j] == '0' { j + 1 } else { digits_end(src, j) };
        let integer = src.subrange(j, k);
        let has_point = k < src.len() && src[k] == '.';
        let k2 = if has_point { digits_end(src, k + 1) } else { k };
        let fraction = if has_point { src.subrange(k + 1, k2) } else { Seq::empty() };
        if k2 < src.len() && (src[k2] == 'e' || src[k2] == 'E') {
            let e0 = k2 + 1;
            if e0 >= src.len() {
                None
            } else {
                let exponent_negative = src[e0] == '-';
                let e1 = if src[e0] == '-' || src[e0] == '+' { e0 + 1 } else { e0 };
                let z = zeros_end(src, e1);
                if z < src.len() && is_digit(src[z]) {
                    let e2 = digits_end(src, z);
                    Some((negative, integer, fraction, exponent_negative, src.subrange(z, e2), e2))
                } else if z > e1 {
                    Some((negative, integer, fraction, exponent_negative, Seq::empty(), z))
                } else {
                    None
                }
            }
        } else {
            Some((negative, integer, fraction, false, Seq::empty(), k2))
        }
    }
}

/// Where `parse_number` at index `i` stops when it fails: at the first
/// place where no digit stands though one must.
pub open spec fn number_stop(src: Seq<char>, i: int) -> int {
    let negative = 0 <= i < src.len() && src[i] == '-';
    let j = if negative { i + 1 } else { i };
    if j < 0 || j >= src.len() || !is_digit(src[j]) {
        j
    } else {
        let k = if src[j] == '0' { j + 1 } else { digits_end(src, j) };
        let has_point = k < src.len() && src[k] == '.';
        let k2 = if has_point { digits_end(src, k + 1) } else { k };
        let e0 = k2 + 1;
        if e0 >= src.len() {
            e0
        } else {
            zeros_end(src, if src[e0] == '-' || src[e0] == '+' { e0 + 1 } else { e0 })
        }
    }
}

/// Whether two texts hold the same characters.
pub(crate) fn same_text(a: &str, b: &str) -> (r: bool)
    ensures
        r == (a@ == b@),
{
    let x = chars_of(a);
    let y = chars_of(b);
    if x.len() != y.len() {
        return false;
    }
    let mut i: usize = 0;
    while i < x.len()
        invariant
            i <= x@.len(),
            x@.len() == y@.len(),
            x@ == a@,
            y@ == b@,
            forall|k: int| 0 <= k < i ==> x@[k] == y@[k],
        decreases x@.len() - i,
    {
        if x[i] != y[i] {
            return false;
        }
        i += 1;
    }
    assert(x@ =~= y@);
    true
}

/// The characters of a string slice.
pub(crate) fn chars_of(s: &str) -> (r: Vec<char>)
    ensures
        r@ == s@,
{
    let mut r: Vec<char> = Vec::new();
    for c in it: s.chars()
        invariant
            r@ == it.seq().take(it.index() as int),
    {
        r.push(c);
    }
    r
}

/// A number as it is written in JSON text, digit by digit.
///
/// `exponent_digits` leaves out the exponent's leading zeros.
#[derive(Debug)]
pub struct JsonNumber {
    pub negative: bool,
    pub integer_digits: Vec<char>,
    pub fraction_digits: Vec<char>,
    pub exponent_negative: bool,
    pub exponent_digits: Vec<char>,
}

impl JsonNumber {
    pub open spec fn model(&self) -> (bool, Seq<char>, Seq<char>, bool, Seq<char>) {
        (
            self.negative,
            self.integer_digits@,
            self.fraction_digits@,
            self.exponent_negative,
            self.exponent_digits@,
        )
    }
}

/// A value of any kind, as `any` finds it. For an object or an array only
/// its opening bracket has been read.
pub enum AnyValue {
    String(String),
    Bool(bool),
    Number(JsonNumber),
    Object,
    Array,
    Null,
}

impl AnyValue {
    /// The string, if this is one.
    pub fn string(self) -> (r: Option<String>)
        ensures
            r == (match self {
                AnyValue::String(s) => Some(s),
                _ => None,
            }),
    {
        match self {
            AnyValue::String(s) => Some(s),
            _ => None,
        }
    }

    /// The number, if this is one.
    pub fn number(self) -> (r: Option<JsonNumber>)
        ensures
            r == (match self {
                AnyValue::Number(n) => Some(n),
                _ => None,
            }),
    {
        match self {
            AnyValue::Number(n) => Some(n),
            _ => None,
        }
    }
}

/// Reads JSON text one value at a time.
///
/// The reader keeps the text as characters, the index of the next
/// character to read, and how many objects and arrays are open.
pub struct JSONDeserializer {
    recursive_depth: usize,
    source: Vec<char>,
    position: usize,
}

impl JSONDeserializer {
    /// The text being read.
    pub closed spec fn source(&self) -> Seq<char> {
        self.source@
    }

    /// The index of the next character to read.
    pub closed spec fn position(&self) -> int {
        self.position as int
    }

    /// How many objects and arrays are open.
    pub closed spec fn depth(&self) -> int {
        self.recursive_depth as int
    }

    pub closed spec fn wf(&self) -> bool {
        &&& self.position <= self.source@.len()
        &&& self.recursive_depth <= RECURSIVE_LIMIT
    }

    /// A well-formed reader stands within its text and within the nesting
    /// limit.
    pub proof fn lemma_in_bounds(&self)
        requires
            self.wf(),
        ensures
            0 <= self.position() <= self.source().len(),
            0 <= self.depth() <= RECURSIVE_LIMIT,
            self.source().len() <= usize::MAX,
    {
        assert(self.source@.len() == self.source.len());
    }

    /// A reader at the start of `source`.
    pub fn new(source: &str) -> (d: Self)
        ensures
            d.wf(),
            d.source() == source@,
            d.position() == 0,
            d.depth() == 0,
    {
        JSONDeserializer { recursive_depth: 0, source: chars_of(source), position: 0 }
    }

    /// The next character, if any, without reading it.
    fn peek(&self) -> (r: Option<char>)
        requires
            self.wf(),
        ensures
            r == (if self.position() < self.source().len() {
                Some(self.source()[self.position()])
            } else {
                None
            }),
    {
        if self.position < self.source.len() {
            Some(self.source[self.position])
        } else {
            None
        }
    }

    /// Reads the next character, if any.
    fn next(&mut self) -> (r: Option<char>)
        requires
            old(self).wf(),
        ensures
            final(self).wf(),
            final(self).source() == old(self).source(),
            final(self).depth() == old(self).depth(),
            r == (if old(self).position() < old(self).source().len() {
                Some(old(self).source()[old(self).position()])
            } else {
                None
            }),
            final(self).position() == (if old(self).position() < old(self).source().len() {
                old(self).position() + 1
            } else {
                old(self).position()
            }),
    {
        if self.position < self.source.len() {
            let c = self.source[self.position];
            self.position += 1;
            Some(c)
        } else {
            None
        }
    }

    /// The number that `u32::from_str_radix` reads in base 16 from the
    /// four characters at `i`.
    fn read_hex4(&self, i: usize) -> (r: Option<u32>)
        requires
            self.wf(),
        ensures
            match hex4(self.source(), i as int) {
                Some(v) => r == Some(v as u32),
                None => r is None,
            },
    {
        if i > self.source.len() || self.source.len() - i < 4 {
            return None;
        }
        let c0 = self.source[i];
        let d1 = hex_digit(self.source[i + 1]);
        let d2 = hex_digit(self.source[i + 2]);
        let d3 = hex_digit(self.source[i + 3]);
        match (d1, d2, d3) {
            (Some(h1), Some(h2), Some(h3)) => {
                if c0 == '+' {
                    Some(h1 * 256 + h2 * 16 + h3)
                } else {
                    match hex_digit(c0) {
                        Some(h0) => Some(h0 * 4096 + h1 * 256 + h2 * 16 + h3),
                        None => None,
                    }
                }
            },
            _ => None,
        }
    }

    /// Reads a string literal and gives back its contents with the escapes
    /// decoded; `None` where the next character is no quote, or the literal
    /// is cut off or holds a bad escape.
    pub fn parse_string(&mut self) -> (r: Option<String>)
        requires
            old(self).wf(),
        ensures
            old(self).position() <= final(self).position(),
            r is Some ==> old(self).position() < final(self).position(),
            final(self).wf(),
            final(self).source() == old(self).source(),
            final(self).depth() == old(self).depth(),
            match string_at(old(self).source(), old(self).position()) {
                Some((t, k)) => r matches Some(s) && s@ == t && final(self).position() == k,
                None => r is None && final(self).position() == string_stop(
                    old(self).source(),
                    old(self).position(),
                ),
            },
    {
        let ghost src = self.source@;
        let ghost start = self.position as int;
        match self.next() {
            Some(c) => {
                if c != '"' {
                    return None;
                }
            },
            None => return None,
        }
        let mut out: Vec<char> = Vec::new();
        loop
            invariant_except_break
                self.wf(),
                self.source() == src,
                src == old(self).source(),
                start == old(self).position(),
                self.depth() == old(self).depth(),
                decode_string(src, start + 1) == after(out@, decode_string(src, self.position())),
                decode_stop(src, start + 1) == decode_stop(src, self.position()),
                start + 1 <= self.position(),
                0 <= start < src.len(),
                src[start] == '"',
            ensures
                self.wf(),
                self.source() == src,
                self.depth() == old(self).depth(),
                decode_string(src, start + 1) == Some((out@, self.position())),
                start + 1 <= self.position(),
            decreases src.len() - self.position(),
        {
            let p = self.position;
            let c = match self.next() {
                Some(c) => c,
                None => return None,
            };
            if c == '"' {
                assert(out@ + Seq::<char>::empty() =~= out@);
                break;
            } else if c == '\\' {
                let e = match self.next() {
                    Some(e) => e,
                    None => return None,
                };
                let simple = if e == '"' {
                    Some('"')
                } else if e == '/' {
                    Some('/')
                } else if e == '\\' {
                    Some('\\')
                } else if e == 'n' {
                    Some('\n')
                } else if e == 'b' {
                    Some('\x08')
                } else if e == 'f' {
                    Some('\x0C')
                } else if e == 'r' {
                    Some('\r')
                } else if e == 't' {
                    Some('\t')
                } else {
                    None
                };
                match simple {
                    Some(x) => {
                        proof {
                            lemma_after_prepend(out@, x, decode_string(src, p + 2));
                        }
                        out.push(x);
                    },
                    None => {
                        if e != 'u' {
                            return None;
                        }
                        let u = match self.read_hex4(p + 2) {
                            Some(u) => u,
                            None => return None,
                        };
                        assert(p + 6 <= self.source.len());
                        self.position = p + 6;
                        if 0xD800 <= u && u <= 0xDBFF {
                            if self.source.len() - p <= 7 || self.source[p + 7] as u32 >= 0x80 {
                                return None;
                            }
                            let u1 = match self.read_hex4(p + 8) {
                                Some(u1) => u1,
                                None => return None,
                            };
                            if u1 < 0xDC00 || u1 > 0xDFFF {
                                return None;
                            }
                            let n = (u - 0xD800) * 1024 + (u1 - 0xDC00) + 0x10000;
                            let ch = match char_from_u32(n) {
                                Some(ch) => ch,
                                None => return None,
                            };
                            proof {
                                lemma_after_prepend(out@, ch, decode_string(src, p + 12));
                            }
                            out.push(ch);
                            self.position = p + 12;
                        } else {
                            let ch = match char_from_u32(u) {
                                Some(ch) => ch,
                                None => return None,
                            };
                            proof {
                                lemma_after_prepend(out@, ch, decode_string(src, p + 6));
                            }
                            out.push(ch);
                        }
                    },
                }
            } else {
                proof {
                    lemma_after_prepend(out@, c, decode_string(src, p + 1));
                }
                out.push(c);
            }
        }
        Some(string_from_chars(&out))
    }

    /// Reads past any `0` characters.
    fn skip_zeros(&mut self)
        requires
            old(self).wf(),
        ensures
            old(self).position() <= final(self).position(),
            final(self).wf(),
            final(self).source() == old(self).source(),
            final(self).depth() == old(self).depth(),
            final(self).position() == zeros_end(old(self).source(), old(self).position()),
    {
        while self.position < self.source.len() && self.source[self.position] == '0'
            invariant
                self.wf(),
                self.source() == old(self).source(),
                self.depth() == old(self).depth(),
                old(self).position() <= self.position(),
                zeros_end(self.source(), self.position()) == zeros_end(old(self).source(), old(self).position()),
            decreases self.source@.len() - self.position,
        {
            self.position += 1;
        }
    }

    /// Reads digits up to the first other character.
    fn read_digits(&mut self, out: &mut Vec<char>)
        requires
            old(self).wf(),
        ensures
            old(self).position() <= final(self).position(),
            final(self).wf(),
            final(self).source() == old(self).source(),
            final(self).depth() == old(self).depth(),
            final(self).position() == digits_end(old(self).source(), old(self).position()),
            final(out)@ == old(out)@ + old(self).source().subrange(old(self).position(), final(self).position()),
    {
        let ghost p0 = self.position as int;
        while self.position < self.source.len() && is_ascii_digit(self.source[self.position])
            invariant
                self.wf(),
                self.source() == old(self).source(),
                self.depth() == old(self).depth(),
                p0 == old(self).position(),
                p0 <= self.position(),
                digits_end(self.source(), self.position()) == digits_end(self.source(), p0),
                out@ == old(out)@ + self.source().subrange(p0, self.position()),
            decreases self.source@.len() - self.position,
        {
            out.push(self.source[self.position]);
            self.position += 1;
            assert(out@ =~= old(out)@ + self.source().subrange(p0, self.position()));
        }
    }

    /// Reads a number and gives back its sign and digits; `None` where no
    /// number starts here or its exponent has no digits.
    pub fn parse_number(&mut self) -> (r: Option<JsonNumber>)
        requires
            old(self).wf(),
        ensures
            old(self).position() <= final(self).position(),
            r is Some ==> old(self).position() < final(self).position(),
            final(self).wf(),
            final(self).source() == old(self).source(),
            final(self).depth() == old(self).depth(),
            match number_at(old(self).source(), old(self).position()) {
                Some((n, a, b, e, x, k)) => r matches Some(m) && m.model() == (n, a, b, e, x)
                    && final(self).position() == k,
                None => r is None && final(self).position() == number_stop(
                    old(self).source(),
                    old(self).position(),
                ),
            },
    {
        let negative = match self.peek() {
            Some(c) => c == '-',
            None => false,
        };
        if negative {
            self.next();
        }
        let mut integer_digits: Vec<char> = Vec::new();
        match self.peek() {
            Some(c) => {
                if c == '0' {
                    self.next();
                    integer_digits.push(c);
                    assert(integer_digits@ =~= self.source().subrange(self.position() - 1, self.position()));
                } else if is_ascii_digit(c) {
                    proof {
                        lemma_digits_end_ge(self.source(), self.position() + 1);
                    }
                    self.read_digits(&mut integer_digits);
                    assert(integer_digits@ =~= Seq::<char>::empty() + integer_digits@);
                } else {
                    return None;
                }
            },
            None => return None,
        }
        let mut fraction_digits: Vec<char> = Vec::new();
        match self.peek() {
            Some(c) => {
                if c == '.' {
                    self.next();
                    self.read_digits(&mut fraction_digits);
                    assert(fraction_digits@ =~= Seq::<char>::empty() + fraction_digits@);
                }
            },
            None => {},
        }
        let mut exponent_negative = false;
        let mut exponent_digits: Vec<char> = Vec::new();
        let is_exponent = match self.peek() {
            Some(c) => c == 'e' || c == 'E',
            None => false,
        };
        if is_exponent {
            self.next();
            match self.peek() {
                Some(c) => {
                    if c == '-' {
                        exponent_negative = true;
                        self.next();
                    } else if c == '+' {
                        self.next();
                    }
                },
                None => return None,
            }
            let before_zeros = self.position;
            self.skip_zeros();
            let read_zero = self.position > before_zeros;
            match self.peek() {
                Some(c) => {
                    if is_ascii_digit(c) {
                        self.read_digits(&mut exponent_digits);
                        assert(exponent_digits@ =~= Seq::<char>::empty() + exponent_digits@);
                    } else if !read_zero {
                        return None;
                    }
                },
                None => {
                    if !read_zero {
                        return None;
                    }
                },
            }
        }
        Some(JsonNumber { negative, integer_digits, fraction_digits, exponent_negative, exponent_digits })
    }

    /// Reads `count` characters; false where the text ends first.
    fn skip_chars(&mut self, count: usize) -> (r: bool)
        requires
            old(self).wf(),
        ensures
            old(self).position() <= final(self).position(),
            final(self).wf(),
            final(self).source() == old(self).source(),
            final(self).depth() == old(self).depth(),
            r == (old(self).position() + count <= old(self).source().len()),
            final(self).position() == if r {
                old(self).position() + count
            } else {
                old(self).source().len() as int
            },
    {
        if self.source.len() - self.position < count {
            self.position = self.source.len();
            return false;
        }
        self.position = self.position + count;
        true
    }

    /// Reads a string after any white space.
    pub fn string(&mut self) -> (r: Option<String>)
        requires
            old(self).wf(),
        ensures
            old(self).position() <= final(self).position(),
            r is Some ==> old(self).position() < final(self).position(),
            final(self).wf(),
            final(self).source() == old(self).source(),
            final(self).depth() == old(self).depth(),
            match string_at(old(self).source(), skip_ws(old(self).source(), old(self).position())) {
                Some((t, k)) => r matches Some(s) && s@ == t && final(self).position() == k,
                None => r is None && final(self).position() == string_stop(
                    old(self).source(),
                    skip_ws(old(self).source(), old(self).position()),
                ),
            },
    {
        self.skip_whitespace();
        self.parse_string()
    }

    /// Reads `true` or `false` after any white space. Only the first letter
    /// is looked at; the letter and four more characters are read for
    /// `true`, and the letter and five more for `false`.
    pub fn bool(&mut self) -> (r: Option<bool>)
        requires
            old(self).wf(),
        ensures
            old(self).position() <= final(self).position(),
            r is Some ==> old(self).position() < final(self).position(),
            final(self).wf(),
            final(self).source() == old(self).source(),
            final(self).depth() == old(self).depth(),
            ({
                let src = old(self).source();
                let p = skip_ws(src, old(self).position());
                &&& (p < src.len() && src[p] == 't' && p + 5 <= src.len()) ==> r == Some(true)
                    && final(self).position() == p + 5
                &&& (p < src.len() && src[p] == 'f' && p + 6 <= src.len()) ==> r == Some(false)
                    && final(self).position() == p + 6
                &&& !((p < src.len() && src[p] == 't' && p + 5 <= src.len()) || (p < src.len()
                    && src[p] == 'f' && p + 6 <= src.len())) ==> r is None
                &&& r is None ==> final(self).position() == if p >= src.len() {
                    p
                } else if src[p] == 't' || src[p] == 'f' {
                    src.len() as int
                } else {
                    p + 1
                }
            }),
    {
        self.skip_whitespace();
        match self.next() {
            Some(c) => {
                if c == 't' {
                    if self.skip_chars(4) {
                        Some(true)
                    } else {
                        None
                    }
                } else if c == 'f' {
                    if self.skip_chars(5) {
                        Some(false)
                    } else {
                        None
                    }
                } else {
                    None
                }
            },
            None => None,
        }
    }

    /// Reads the start of a value of any kind after any white space: the
    /// opening bracket of an object or an array (one level deeper, up to the
    /// limit), a string, a number, or a keyword of which only the first
    /// letter is looked at.
    pub fn any(&mut self) -> (r: Option<AnyValue>)
        requires
            old(self).wf(),
        ensures
            old(self).position() <= final(self).position(),
            r is Some ==> old(self).position() < final(self).position(),
            final(self).wf(),
            final(self).source() == old(self).source(),
            ({
                let src = old(self).source();
                let p = skip_ws(src, old(self).position());
                let d = old(self).depth();
                if p >= src.len() {
                    r is None && final(self).position() == p && final(self).depth() == d
                } else if src[p] == '{' || src[p] == '[' {
                    if d >= RECURSIVE_LIMIT {
                        r is None && final(self).position() == p + 1 && final(self).depth() == d
                    } else {
                        &&& r == (if src[p] == '{' { Some(AnyValue::Object) } else { Some(AnyValue::Array) })
                        &&& final(self).position() == p + 1
                        &&& final(self).depth() == d + 1
                    }
                } else if src[p] == '"' {
                    &&& final(self).depth() == d
                    &&& match string_at(src, p) {
                        Some((t, k)) => r matches Some(AnyValue::String(s)) && s@ == t
                            && final(self).position() == k,
                        None => r is None && final(self).position() == string_stop(src, p),
                    }
                } else if src[p] == 't' || src[p] == 'f' || src[p] == 'n' {
                    let len = if src[p] == 'f' { 5int } else { 4int };
                    &&& final(self).depth() == d
                    &&& p + len <= src.len() ==> final(self).position() == p + len && r == Some(
                        if src[p] == 't' {
                            AnyValue::Bool(true)
                        } else if src[p] == 'f' {
                            AnyValue::Bool(false)
                        } else {
                            AnyValue::Null
                        },
                    )
                    &&& p + len > src.len() ==> r is None && final(self).position() == src.len()
                } else if src[p] == '-' || is_digit(src[p]) {
                    &&& final(self).depth() == d
                    &&& match number_at(src, p) {
                        Some((n, a, b, e, x, k)) => r matches Some(AnyValue::Number(m)) && m.model() == (
                            n,
                            a,
                            b,
                            e,
                            x,
                        ) && final(self).position() == k,
                        None => r is None && final(self).position() == number_stop(src, p),
                    }
                } else {
                    r is None && final(self).position() == p && final(self).depth() == d
                }
            }),
    {
        self.skip_whitespace();
        let c = match self.peek() {
            Some(c) => c,
            None => return None,
        };
        if c == '{' || c == '[' {
            self.next();
            if self.recursive_depth >= RECURSIVE_LIMIT {
                return None;
            }
            self.recursive_depth += 1;
            if c == '{' {
                Some(AnyValue::Object)
            } else {
                Some(AnyValue::Array)
            }
        } else if c == '"' {
            match self.parse_string() {
                Some(s) => Some(AnyValue::String(s)),
                None => None,
            }
        } else if c == 't' {
            if self.skip_chars(4) {
                Some(AnyValue::Bool(true))
            } else {
                None
            }
        } else if c == 'f' {
            if self.skip_chars(5) {
                Some(AnyValue::Bool(false))
            } else {
                None
            }
        } else if c == 'n' {
            if self.skip_chars(4) {
                Some(AnyValue::Null)
            } else {
                None
            }
        } else if c == '-' || is_ascii_digit(c) {
            match self.parse_number() {
                Some(n) => Some(AnyValue::Number(n)),
                None => None,
            }
        } else {
            None
        }
    }

    /// Reads the opening brace of an object after any white space and goes
    /// one level deeper. Nothing is read at the nesting limit; otherwise one
    /// character is read even where it is no brace.
    pub fn begin_object(&mut self) -> (r: bool)
        requires
            old(self).wf(),
        ensures
            final(self).wf(),
            final(self).source() == old(self).source(),
            old(self).depth() >= RECURSIVE_LIMIT ==> !r && *final(self) == *old(self),
            old(self).depth() < RECURSIVE_LIMIT ==> ({
                let src = old(self).source();
                let p = skip_ws(src, old(self).position());
                &&& r == (p < src.len() && src[p] == '{')
                &&& final(self).position() == if p < src.len() { p + 1 } else { p }
                &&& final(self).depth() == if r { old(self).depth() + 1 } else { old(self).depth() }
            }),
    {
        self.begin_nested('{')
    }

    /// Reads the opening bracket of an array after any white space and goes
    /// one level deeper. Nothing is read at the nesting limit; otherwise one
    /// character is read even where it is no bracket.
    pub fn begin_array(&mut self) -> (r: bool)
        requires
            old(self).wf(),
        ensures
            final(self).wf(),
            final(self).source() == old(self).source(),
            old(self).depth() >= RECURSIVE_LIMIT ==> !r && *final(self) == *old(self),
            old(self).depth() < RECURSIVE_LIMIT ==> ({
                let src = old(self).source();
                let p = skip_ws(src, old(self).position());
                &&& r == (p < src.len() && src[p] == '[')
                &&& final(self).position() == if p < src.len() { p + 1 } else { p }
                &&& final(self).depth() == if r { old(self).depth() + 1 } else { old(self).depth() }
            }),
    {
        self.begin_nested('[')
    }

    fn begin_nested(&mut self, open: char) -> (r: bool)
        requires
            old(self).wf(),
        ensures
            final(self).wf(),
            final(self).source() == old(self).source(),
            old(self).depth() >= RECURSIVE_LIMIT ==> !r && *final(self) == *old(self),
            old(self).depth() < RECURSIVE_LIMIT ==> ({
                let src = old(self).source();
                let p = skip_ws(src, old(self).position());
                &&& r == (p < src.len() && src[p] == open)
                &&& final(self).position() == if p < src.len() { p + 1 } else { p }
                &&& final(self).depth() == if r { old(self).depth() + 1 } else { old(self).depth() }
            }),
    {
        if self.recursive_depth >= RECURSIVE_LIMIT {
            return false;
        }
        self.skip_whitespace();
        match self.next() {
            Some(c) => {
                if c == open {
                    self.recursive_depth += 1;
                    true
                } else {
                    false
                }
            },
            None => false,
        }
    }

    /// Reads past the separator or closing bracket before the next item of
    /// an array: true where an item follows. A closing bracket ends the
    /// array and goes one level up; at the outermost level it is left
    /// unread.
    pub fn has_array_value(&mut self) -> (r: bool)
        requires
            old(self).wf(),
        ensures
            old(self).position() <= final(self).position(),
            final(self).wf(),
            final(self).source() == old(self).source(),
            ({
                let src = old(self).source();
                let p = skip_ws(src, old(self).position());
                let d = old(self).depth();
                if p < src.len() && src[p] == ',' {
                    r && final(self).position() == p + 1 && final(self).depth() == d
                } else if p < src.len() && src[p] == ']' {
                    !r && (if d == 0 {
                        final(self).position() == p && final(self).depth() == d
                    } else {
                        final(self).position() == p + 1 && final(self).depth() == d - 1
                    })
                } else {
                    r && final(self).position() == p && final(self).depth() == d
                }
            }),
    {
        self.skip_whitespace();
        match self.peek() {
            Some(c) => {
                if c == ',' {
                    self.next();
                    true
                } else if c == ']' {
                    if self.recursive_depth == 0 {
                        return false;
                    }
                    self.recursive_depth -= 1;
                    self.next();
                    false
                } else {
                    true
                }
            },
            None => true,
        }
    }

    /// Reads the name of the next property of an object and the colon after
    /// it. `None` at the closing brace, which ends the object and goes one
    /// level up (at the outermost level it is left unread), and where the
    /// text does not hold a property.
    pub fn has_property(&mut self) -> (r: Option<String>)
        requires
            old(self).wf(),
        ensures
            old(self).position() <= final(self).position(),
            final(self).wf(),
            final(self).source() == old(self).source(),
            ({
                let src = old(self).source();
                let p = skip_ws(src, old(self).position());
                let d = old(self).depth();
                if p >= src.len() {
                    r is None && final(self).position() == p && final(self).depth() == d
                } else if src[p] == '}' {
                    &&& r is None
                    &&& d == 0 ==> final(self).position() == p && final(self).depth() == d
                    &&& d > 0 ==> final(self).position() == p + 1 && final(self).depth() == d - 1
                } else {
                    let q = skip_ws(src, if src[p] == ',' { p + 1 } else { p });
                    &&& final(self).depth() == d
                    &&& match string_at(src, q) {
                        None => r is None && final(self).position() == string_stop(src, q),
                        Some((name, k)) => {
                            let c = skip_ws(src, k);
                            if c < src.len() && src[c] == ':' {
                                &&& r matches Some(s) && s@ == name
                                &&& final(self).position() == skip_ws(src, c + 1)
                            } else {
                                &&& r is None
                                &&& final(self).position() == if c < src.len() {
                                    c + 1
                                } else {
                                    c
                                }
                            }
                        },
                    }
                }
            }),
    {
        self.skip_whitespace();
        match self.peek() {
            Some(c) => {
                if c == ',' {
                    self.next();
                } else if c == '}' {
                    if self.recursive_depth == 0 {
                        return None;
                    }
                    self.recursive_depth -= 1;
                    self.next();
                    return None;
                }
            },
            None => return None,
        }
        self.skip_whitespace();
        let name = match self.parse_string() {
            Some(name) => name,
            None => return None,
        };
        self.skip_whitespace();
        match self.next() {
            Some(c) => {
                if c != ':' {
                    return None;
                }
            },
            None => return None,
        }
        self.skip_whitespace();
        Some(name)
    }

    /// Reads past any white space.
    pub fn skip_whitespace(&mut self)
        requires
            old(self).wf(),
        ensures
            old(self).position() <= final(self).position(),
            final(self).wf(),
            final(self).source() == old(self).source(),
            final(self).depth() == old(self).depth(),
            final(self).position() == skip_ws(old(self).source(), old(self).position()),
    {
        while self.position < self.source.len() && is_whitespace(self.source[self.position])
            invariant
                self.wf(),
                self.source() == old(self).source(),
                self.depth() == old(self).depth(),
                old(self).position() <= self.position(),
                skip_ws(self.source(), self.position()) == skip_ws(old(self).source(), old(self).position()),
            decreases self.source@.len() - self.position,
        {
            self.position += 1;
        }
    }
}


/// A value that can be read from JSON text.
pub trait Deserialize: Sized {
    /// Reads a value; `None` where the text holds none, after which the
    /// reader is in no useful state. A value that is read takes up at least
    /// one character.
    fn deserialize(deserializer: &mut JSONDeserializer) -> (r: Option<Self>)
        requires
            old(deserializer).wf(),
        ensures
            final(deserializer).wf(),
            final(deserializer).source() == old(deserializer).source(),
            r is Some ==> old(deserializer).position() < final(deserializer).position(),
            r is Some <==> Self::read_end(
                old(deserializer).source(),
                old(deserializer).position(),
                old(deserializer).depth(),
            ) is Some,
            r is Some ==> Self::read_end(
                old(deserializer).source(),
                old(deserializer).position(),
                old(deserializer).depth(),
            ) == Some((final(deserializer).position(), final(deserializer).depth())),
    ;

    /// Whether a value can be read at `p` at nesting depth `d`, and if so
    /// where reading stops and the depth after it.
    spec fn read_end(src: Seq<char>, p: int, d: int) -> Option<(int, int)>;
}

impl Deserialize for bool {
    /// `true` and `false` are told apart by their first letter.
    open spec fn read_end(src: Seq<char>, p0: int, d: int) -> Option<(int, int)> {
        let p = skip_ws(src, p0);
        if p < src.len() && src[p] == 't' && p + 5 <= src.len() {
            Some((p + 5, d))
        } else if p < src.len() && src[p] == 'f' && p + 6 <= src.len() {
            Some((p + 6, d))
        } else {
            None
        }
    }

    fn deserialize(deserializer: &mut JSONDeserializer) -> (r: Option<Self>)
        ensures
            ({
                let src = old(deserializer).source();
                let p = skip_ws(src, old(deserializer).position());
                &&& (p < src.len() && src[p] == 't' && p + 5 <= src.len()) ==> r == Some(true)
                &&& (p < src.len() && src[p] == 'f' && p + 6 <= src.len()) ==> r == Some(false)
                &&& !((p < src.len() && src[p] == 't' && p + 5 <= src.len()) || (p < src.len()
                    && src[p] == 'f' && p + 6 <= src.len())) ==> r is None
            }),
    {
        deserializer.bool()
    }
}

impl Deserialize for String {
    open spec fn read_end(src: Seq<char>, p: int, d: int) -> Option<(int, int)> {
        match string_at(src, skip_ws(src, p)) {
            Some((_, k)) => Some((k, d)),
            None => None,
        }
    }

    fn deserialize(deserializer: &mut JSONDeserializer) -> (r: Option<Self>)
        ensures
            match string_at(old(deserializer).source(), skip_ws(old(deserializer).source(), old(deserializer).position())) {
                Some((t, k)) => r matches Some(s) && s@ == t && final(deserializer).position() == k,
                None => r is None,
            },
    {
        deserializer.string()
    }
}

/// A value that can be read from a whole JSON text.
pub trait FromJson: Sized {
    fn from_json(s: &str) -> (r: Option<Self>);
}

impl FromJson for bool {
    /// Reads a `bool` from the start of `s`.
    fn from_json(s: &str) -> (r: Option<Self>)
        ensures
            ({
                let p = skip_ws(s@, 0);
                &&& (p < s@.len() && s@[p] == 't' && p + 5 <= s@.len()) ==> r == Some(true)
                &&& (p < s@.len() && s@[p] == 'f' && p + 6 <= s@.len()) ==> r == Some(false)
                &&& !((p < s@.len() && s@[p] == 't' && p + 5 <= s@.len()) || (p < s@.len()
                    && s@[p] == 'f' && p + 6 <= s@.len())) ==> r is None
            }),
    {
        let mut deserializer = JSONDeserializer::new(s);
        bool::deserialize(&mut deserializer)
    }
}

impl FromJson for String {
    /// Reads a string from the start of `s`.
    fn from_json(s: &str) -> (r: Option<Self>)
        ensures
            match string_at(s@, skip_ws(s@, 0)) {
                Some((t, k)) => r matches Some(v) && v@ == t,
                None => r is None,
            },
    {
        let mut deserializer = JSONDeserializer::new(s);
        String::deserialize(&mut deserializer)
    }
}

/// The character code that RFC 8259 gives a one-character escape, or -1
/// where the character starts no such escape.
pub open spec fn rfc_escape_code(e: char) -> int {
    if e == '"' {
        0x22
    } else if e == '\\' {
        0x5C
    } else if e == '/' {
        0x2F
    } else if e == 'b' {
        0x08
    } else if e == 'f' {
        0x0C
    } else if e == 'n' {
        0x0A
    } else if e == 'r' {
        0x0D
    } else if e == 't' {
        0x09
    } else {
        -1
    }
}

/// Reading a string, a backslash followed by one of `"` `\` `/` `b` `f` `n`
/// `r` `t` stands for the character RFC 8259 names (quotation mark, reverse
/// solidus, solidus, backspace U+0008, form feed U+000C, line feed U+000A,
/// carriage return U+000D, tab U+0009) and reading goes on after the two;
/// a backslash followed by any other character but `u` is refused.
pub proof fn lemma_json_escapes(src: Seq<char>, i: int)
    requires
        0 <= i,
        i + 1 < src.len(),
        src[i] == '\\',
        src[i + 1] != 'u',
    ensures
        rfc_escape_code(src[i + 1]) >= 0 ==> decode_string(src, i) == prepend(
            rfc_escape_code(src[i + 1]) as char,
            decode_string(src, i + 2),
        ),
        rfc_escape_code(src[i + 1]) < 0 ==> decode_string(src, i) is None,
{
}

/// Distinct one-character escapes stand for distinct characters, and an
/// escape letter never stands for itself.
pub proof fn lemma_json_escapes_distinct(e1: char, e2: char)
    ensures
        simple_escape(e1) is Some && simple_escape(e1) == simple_escape(e2) ==> e1 == e2,
        ('a' <= e1 <= 'z') ==> (simple_escape(e1) matches Some(c) ==> (c as u32) < 0x20),
{
}

} // verus!
