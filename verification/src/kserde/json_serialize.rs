use vstd::prelude::*;

use crate::kserde::json_deserialize::{
    chars_of, decode_string, digits_end, is_digit, is_white_space, number_at, skip_ws, string_at,
    string_from_chars,
};

use crate::kreflect::tokenizer::digits_value;

verus! {

/// The digit character for `d`, one of 0 to 9.
pub open spec fn digit_char(d: int) -> char {
    (d + '0' as u32) as char
}

/// The decimal digits of a number that is not negative.
pub open spec fn natural_digits(n: nat) -> Seq<char>
    decreases n,
{
    if n < 10 {
        seq![digit_char(n as int)]
    } else {
        natural_digits(n / 10).push(digit_char((n % 10) as int))
    }
}

/// How `i64`'s `to_string` writes `n`: a minus sign where it is negative,
/// then its decimal digits.
pub open spec fn decimal(n: int) -> Seq<char> {
    if n < 0 {
        seq!['-'] + natural_digits((-n) as nat)
    } else {
        natural_digits(n as nat)
    }
}

/// Appends the decimal digits of `m`.
pub(crate) fn push_natural_digits(s: &mut Vec<char>, m: u64)
    ensures
        final(s)@ == old(s)@ + natural_digits(m as nat),
    decreases m,
{
    if m >= 10 {
        push_natural_digits(s, m / 10);
    }
    let d = (m % 10) as u32;
    let c = if d == 0 {
        '0'
    } else if d == 1 {
        '1'
    } else if d == 2 {
        '2'
    } else if d == 3 {
        '3'
    } else if d == 4 {
        '4'
    } else if d == 5 {
        '5'
    } else if d == 6 {
        '6'
    } else if d == 7 {
        '7'
    } else if d == 8 {
        '8'
    } else {
        '9'
    };
    assert(c == digit_char(d as int));
    let ghost before = s@;
    s.push(c);
    proof {
        if m >= 10 {
            assert(natural_digits(m as nat) == natural_digits((m / 10) as nat).push(
                digit_char((m % 10) as int),
            ));
        }
    }
    assert(s@ =~= old(s)@ + natural_digits(m as nat));
}

/// Appends `n` in decimal, as `i64`'s `to_string` writes it.
pub(crate) fn push_decimal(s: &mut Vec<char>, n: i64)
    ensures
        final(s)@ == old(s)@ + decimal(n as int),
{
    if n < 0 {
        s.push('-');
        let m: u64 = if n == i64::MIN {
            9223372036854775808u64
        } else {
            (-n) as u64
        };
        push_natural_digits(s, m);
        assert(s@ =~= old(s)@ + decimal(n as int));
    } else {
        push_natural_digits(s, n as u64);
    }
}

/// The items one after the other with `, ` between two neighbours.
pub open spec fn joined(items: Seq<Seq<char>>) -> Seq<char>
    decreases items.len(),
{
    if items.len() == 0 {
        Seq::empty()
    } else if items.len() == 1 {
        items[0]
    } else {
        joined(items.drop_last()) + seq![',', ' '] + items.last()
    }
}

/// The items one after the other, each followed by `, `.
pub open spec fn terminated(items: Seq<Seq<char>>) -> Seq<char>
    decreases items.len(),
{
    if items.len() == 0 {
        Seq::empty()
    } else {
        terminated(items.drop_last()) + items.last() + seq![',', ' ']
    }
}

pub(crate) proof fn lemma_terminated_joined(items: Seq<Seq<char>>)
    requires
        items.len() > 0,
    ensures
        terminated(items) == joined(items) + seq![',', ' '],
    decreases items.len(),
{
    if items.len() == 1 {
        assert(items.drop_last().len() == 0);
        assert(terminated(items.drop_last()) == Seq::<char>::empty());
        assert(terminated(items) =~= items[0] + seq![',', ' ']);
    } else {
        lemma_terminated_joined(items.drop_last());
        assert(terminated(items) =~= joined(items) + seq![',', ' ']);
    }
}

/// `n` spaces.
pub open spec fn spaces(n: int) -> Seq<char> {
    Seq::new(if n < 0 { 0 } else { n as nat }, |i: int| ' ')
}

/// `text` without the `, ` that the last item left, where it left one.
pub open spec fn without_comma(text: Seq<char>, added_comma: bool) -> Seq<char> {
    if added_comma {
        text.take(if text.len() >= 2 { text.len() - 2 } else { 0 })
    } else {
        text
    }
}

/// Writes JSON text.
///
/// Objects are written with one property per line, indented by four
/// spaces for each open object.
pub struct JSONSerializer {
    s: Vec<char>,
    indentation: u16,
    added_comma: bool,
}

impl JSONSerializer {
    /// The text written so far.
    pub closed spec fn text(&self) -> Seq<char> {
        self.s@
    }

    /// How many spaces start a property's line.
    pub closed spec fn indentation(&self) -> int {
        self.indentation as int
    }

    /// Whether the text ends with the `, ` that follows an item.
    pub closed spec fn added_comma(&self) -> bool {
        self.added_comma
    }

    /// The indentation is a `u16`.
    pub proof fn lemma_indentation_bounds(&self)
        ensures
            0 <= self.indentation() <= u16::MAX,
    {
    }

    pub fn new() -> (r: Self)
        ensures
            r.text() == Seq::<char>::empty(),
            r.indentation() == 0,
            !r.added_comma(),
    {
        JSONSerializer { s: Vec::new(), indentation: 0, added_comma: false }
    }

    /// The text written.
    pub fn done(self) -> (r: String)
        ensures
            r@ == self.text(),
    {
        string_from_chars(&self.s)
    }

    /// Writes a whole number in decimal.
    pub fn i64(&mut self, n: i64)
        ensures
            final(self).text() == old(self).text() + decimal(n as int),
            final(self).indentation() == old(self).indentation(),
            final(self).added_comma() == old(self).added_comma(),
    {
        push_decimal(&mut self.s, n);
    }

    /// Writes `true` or `false`.
    pub fn bool(&mut self, b: bool)
        ensures
            final(self).text() == old(self).text() + bool_text(b),
            final(self).indentation() == old(self).indentation(),
            final(self).added_comma() == old(self).added_comma(),
    {
        if b {
            self.s.push('t');
            self.s.push('r');
            self.s.push('u');
            self.s.push('e');
        } else {
            self.s.push('f');
            self.s.push('a');
            self.s.push('l');
            self.s.push('s');
            self.s.push('e');
        }
        assert(self.s@ =~= old(self).text() + (if b {
            seq!['t', 'r', 'u', 'e']
        } else {
            seq!['f', 'a', 'l', 's', 'e']
        }));
    }

    /// Writes `null`.
    pub fn null(&mut self)
        ensures
            final(self).text() == old(self).text() + seq!['n', 'u', 'l', 'l'],
            final(self).indentation() == old(self).indentation(),
            final(self).added_comma() == old(self).added_comma(),
    {
        self.s.push('n');
        self.s.push('u');
        self.s.push('l');
        self.s.push('l');
        assert(self.s@ =~= old(self).text() + seq!['n', 'u', 'l', 'l']);
    }

    pub(crate) fn push_all(&mut self, chars: &Vec<char>)
        ensures
            final(self).text() == old(self).text() + chars@,
            final(self).indentation() == old(self).indentation(),
            final(self).added_comma() == old(self).added_comma(),
    {
        let mut i: usize = 0;
        while i < chars.len()
            invariant
                i <= chars@.len(),
                self.text() == old(self).text() + chars@.take(i as int),
                self.indentation() == old(self).indentation(),
                self.added_comma() == old(self).added_comma(),
            decreases chars@.len() - i,
        {
            self.s.push(chars[i]);
            i += 1;
            assert(self.s@ =~= old(self).text() + chars@.take(i as int));
        }
        assert(chars@.take(chars@.len() as int) =~= chars@);
    }

    /// Writes a number that is already written out as `digits`, such as
    /// the text of a float.
    pub fn number_text(&mut self, digits: &str)
        ensures
            final(self).text() == old(self).text() + digits@,
            final(self).indentation() == old(self).indentation(),
            final(self).added_comma() == old(self).added_comma(),
    {
        let chars = chars_of(digits);
        self.push_all(&chars);
    }

    /// Writes `s` between quotes, as it is: nothing in it is escaped.
    pub fn string(&mut self, s: &str)
        ensures
            final(self).text() == old(self).text() + seq!['"'] + s@ + seq!['"'],
            final(self).indentation() == old(self).indentation(),
            final(self).added_comma() == old(self).added_comma(),
    {
        let chars = chars_of(s);
        self.s.push('"');
        self.push_all(&chars);
        self.s.push('"');
        assert(self.s@ =~= old(self).text() + seq!['"'] + s@ + seq!['"']);
    }
}

impl JSONSerializer {
    fn indent(&mut self)
        ensures
            final(self).text() == old(self).text() + spaces(old(self).indentation()),
            final(self).indentation() == old(self).indentation(),
            final(self).added_comma() == old(self).added_comma(),
    {
        let mut i: u16 = 0;
        while i < self.indentation
            invariant
                i <= self.indentation,
                self.text() == old(self).text() + spaces(i as int),
                self.indentation() == old(self).indentation(),
                self.added_comma() == old(self).added_comma(),
            decreases self.indentation - i,
        {
            self.s.push(' ');
            i += 1;
            assert(self.s@ =~= old(self).text() + spaces(i as int));
        }
    }

    /// Opens an array.
    pub fn begin_array(&mut self)
        ensures
            final(self).text() == old(self).text() + seq!['['],
            final(self).indentation() == old(self).indentation(),
            !final(self).added_comma(),
    {
        self.added_comma = false;
        self.s.push('[');
    }

    /// Closes an array, taking back the `, ` after its last item.
    pub fn end_array(&mut self)
        ensures
            final(self).text() == without_comma(old(self).text(), old(self).added_comma()) + seq![']'],
            final(self).indentation() == old(self).indentation(),
            !final(self).added_comma(),
    {
        if self.added_comma {
            self.s.pop();
            self.s.pop();
            self.added_comma = false;
        }
        assert(self.s@ =~= without_comma(old(self).text(), old(self).added_comma()));
        self.s.push(']');
    }

    /// Opens an object; its properties go four spaces further in.
    pub fn begin_object(&mut self)
        requires
            old(self).indentation() + 4 <= u16::MAX,
        ensures
            final(self).text() == old(self).text() + seq!['{'],
            final(self).indentation() == old(self).indentation() + 4,
            !final(self).added_comma(),
    {
        self.added_comma = false;
        self.s.push('{');
        self.indentation += 4;
    }

    /// Closes an object, taking back the `, ` after its last property, on a
    /// line of its own.
    pub fn end_object(&mut self)
        requires
            old(self).indentation() >= 4,
        ensures
            final(self).text() == without_comma(old(self).text(), old(self).added_comma()) + seq!['\n']
                + spaces(old(self).indentation() - 4) + seq!['}'],
            final(self).indentation() == old(self).indentation() - 4,
            !final(self).added_comma(),
    {
        self.indentation -= 4;
        if self.added_comma {
            self.s.pop();
            self.s.pop();
            self.added_comma = false;
        }
        let ghost before = self.s@;
        assert(before =~= without_comma(old(self).text(), old(self).added_comma()));
        self.s.push('\n');
        self.indent();
        self.s.push('}');
        assert(self.s@ =~= before + seq!['\n'] + spaces(self.indentation as int) + seq!['}']);
    }

    /// Writes a value.
    pub fn serialize<V: Serialize>(&mut self, value: &V)
        ensures
            final(self).text() == old(self).text() + value.json_text(old(self).indentation()),
            final(self).indentation() == old(self).indentation(),
    {
        value.serialize(self);
    }

    /// Writes an item of an array and the `, ` after it.
    pub fn value<V: Serialize>(&mut self, value: &V)
        ensures
            final(self).text() == old(self).text() + value.json_text(old(self).indentation()) + seq![',', ' '],
            final(self).indentation() == old(self).indentation(),
            final(self).added_comma(),
    {
        value.serialize(self);
        self.end_value();
    }

    /// Writes the `, ` that follows an item or a property's value.
    pub(crate) fn end_value(&mut self)
        ensures
            final(self).text() == old(self).text() + seq![',', ' '],
            final(self).indentation() == old(self).indentation(),
            final(self).added_comma(),
    {
        self.s.push(',');
        self.s.push(' ');
        self.added_comma = true;
        assert(self.s@ =~= old(self).text() + seq![',', ' ']);
    }

    /// Starts a property on a line of its own: the quoted name and `: `.
    pub(crate) fn property_name(&mut self, name: &str)
        ensures
            final(self).text() == old(self).text() + seq!['\n'] + spaces(old(self).indentation()) + seq!['"']
                + name@ + seq!['"', ':', ' '],
            final(self).indentation() == old(self).indentation(),
            final(self).added_comma() == old(self).added_comma(),
    {
        self.s.push('\n');
        self.indent();
        self.string(name);
        self.s.push(':');
        self.s.push(' ');
        assert(self.s@ =~= old(self).text() + seq!['\n'] + spaces(old(self).indentation()) + seq!['"']
            + name@ + seq!['"', ':', ' ']);
    }

    /// Writes a property of an object on a line of its own: the quoted name,
    /// `: `, the value and the `, ` after it.
    pub fn property<V: Serialize>(&mut self, name: &str, value: &V)
        ensures
            final(self).text() == old(self).text() + seq!['\n'] + spaces(old(self).indentation()) + seq!['"']
                + name@ + seq!['"', ':', ' '] + value.json_text(old(self).indentation()) + seq![',', ' '],
            final(self).indentation() == old(self).indentation(),
            final(self).added_comma(),
    {
        self.property_name(name);
        self.value(value);
        assert(self.s@ =~= old(self).text() + seq!['\n'] + spaces(old(self).indentation()) + seq!['"']
            + name@ + seq!['"', ':', ' '] + value.json_text(old(self).indentation()) + seq![',', ' ']);
    }
}

/// A value that can be written as JSON text.
pub trait Serialize {
    /// The text written for this value when properties are indented by
    /// `indentation` spaces.
    spec fn json_text(&self, indentation: int) -> Seq<char>;

    /// Writes this value.
    fn serialize(&self, serializer: &mut JSONSerializer)
        ensures
            final(serializer).text() == old(serializer).text() + self.json_text(old(serializer).indentation()),
            final(serializer).indentation() == old(serializer).indentation(),
    ;
}

/// The JSON text of a boolean.
pub open spec fn bool_text(b: bool) -> Seq<char> {
    if b {
        seq!['t', 'r', 'u', 'e']
    } else {
        seq!['f', 'a', 'l', 's', 'e']
    }
}

impl Serialize for bool {
    open spec fn json_text(&self, indentation: int) -> Seq<char> {
        bool_text(*self)
    }

    fn serialize(&self, serializer: &mut JSONSerializer) {
        serializer.bool(*self);
    }
}

impl Serialize for i64 {
    open spec fn json_text(&self, indentation: int) -> Seq<char> {
        decimal(*self as int)
    }

    fn serialize(&self, serializer: &mut JSONSerializer) {
        serializer.i64(*self);
    }
}

impl Serialize for i32 {
    open spec fn json_text(&self, indentation: int) -> Seq<char> {
        decimal(*self as int)
    }

    fn serialize(&self, serializer: &mut JSONSerializer) {
        serializer.i64(*self as i64);
    }
}

impl Serialize for String {
    open spec fn json_text(&self, indentation: int) -> Seq<char> {
        seq!['"'] + self@ + seq!['"']
    }

    fn serialize(&self, serializer: &mut JSONSerializer) {
        serializer.string(self.as_str());
    }
}

impl Serialize for usize {
    open spec fn json_text(&self, indentation: int) -> Seq<char> {
        decimal((*self as i64) as int)
    }

    fn serialize(&self, serializer: &mut JSONSerializer) {
        serializer.i64(*self as i64);
    }
}

impl Serialize for &str {
    open spec fn json_text(&self, indentation: int) -> Seq<char> {
        seq!['"'] + self@ + seq!['"']
    }

    fn serialize(&self, serializer: &mut JSONSerializer) {
        serializer.string(self);
    }
}

impl<T: Serialize> Serialize for Option<T> {
    open spec fn json_text(&self, indentation: int) -> Seq<char> {
        match self {
            Some(v) => v.json_text(indentation),
            None => seq!['n', 'u', 'l', 'l'],
        }
    }

    fn serialize(&self, serializer: &mut JSONSerializer) {
        match self {
            Some(v) => v.serialize(serializer),
            None => serializer.null(),
        }
    }
}

/// The texts of the items of `items`.
pub open spec fn item_texts<T: Serialize>(items: Seq<T>, indentation: int) -> Seq<Seq<char>> {
    Seq::new(items.len(), |i: int| items[i].json_text(indentation))
}

/// The text of an array of `items`: `[`, the items with `, ` between two
/// neighbours, and `]`.
pub open spec fn array_text<T: Serialize>(items: Seq<T>, indentation: int) -> Seq<char> {
    seq!['['] + joined(item_texts(items, indentation)) + seq![']']
}

/// Writes `items` as an array.
fn write_array<T: Serialize>(items: &[T], serializer: &mut JSONSerializer)
    ensures
        final(serializer).text() == old(serializer).text() + array_text(items@, old(serializer).indentation()),
        final(serializer).indentation() == old(serializer).indentation(),
{
    let ghost ind = serializer.indentation();
    let ghost start = serializer.text();
    serializer.begin_array();
    let mut i: usize = 0;
    while i < items.len()
        invariant
            i <= items@.len(),
            serializer.indentation() == ind,
            serializer.text() == start + seq!['['] + terminated(item_texts(items@, ind).take(i as int)),
            serializer.added_comma() == (i > 0),
        decreases items@.len() - i,
    {
        serializer.value(&items[i]);
        proof {
            let t = item_texts(items@, ind);
            assert(t.take(i + 1).drop_last() =~= t.take(i as int));
            assert(t.take(i + 1).last() == items@[i as int].json_text(ind));
        }
        i += 1;
    }
    proof {
        let t = item_texts(items@, ind);
        assert(t.take(items@.len() as int) =~= t);
        if items@.len() > 0 {
            lemma_terminated_joined(t);
            let full = start + seq!['['] + terminated(t);
            assert(full.take(full.len() - 2) =~= start + seq!['['] + joined(t));
        } else {
            assert(joined(t) == Seq::<char>::empty());
            assert(terminated(t) == Seq::<char>::empty());
        }
    }
    serializer.end_array();
    assert(serializer.text() =~= start + array_text(items@, ind));
}

impl<T: Serialize> Serialize for Vec<T> {
    open spec fn json_text(&self, indentation: int) -> Seq<char> {
        array_text(self@, indentation)
    }

    fn serialize(&self, serializer: &mut JSONSerializer) {
        write_array(self.as_slice(), serializer);
    }
}

impl<T: Serialize> Serialize for [T] {
    open spec fn json_text(&self, indentation: int) -> Seq<char> {
        array_text(self@, indentation)
    }

    fn serialize(&self, serializer: &mut JSONSerializer) {
        write_array(self, serializer);
    }
}

impl<T: Serialize, const N: usize> Serialize for [T; N] {
    open spec fn json_text(&self, indentation: int) -> Seq<char> {
        array_text(self@, indentation)
    }

    fn serialize(&self, serializer: &mut JSONSerializer) {
        write_array(self.as_slice(), serializer);
    }
}

pub(crate) proof fn lemma_decode_plain(t: Seq<char>, i: int)
    requires
        1 <= i <= t.len() + 1,
        forall|j: int| 0 <= j < t.len() ==> #[trigger] t[j] != '"' && t[j] != '\\',
    ensures
        decode_string(seq!['"'] + t + seq!['"'], i) == Some((t.subrange(i - 1, t.len() as int), t.len() + 2int)),
    decreases t.len() + 1 - i,
{
    let src = seq!['"'] + t + seq!['"'];
    if i == t.len() + 1 {
        assert(src[i] == '"');
        assert(t.subrange(i - 1, t.len() as int) =~= Seq::<char>::empty());
    } else {
        lemma_decode_plain(t, i + 1);
        assert(src[i] == t[i - 1]);
        assert(seq![t[i - 1]] + t.subrange(i, t.len() as int) =~= t.subrange(i - 1, t.len() as int));
    }
}

/// A string with no quote and no backslash in it reads back, from the text
/// that writing it gives, as itself.
pub proof fn lemma_string_round_trip(s: String)
    requires
        forall|j: int| 0 <= j < s@.len() ==> #[trigger] s@[j] != '"' && s@[j] != '\\',
    ensures
        string_at(s.json_text(0), skip_ws(s.json_text(0), 0)) == Some((s@, s@.len() + 2int)),
{
    let src = s.json_text(0);
    assert(src == seq!['"'] + s@ + seq!['"']);
    assert(!is_white_space(src[0]));
    assert(skip_ws(src, 0) == 0);
    lemma_decode_plain(s@, 1);
    assert(s@.subrange(0, s@.len() as int) =~= s@);
}

proof fn lemma_natural_digits(m: nat)
    ensures
        natural_digits(m).len() >= 1,
        forall|k: int| 0 <= k < natural_digits(m).len() ==> #[trigger] is_digit(natural_digits(m)[k]),
        natural_digits(m)[0] == '0' ==> m == 0 && natural_digits(m).len() == 1,
    decreases m,
{
    if m < 10 {
        assert(natural_digits(m) == seq![digit_char(m as int)]);
        assert((digit_char(m as int) as u32) == m + 48);
    } else {
        lemma_natural_digits(m / 10);
        let d = (m % 10) as int;
        assert((digit_char(d) as u32) == d + 48);
        let nd = natural_digits(m);
        assert(nd == natural_digits(m / 10).push(digit_char(d)));
        assert forall|k: int| 0 <= k < nd.len() implies #[trigger] is_digit(nd[k]) by {
            if k < nd.len() - 1 {
                assert(nd[k] == natural_digits(m / 10)[k]);
            }
        }
        assert(nd[0] == natural_digits(m / 10)[0]);
    }
}

proof fn lemma_digits_to_end(s: Seq<char>, i: int)
    requires
        0 <= i <= s.len(),
        forall|k: int| i <= k < s.len() ==> #[trigger] is_digit(s[k]),
    ensures
        digits_end(s, i) == s.len(),
    decreases s.len() - i,
{
    if i < s.len() {
        lemma_digits_to_end(s, i + 1);
    }
}

/// A whole number that the writer wrote reads back, digit for digit, as
/// the same number: its sign and its decimal digits, with no fraction and
/// no exponent.
pub proof fn lemma_i64_reads_back(n: i64)
    ensures
        number_at(decimal(n as int), 0) == Some((
            n < 0,
            natural_digits(if n < 0 { (-n) as nat } else { n as nat }),
            Seq::<char>::empty(),
            false,
            Seq::<char>::empty(),
            decimal(n as int).len() as int,
        )),
{
    let m: nat = if n < 0 { (-n) as nat } else { n as nat };
    let src = decimal(n as int);
    let nd = natural_digits(m);
    lemma_natural_digits(m);
    let j: int = if n < 0 { 1 } else { 0 };
    assert(src.subrange(j, src.len() as int) =~= nd);
    assert forall|k: int| j <= k < src.len() implies #[trigger] is_digit(src[k]) by {
        assert(src[k] == nd[k - j]);
    }
    assert(src[j] == nd[0]);
    assert(!is_digit('-'));
    lemma_digits_to_end(src, j);
    if nd[0] == '0' {
        assert(src.len() == j + 1);
    }
}

/// A value that can be written as a whole JSON text.
pub trait ToJson: Serialize + Sized {
    fn to_json(&self) -> (r: String)
        ensures
            r@ == self.json_text(0),
    ;
}

impl<T: Serialize> ToJson for T {
    fn to_json(&self) -> (r: String) {
        let mut serializer = JSONSerializer::new();
        serializer.serialize(self);
        assert(serializer.text() =~= self.json_text(0));
        serializer.done()
    }
}

/// The decimal digits of `m` read back as `m`.
pub proof fn lemma_natural_digits_value(m: nat)
    ensures
        digits_value(natural_digits(m)) == m,
    decreases m,
{
    let s = natural_digits(m);
    if m < 10 {
        assert(s.drop_last() =~= Seq::<char>::empty());
        assert((digit_char(m as int) as u32) == m + 48);
        assert(s.last() == digit_char(m as int));
        assert(digits_value(s) == digits_value(s.drop_last()) * 10 + (s.last() as u32 - '0' as u32));
    } else {
        lemma_natural_digits_value(m / 10);
        assert(s.drop_last() =~= natural_digits(m / 10));
        assert((digit_char((m % 10) as int) as u32) == (m % 10) + 48);
        assert(s.last() == digit_char((m % 10) as int));
        assert(digits_value(s) == digits_value(s.drop_last()) * 10 + (s.last() as u32 - '0' as u32));
        assert(m == (m / 10) * 10 + m % 10);
    }
}

/// The JSON text of an `i32` is that of the same number as an `i64`, and
/// reading it back gives the number with its sign: negative exactly where
/// the number is, digits whose value is its magnitude, no fraction and no
/// exponent, and the whole text read.
pub proof fn lemma_i32_text_reads_back(n: i32)
    ensures
        n.json_text(0) == (n as i64).json_text(0),
        number_at(n.json_text(0), 0) matches Some((negative, digits, fraction, _e, exponent, end)) && negative
            == (n < 0) && digits_value(digits) == (if n < 0 {
            -(n as int)
        } else {
            n as int
        }) && fraction.len() == 0 && exponent.len() == 0 && end == n.json_text(0).len(),
{
    lemma_i64_reads_back(n as i64);
    let m: nat = if n < 0 { (-(n as int)) as nat } else { n as nat };
    lemma_natural_digits_value(m);
}

} // verus!
