use vstd::prelude::*;

use crate::kserde::thing::{thing_at, Thing, ThingModel};
use vstd::utf8::{decode_utf8, encode_utf8, valid_utf8};

verus! {

/// The first four bytes of every GLB file, "glTF".
pub const GLB_MAGIC_NUMBER: u32 = 0x46546C67;

/// The type of the chunk that holds the JSON, "JSON".
pub const JSON_CHUNK_TYPE: u32 = 0x4E4F534A;

/// The type of the chunk that holds the binary data, "BIN\0".
pub const BIN_CHUNK_TYPE: u32 = 0x004E4942;

/// A glTF with all of its data included within a buffer.
pub struct GLB {
    /// The glTF JSON text embedded in the GLB.
    pub gltf: String,
    /// The version of the GLB file. This is different from the glTF version.
    pub glb_version: u32,
    /// The binary data buffer that is referenced from the glTF.
    pub binary_data: Option<Vec<u8>>,
}

#[derive(Debug, PartialEq, Eq)]
pub enum GLBError {
    /// The data ended before a header, a chunk header or a chunk did.
    Io,
    /// The file's magic number is incorrect. This probably isn't a GLB.
    IncorrectMagicNumber,
    /// The file's formatting is incorrect.
    IncorrectFormatting,
    /// The GLB's inner JSON is incorrectly formatted or could not be parsed.
    InvalidJSON,
}

/// The little-endian `u32` in the four bytes at `i`.
pub open spec fn le_u32(b: Seq<u8>, i: int) -> int {
    b[i] + b[i + 1] * 256 + b[i + 2] * 65536 + b[i + 3] * 16777216
}

/// The four little-endian bytes of `x`.
pub open spec fn le_bytes(x: u32) -> Seq<u8> {
    seq![
        (x % 256) as u8,
        ((x / 256) % 256) as u8,
        ((x / 65536) % 256) as u8,
        (x / 16777216) as u8,
    ]
}

/// Whether JSON text reads, from its start, as an object.
pub open spec fn reads_object(text: Seq<char>) -> bool {
    thing_at(text, 0, 0).0 matches Some(ThingModel::Object(_))
}

/// The JSON text, the version and the binary data that a GLB file holds,
/// or what is wrong with it.
///
/// The header is the magic number, the version and the file length (not
/// checked). The JSON chunk follows: its length, its type and the text,
/// which must be UTF-8 and read as a JSON object. A binary chunk may follow: its length, its type and the data; a chunk of
/// another type is left out.
#[verifier::opaque]
pub open spec fn glb_contents(b: Seq<u8>) -> Result<(Seq<char>, u32, Option<Seq<u8>>), GLBError> {
    if b.len() < 4 {
        Err(GLBError::Io)
    } else if le_u32(b, 0) != GLB_MAGIC_NUMBER {
        Err(GLBError::IncorrectMagicNumber)
    } else if b.len() < 20 {
        Err(GLBError::Io)
    } else if le_u32(b, 16) != JSON_CHUNK_TYPE {
        Err(GLBError::IncorrectFormatting)
    } else if 20 + le_u32(b, 12) > b.len() {
        Err(GLBError::Io)
    } else {
        let q = 20 + le_u32(b, 12);
        let json = b.subrange(20, q);
        if !valid_utf8(json) {
            Err(GLBError::IncorrectFormatting)
        } else if !reads_object(decode_utf8(json)) {
            Err(GLBError::InvalidJSON)
        } else {
            let text = decode_utf8(json);
            let version = le_u32(b, 4) as u32;
            if q + 4 > b.len() {
                Ok((text, version, None))
            } else if q + 8 > b.len() {
                Err(GLBError::Io)
            } else if le_u32(b, q + 4) != BIN_CHUNK_TYPE {
                Ok((text, version, None))
            } else if q + 8 + le_u32(b, q) > b.len() {
                Err(GLBError::Io)
            } else {
                Ok((text, version, Some(b.subrange(q + 8, q + 8 + le_u32(b, q)))))
            }
        }
    }
}

/// `n` rounded up to a multiple of four.
pub open spec fn padded_len(n: int) -> int {
    if n % 4 == 0 {
        n
    } else {
        n + 4 - n % 4
    }
}

/// `n` copies of `b`.
pub open spec fn repeated(b: u8, n: int) -> Seq<u8> {
    Seq::new(if n < 0 { 0 } else { n as nat }, |i: int| b)
}

/// The length of the file that `glb_bytes` gives.
pub open spec fn glb_file_len(text: Seq<char>, data: Option<Seq<u8>>) -> int {
    20 + padded_len(encode_utf8(text).len() as int) + match data {
        Some(d) => 8 + padded_len(d.len() as int),
        None => 0,
    }
}

/// The header of a GLB file and of its JSON chunk.
pub open spec fn glb_header(text: Seq<char>, version: u32, data: Option<Seq<u8>>) -> Seq<u8> {
    le_bytes(GLB_MAGIC_NUMBER) + le_bytes(version) + le_bytes(glb_file_len(text, data) as u32)
        + le_bytes(padded_len(encode_utf8(text).len() as int) as u32) + le_bytes(JSON_CHUNK_TYPE)
}

/// The JSON text in UTF-8, padded with spaces to a multiple of four bytes.
pub open spec fn json_chunk(text: Seq<char>) -> Seq<u8> {
    let json = encode_utf8(text);
    json + repeated(0x20, padded_len(json.len() as int) - json.len())
}

/// The binary chunk, where there is data: its header and the data, padded
/// with zeros to a multiple of four bytes.
pub open spec fn binary_chunk(data: Option<Seq<u8>>) -> Seq<u8> {
    match data {
        Some(d) => le_bytes(padded_len(d.len() as int) as u32) + le_bytes(BIN_CHUNK_TYPE) + d
            + repeated(0, padded_len(d.len() as int) - d.len()),
        None => Seq::empty(),
    }
}

/// The bytes of a GLB file: the header, the JSON chunk padded with spaces
/// to a multiple of four bytes, and the binary chunk, where there is data,
/// padded with zeros. Each chunk's length counts its padding.
pub open spec fn glb_bytes(text: Seq<char>, version: u32, data: Option<Seq<u8>>) -> Seq<u8> {
    glb_header(text, version, data) + json_chunk(text) + binary_chunk(data)
}

/// `n` rounded up to a multiple of four.
pub fn to_power_of_4(n: usize) -> (r: usize)
    requires
        n + 3 <= usize::MAX,
    ensures
        r == padded_len(n as int),
{
    let remainder = n % 4;
    if remainder == 0 {
        n
    } else {
        n + 4 - remainder
    }
}

/// Appends the four little-endian bytes of `x`.
fn push_u32(out: &mut Vec<u8>, x: u32)
    ensures
        final(out)@ == old(out)@ + le_bytes(x),
{
    out.push((x % 256) as u8);
    out.push(((x / 256) % 256) as u8);
    out.push(((x / 65536) % 256) as u8);
    out.push((x / 16777216) as u8);
    assert(final(out)@ =~= old(out)@ + le_bytes(x));
}

/// Appends `n` copies of `b`.
fn push_repeated(out: &mut Vec<u8>, b: u8, n: usize)
    ensures
        final(out)@ == old(out)@ + repeated(b, n as int),
{
    let mut i: usize = 0;
    while i < n
        invariant
            i <= n,
            out@ == old(out)@ + repeated(b, i as int),
        decreases n - i,
    {
        out.push(b);
        i += 1;
        assert(out@ =~= old(out)@ + repeated(b, i as int));
    }
}

/// Appends all of `bytes`.
fn push_bytes(out: &mut Vec<u8>, bytes: &[u8])
    ensures
        final(out)@ == old(out)@ + bytes@,
{
    let mut i: usize = 0;
    while i < bytes.len()
        invariant
            i <= bytes@.len(),
            out@ == old(out)@ + bytes@.take(i as int),
        decreases bytes@.len() - i,
    {
        out.push(bytes[i]);
        i += 1;
        assert(out@ =~= old(out)@ + bytes@.take(i as int));
    }
    assert(bytes@.take(bytes@.len() as int) =~= bytes@);
}

/// Appends the file header and the JSON chunk's header.
fn write_header(out: &mut Vec<u8>, version: u32, file_length: u32, json_length: u32)
    ensures
        final(out)@ == old(out)@ + (le_bytes(GLB_MAGIC_NUMBER) + le_bytes(version) + le_bytes(file_length)
            + le_bytes(json_length) + le_bytes(JSON_CHUNK_TYPE)),
{
    push_u32(out, GLB_MAGIC_NUMBER);
    push_u32(out, version);
    push_u32(out, file_length);
    push_u32(out, json_length);
    push_u32(out, JSON_CHUNK_TYPE);
    assert(final(out)@ =~= old(out)@ + (le_bytes(GLB_MAGIC_NUMBER) + le_bytes(version) + le_bytes(
        file_length,
    ) + le_bytes(json_length) + le_bytes(JSON_CHUNK_TYPE)));
}

/// Appends `bytes` and `padding` copies of `pad`.
fn write_padded(out: &mut Vec<u8>, bytes: &[u8], padding: usize, pad: u8)
    ensures
        final(out)@ == old(out)@ + (bytes@ + repeated(pad, padding as int)),
{
    push_bytes(out, bytes);
    push_repeated(out, pad, padding);
    assert(final(out)@ =~= old(out)@ + (bytes@ + repeated(pad, padding as int)));
}

/// `String::from_utf8`: the text that `bytes` encode in UTF-8, where they
/// are valid UTF-8.
#[verifier::external_body]
fn string_from_utf8(bytes: Vec<u8>) -> (r: Option<String>)
    ensures
        r is Some <==> valid_utf8(bytes@),
        r matches Some(s) ==> s@ == decode_utf8(bytes@),
{
    match String::from_utf8(bytes) {
        Ok(s) => Some(s),
        Err(_) => None,
    }
}

/// The little-endian `u32` at `pos`, where four bytes are left there.
fn read_u32(data: &[u8], pos: usize) -> (r: Option<u32>)
    ensures
        r is Some <==> pos + 4 <= data@.len(),
        r matches Some(x) ==> x == le_u32(data@, pos as int),
{
    if pos > data.len() || data.len() - pos < 4 {
        return None;
    }
    let x: u32 = data[pos] as u32 + data[pos + 1] as u32 * 256 + data[pos + 2] as u32 * 65536
        + data[pos + 3] as u32 * 16777216;
    Some(x)
}

/// A copy of `len` bytes at `pos`.
fn copy_bytes(data: &[u8], pos: usize, len: usize) -> (r: Vec<u8>)
    requires
        pos + len <= data@.len(),
    ensures
        r@ == data@.subrange(pos as int, pos + len),
{
    let mut r: Vec<u8> = Vec::new();
    let mut i: usize = 0;
    let n = data.len();
    while i < len
        invariant
            i <= len,
            n == data@.len(),
            pos + len <= data@.len(),
            r@ == data@.subrange(pos as int, pos + i),
        decreases len - i,
    {
        r.push(data[pos + i]);
        i += 1;
        assert(r@ =~= data@.subrange(pos as int, pos + i));
    }
    r
}

impl GLB {
    /// Reads a GLB from its bytes.
    pub fn from_bytes(data: &[u8]) -> (r: Result<GLB, GLBError>)
        ensures
            match glb_contents(data@) {
                Ok((text, version, binary)) => r matches Ok(g) && g.gltf@ == text && g.glb_version
                    == version && match (g.binary_data, binary) {
                    (Some(v), Some(s)) => v@ == s,
                    (None, None) => true,
                    _ => false,
                },
                Err(e) => r == Err::<GLB, GLBError>(e),
            },
    {
        Self::from_reader(data)
    }

    /// The binary data, as bytes.
    pub open spec fn data_view(&self) -> Option<Seq<u8>> {
        match self.binary_data {
            Some(d) => Some(d@),
            None => None,
        }
    }

    /// Whether the file that this GLB gives fits the `u32` lengths of the
    /// format.
    pub open spec fn fits(&self) -> bool {
        glb_file_len(self.gltf@, self.data_view()) <= u32::MAX
    }

    /// The bytes of this GLB.
    pub open spec fn spec_bytes(&self) -> Seq<u8> {
        glb_bytes(self.gltf@, self.glb_version, self.data_view())
    }

    /// Writes this GLB.
    #[verifier::rlimit(40)]
    pub fn to_writer(&self, writer: &mut Vec<u8>)
        requires
            self.fits(),
        ensures
            final(writer)@ == old(writer)@ + self.spec_bytes(),
    {
        let ghost text = self.gltf@;
        let ghost data = self.data_view();
        let json = self.gltf.as_str().as_bytes();
        assert(json@ == encode_utf8(text));
        let json_length = to_power_of_4(json.len());
        let (data_padding, data_length) = match &self.binary_data {
            Some(d) => {
                let padded = to_power_of_4(d.len());
                (padded - d.len(), padded)
            },
            None => (0, 0),
        };
        let file_length: u32 = (20 + json_length + match &self.binary_data {
            Some(_) => 8 + data_length,
            None => 0,
        }) as u32;
        assert(file_length == glb_file_len(text, data) as u32);
        write_header(writer, self.glb_version, file_length, json_length as u32);
        write_padded(writer, json, json_length - json.len(), 0x20);
        match &self.binary_data {
            Some(d) => {
                push_u32(writer, data_length as u32);
                push_u32(writer, BIN_CHUNK_TYPE);
                write_padded(writer, d.as_slice(), data_padding, 0);
                assert(final(writer)@ =~= old(writer)@ + glb_header(text, self.glb_version, data)
                    + json_chunk(text) + binary_chunk(data));
            },
            None => {
                assert(final(writer)@ =~= old(writer)@ + glb_header(text, self.glb_version, data)
                    + json_chunk(text) + binary_chunk(data));
            },
        }
    }

    /// The bytes of this GLB.
    pub fn to_bytes(&self) -> (r: Vec<u8>)
        requires
            self.fits(),
        ensures
            r@ == self.spec_bytes(),
    {
        let mut writer = Vec::new();
        self.to_writer(&mut writer);
        assert(writer@ =~= self.spec_bytes());
        writer
    }

    /// Reads a GLB from the bytes that a reader gave.
    pub fn from_reader(reader: &[u8]) -> (r: Result<GLB, GLBError>)
        ensures
            match glb_contents(reader@) {
                Ok((text, version, binary)) => r matches Ok(g) && g.gltf@ == text && g.glb_version
                    == version && match (g.binary_data, binary) {
                    (Some(v), Some(s)) => v@ == s,
                    (None, None) => true,
                    _ => false,
                },
                Err(e) => r == Err::<GLB, GLBError>(e),
            },
    {
        reveal(glb_contents);
        let magic = match read_u32(reader, 0) {
            Some(x) => x,
            None => return Err(GLBError::Io),
        };
        if magic != GLB_MAGIC_NUMBER {
            return Err(GLBError::IncorrectMagicNumber);
        }
        let glb_version = match read_u32(reader, 4) {
            Some(x) => x,
            None => return Err(GLBError::Io),
        };
        let _file_length = match read_u32(reader, 8) {
            Some(x) => x,
            None => return Err(GLBError::Io),
        };
        let json_chunk_length = match read_u32(reader, 12) {
            Some(x) => x,
            None => return Err(GLBError::Io),
        };
        let json_chunk_type = match read_u32(reader, 16) {
            Some(x) => x,
            None => return Err(GLBError::Io),
        };
        if json_chunk_type != JSON_CHUNK_TYPE {
            return Err(GLBError::IncorrectFormatting);
        }
        let len = json_chunk_length as usize;
        if reader.len() - 20 < len {
            return Err(GLBError::Io);
        }
        let json_string_bytes = copy_bytes(reader, 20, len);
        let json_string = match string_from_utf8(json_string_bytes) {
            Some(s) => s,
            None => return Err(GLBError::IncorrectFormatting),
        };
        match Thing::from_json(json_string.as_str()) {
            Some(Thing::Object(_)) => {},
            _ => return Err(GLBError::InvalidJSON),
        }
        let q = 20 + len;
        let mut binary_data = None;
        match read_u32(reader, q) {
            Some(binary_chunk_length) => {
                let binary_chunk_type = match read_u32(reader, q + 4) {
                    Some(x) => x,
                    None => return Err(GLBError::Io),
                };
                if binary_chunk_type == BIN_CHUNK_TYPE {
                    let blen = binary_chunk_length as usize;
                    if reader.len() - (q + 8) < blen {
                        return Err(GLBError::Io);
                    }
                    binary_data = Some(copy_bytes(reader, q + 8, blen));
                }
            },
            None => {},
        }
        Ok(GLB { gltf: json_string, glb_version, binary_data })
    }
}


proof fn lemma_le_bytes(x: u32)
    ensures
        le_u32(le_bytes(x), 0) == x,
{
    let b = le_bytes(x);
    assert(b[0] == x % 256);
    assert(b[1] == (x / 256) % 256);
    assert(b[2] == (x / 65536) % 256);
    assert(b[3] == x / 16777216);
    assert((x % 256) + ((x / 256) % 256) * 256 + ((x / 65536) % 256) * 65536 + (x / 16777216) * 16777216 == x)
        by (nonlinear_arith);
}

/// Four bytes read back as the `u32` they were written from.
proof fn lemma_le_at(b: Seq<u8>, i: int, x: u32)
    requires
        0 <= i,
        i + 4 <= b.len(),
        b.subrange(i, i + 4) == le_bytes(x),
    ensures
        le_u32(b, i) == x,
{
    lemma_le_bytes(x);
    assert(b[i] == b.subrange(i, i + 4)[0]);
    assert(b[i + 1] == b.subrange(i, i + 4)[1]);
    assert(b[i + 2] == b.subrange(i, i + 4)[2]);
    assert(b[i + 3] == b.subrange(i, i + 4)[3]);
}

pub proof fn lemma_encode_concat(a: Seq<char>, b: Seq<char>)
    ensures
        encode_utf8(a + b) == encode_utf8(a) + encode_utf8(b),
    decreases a.len(),
{
    if a.len() == 0 {
        assert(a + b =~= b);
        assert(encode_utf8(a) + encode_utf8(b) =~= encode_utf8(b));
    } else {
        lemma_encode_concat(a.drop_first(), b);
        assert((a + b).drop_first() =~= a.drop_first() + b);
        assert((a + b)[0] == a[0]);
        assert(encode_utf8(a + b) =~= encode_utf8(a) + encode_utf8(b));
    }
}

/// `n` spaces.
pub open spec fn space_chars(n: int) -> Seq<char> {
    Seq::new(if n < 0 { 0 } else { n as nat }, |i: int| ' ')
}

proof fn lemma_encode_spaces(n: int)
    requires
        n >= 0,
    ensures
        encode_utf8(space_chars(n)) == repeated(0x20, n),
{
    let s = space_chars(n);
    assert(vstd::utf8::is_ascii_chars(s));
    vstd::utf8::is_ascii_chars_encode_utf8(s);
    assert forall|i: int| 0 <= i < n implies encode_utf8(s)[i] == repeated(0x20, n)[i] by {
        assert(s[i] == ' ');
    }
    assert(encode_utf8(s) =~= repeated(0x20, n));
}

/// The JSON text followed by the spaces that pad its UTF-8 to a multiple
/// of four bytes.
pub open spec fn padded_json(text: Seq<char>) -> Seq<char> {
    text + space_chars(padded_len(encode_utf8(text).len() as int) - encode_utf8(text).len())
}

/// The JSON chunk is the UTF-8 of the text with the padding spaces.
proof fn lemma_json_chunk(text: Seq<char>)
    ensures
        valid_utf8(json_chunk(text)),
        decode_utf8(json_chunk(text)) == padded_json(text),
{
    let json = encode_utf8(text);
    let pad = padded_len(json.len() as int) - json.len();
    let padded_text = text + space_chars(pad);
    lemma_encode_spaces(pad);
    lemma_encode_concat(text, space_chars(pad));
    assert(json_chunk(text) =~= encode_utf8(padded_text));
    vstd::utf8::encode_utf8_valid_utf8(padded_text);
    vstd::utf8::encode_utf8_decode_utf8(padded_text);
}

/// What `glb_contents` gives for bytes of which the header, the JSON chunk
/// and the binary chunk's header are known.
proof fn lemma_contents_from_parts(
    b: Seq<u8>,
    version: u32,
    jl: int,
    padded_text: Seq<char>,
    binary: Option<Seq<u8>>,
)
    requires
        b.len() >= 20 + jl,
        0 <= jl,
        le_u32(b, 0) == GLB_MAGIC_NUMBER,
        le_u32(b, 4) == version,
        le_u32(b, 12) == jl,
        le_u32(b, 16) == JSON_CHUNK_TYPE,
        valid_utf8(b.subrange(20, 20 + jl)),
        decode_utf8(b.subrange(20, 20 + jl)) == padded_text,
        reads_object(padded_text),
        binary is None ==> b.len() == 20 + jl,
        binary matches Some(d) ==> {
            &&& b.len() == 28 + jl + d.len()
            &&& le_u32(b, 20 + jl) == d.len()
            &&& le_u32(b, 24 + jl) == BIN_CHUNK_TYPE
            &&& b.subrange(28 + jl, 28 + jl + d.len()) == d
        },
    ensures
        glb_contents(b) == Ok::<(Seq<char>, u32, Option<Seq<u8>>), GLBError>((padded_text, version, binary)),
{
    reveal(glb_contents);
    assert(le_u32(b, 4) as u32 == version);
}

proof fn lemma_le_prefix(a: Seq<u8>, r: Seq<u8>, i: int)
    requires
        0 <= i,
        i + 4 <= a.len(),
    ensures
        le_u32(a + r, i) == le_u32(a, i),
{
    assert((a + r)[i] == a[i]);
    assert((a + r)[i + 1] == a[i + 1]);
    assert((a + r)[i + 2] == a[i + 2]);
    assert((a + r)[i + 3] == a[i + 3]);
}

proof fn lemma_le_suffix(a: Seq<u8>, r: Seq<u8>, i: int)
    requires
        0 <= i,
        i + 4 <= r.len(),
    ensures
        le_u32(a + r, a.len() + i) == le_u32(r, i),
{
    assert((a + r)[a.len() + i] == r[i]);
    assert((a + r)[a.len() + i + 1] == r[i + 1]);
    assert((a + r)[a.len() + i + 2] == r[i + 2]);
    assert((a + r)[a.len() + i + 3] == r[i + 3]);
}

proof fn lemma_header_fields(text: Seq<char>, version: u32, data: Option<Seq<u8>>)
    ensures
        ({
            let h = glb_header(text, version, data);
            &&& h.len() == 20
            &&& le_u32(h, 0) == GLB_MAGIC_NUMBER
            &&& le_u32(h, 4) == version
            &&& le_u32(h, 12) == padded_len(encode_utf8(text).len() as int) as u32
            &&& le_u32(h, 16) == JSON_CHUNK_TYPE
        }),
{
    let h = glb_header(text, version, data);
    let jl = padded_len(encode_utf8(text).len() as int) as u32;
    assert(h.subrange(0, 4) =~= le_bytes(GLB_MAGIC_NUMBER));
    lemma_le_at(h, 0, GLB_MAGIC_NUMBER);
    assert(h.subrange(4, 8) =~= le_bytes(version));
    lemma_le_at(h, 4, version);
    assert(h.subrange(12, 16) =~= le_bytes(jl));
    lemma_le_at(h, 12, jl);
    assert(h.subrange(16, 20) =~= le_bytes(JSON_CHUNK_TYPE));
    lemma_le_at(h, 16, JSON_CHUNK_TYPE);
}

proof fn lemma_binary_fields(d: Seq<u8>)
    requires
        padded_len(d.len() as int) <= u32::MAX,
    ensures
        ({
            let c = binary_chunk(Some(d));
            let pl = padded_len(d.len() as int);
            &&& c.len() == 8 + pl
            &&& le_u32(c, 0) == pl
            &&& le_u32(c, 4) == BIN_CHUNK_TYPE
            &&& c.subrange(8, 8 + pl) == d + repeated(0, pl - d.len())
        }),
{
    let c = binary_chunk(Some(d));
    let pl = padded_len(d.len() as int);
    assert(c.subrange(0, 4) =~= le_bytes(pl as u32));
    lemma_le_at(c, 0, pl as u32);
    assert(c.subrange(4, 8) =~= le_bytes(BIN_CHUNK_TYPE));
    lemma_le_at(c, 4, BIN_CHUNK_TYPE);
    assert(c.subrange(8, 8 + pl) =~= d + repeated(0, pl - d.len()));
}

/// A GLB file that `to_bytes` wrote reads back as the same version, the
/// JSON text with the spaces that padded it, and the binary data with the
/// zeros that padded it, where that padded text reads as a JSON object.
pub proof fn lemma_glb_round_trip(text: Seq<char>, version: u32, data: Option<Seq<u8>>)
    requires
        reads_object(padded_json(text)),
        glb_file_len(text, data) <= u32::MAX,
    ensures
        glb_contents(glb_bytes(text, version, data)) == Ok::<(Seq<char>, u32, Option<Seq<u8>>), GLBError>((
            padded_json(text),
            version,
            match data {
                Some(d) => Some(d + repeated(0, padded_len(d.len() as int) - d.len())),
                None => None,
            },
        )),
{
    let json = encode_utf8(text);
    let jl = padded_len(json.len() as int);
    let h = glb_header(text, version, data);
    let j = json_chunk(text);
    let c = binary_chunk(data);
    let hj = h + j;
    let b = hj + c;
    assert(glb_bytes(text, version, data) == b);
    lemma_header_fields(text, version, data);
    assert(j.len() == jl);
    lemma_le_prefix(h, j, 0);
    lemma_le_prefix(h, j, 4);
    lemma_le_prefix(h, j, 12);
    lemma_le_prefix(h, j, 16);
    lemma_le_prefix(hj, c, 0);
    lemma_le_prefix(hj, c, 4);
    lemma_le_prefix(hj, c, 12);
    lemma_le_prefix(hj, c, 16);
    assert(b.subrange(20, 20 + jl) =~= j);
    lemma_json_chunk(text);
    let padded_text = text + space_chars(jl - json.len());
    match data {
        Some(d) => {
            let pl = padded_len(d.len() as int);
            lemma_binary_fields(d);
            lemma_le_suffix(hj, c, 0);
            lemma_le_suffix(hj, c, 4);
            assert(b.subrange(28 + jl, 28 + jl + pl) =~= c.subrange(8, 8 + pl));
            lemma_contents_from_parts(b, version, jl, padded_text, Some(d + repeated(0, pl - d.len())));
        },
        None => {
            assert(c.len() == 0);
            lemma_contents_from_parts(b, version, jl, padded_text, None);
        },
    }
}

proof fn lemma_padded_len(n: int)
    requires
        n >= 0,
    ensures
        padded_len(n) % 4 == 0,
        n <= padded_len(n) < n + 4,
{
}

/// The lengths of the three parts of a GLB file.
proof fn lemma_part_lengths(text: Seq<char>, version: u32, data: Option<Seq<u8>>)
    ensures
        glb_header(text, version, data).len() == 20,
        json_chunk(text).len() == padded_len(encode_utf8(text).len() as int),
        binary_chunk(data).len() == match data {
            Some(d) => 8 + padded_len(d.len() as int),
            None => 0int,
        },
{
    lemma_padded_len(encode_utf8(text).len() as int);
    match data {
        Some(d) => lemma_padded_len(d.len() as int),
        None => {},
    }
}

/// The file's length field, at byte 8 of the header.
proof fn lemma_length_field(text: Seq<char>, version: u32, data: Option<Seq<u8>>)
    requires
        glb_file_len(text, data) <= u32::MAX,
    ensures
        le_u32(glb_header(text, version, data), 8) == glb_file_len(text, data),
{
    let h = glb_header(text, version, data);
    let n = glb_file_len(text, data) as u32;
    assert(h.subrange(8, 12) =~= le_bytes(n));
    lemma_le_at(h, 8, n);
}

/// The header starts with the bytes of `glTF`.
proof fn lemma_header_magic(text: Seq<char>, version: u32, data: Option<Seq<u8>>)
    ensures
        glb_header(text, version, data).subrange(0, 4) == seq![0x67u8, 0x6Cu8, 0x54u8, 0x46u8],
{
    let h = glb_header(text, version, data);
    assert(le_bytes(GLB_MAGIC_NUMBER) =~= seq![0x67u8, 0x6Cu8, 0x54u8, 0x46u8]);
    assert(h.subrange(0, 4) =~= le_bytes(GLB_MAGIC_NUMBER));
}

/// The layout facts of a file made of a header, a JSON chunk and a binary
/// chunk, from the facts of its parts.
proof fn lemma_layout_of_parts(h: Seq<u8>, j: Seq<u8>, c: Seq<u8>)
    requires
        h.len() == 20,
        j.len() % 4 == 0,
        c.len() % 4 == 0,
        le_u32(h, 8) == 20 + j.len() + c.len(),
    ensures
        (h + j + c).len() % 4 == 0,
        (h + j + c).subrange(0, 4) == h.subrange(0, 4),
        le_u32(h + j + c, 8) == (h + j + c).len(),
{
    lemma_le_prefix(h, j, 8);
    lemma_le_prefix(h + j, c, 8);
    assert((h + j + c).subrange(0, 4) =~= h.subrange(0, 4));
}

/// The file is made of its three parts, and is as long as `glb_file_len`.
proof fn lemma_glb_len(text: Seq<char>, version: u32, data: Option<Seq<u8>>)
    ensures
        glb_bytes(text, version, data) == glb_header(text, version, data) + json_chunk(text)
            + binary_chunk(data),
        glb_bytes(text, version, data).len() == glb_file_len(text, data),
        glb_file_len(text, data) == 20 + json_chunk(text).len() + binary_chunk(data).len(),
        json_chunk(text).len() % 4 == 0,
        binary_chunk(data).len() % 4 == 0,
{
    lemma_part_lengths(text, version, data);
    lemma_padded_len(encode_utf8(text).len() as int);
    match data {
        Some(d) => lemma_padded_len(d.len() as int),
        None => {},
    }
}

/// A GLB file that `to_bytes` writes is as long as its length field says,
/// a multiple of four bytes long, and starts with the bytes of `glTF`.
pub proof fn lemma_glb_layout(text: Seq<char>, version: u32, data: Option<Seq<u8>>)
    requires
        glb_file_len(text, data) <= u32::MAX,
    ensures
        glb_bytes(text, version, data).len() == glb_file_len(text, data),
        glb_bytes(text, version, data).len() % 4 == 0,
        glb_bytes(text, version, data).subrange(0, 4) == seq![0x67u8, 0x6Cu8, 0x54u8, 0x46u8],
        le_u32(glb_bytes(text, version, data), 8) == glb_bytes(text, version, data).len(),
{
    lemma_glb_len(text, version, data);
    lemma_length_field(text, version, data);
    lemma_header_magic(text, version, data);
    lemma_part_lengths(text, version, data);
    lemma_layout_of_parts(glb_header(text, version, data), json_chunk(text), binary_chunk(data));
}

} // verus!
