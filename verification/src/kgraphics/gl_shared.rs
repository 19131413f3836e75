use vstd::prelude::*;

use crate::kgraphics::types::{
    BlendFactor, DepthTest, FacesToRender, FilterMode, PixelFormat, WrappingMode,
};

verus! {

pub const HALF_FLOAT: u32 = 0x140B;
pub const FLOAT: u32 = 0x1406;
pub const UNSIGNED_SHORT: u32 = 0x1403;
pub const UNSIGNED_INT: u32 = 0x1405;
pub const UNSIGNED_BYTE: u32 = 0x1401;

pub const FLOAT_VEC2: u32 = 0x8B50;
pub const FLOAT_VEC3: u32 = 0x8B51;
pub const FLOAT_VEC4: u32 = 0x8B52;
pub const FLOAT_MAT4: u32 = 0x8B5C;

pub const DEPTH_COMPONENT16: u32 = 0x81A5;
pub const DEPTH_COMPONENT24: u32 = 0x81A6;
pub const DEPTH_COMPONENT32F: u32 = 0x8CAC;

pub const NEAREST: u32 = 0x2600;
pub const LINEAR: u32 = 0x2601;
pub const NEAREST_MIPMAP_NEAREST: u32 = 0x2700;
pub const LINEAR_MIPMAP_NEAREST: u32 = 0x2701;
pub const NEAREST_MIPMAP_LINEAR: u32 = 0x2702;
pub const LINEAR_MIPMAP_LINEAR: u32 = 0x2703;

pub const CLAMP_TO_EDGE: u32 = 0x812F;
pub const MIRRORED_REPEAT: u32 = 0x8370;
pub const REPEAT: u32 = 0x2901;

pub const DEPTH_COMPONENT: u32 = 0x1902;
pub const RED: u32 = 0x1903;
pub const RG: u32 = 0x8227;
pub const RGB: u32 = 0x1907;
pub const RGBA: u32 = 0x1908;

pub const R8: u32 = 0x8229;
pub const RG8: u32 = 0x822B;
pub const RGB8: u32 = 0x8051;
pub const RGBA8: u32 = 0x8058;
pub const SRGB8_ALPHA8: u32 = 0x8C43;

pub const RGBA16F: u32 = 0x881A;
pub const RGBA32F: u32 = 0x8814;

pub const ALWAYS: u32 = 0x0207;
pub const LESS: u32 = 0x0201;
pub const GREATER: u32 = 0x0204;
pub const LEQUAL: u32 = 0x0203;
pub const GEQUAL: u32 = 0x0206;

pub const FRONT: u32 = 0x0404;
pub const BACK: u32 = 0x0405;
pub const FRONT_AND_BACK: u32 = 0x0408;

pub const SRC_ALPHA: u32 = 0x0302;
pub const ONE_MINUS_SRC_ALPHA: u32 = 0x0303;

/// The GL format, internal format and component type of a pixel format.
pub open spec fn gl_formats(pixel_format: PixelFormat, srgb: bool) -> (u32, u32, u32) {
    if srgb {
        (RGBA, SRGB8_ALPHA8, UNSIGNED_BYTE)
    } else {
        match pixel_format {
            PixelFormat::R8Unorm => (RED, R8, UNSIGNED_BYTE),
            PixelFormat::RG8Unorm => (RG, RG8, UNSIGNED_BYTE),
            PixelFormat::RGB8Unorm => (RGB, RGB8, UNSIGNED_BYTE),
            PixelFormat::RGBA8Unorm => (RGBA, RGBA8, UNSIGNED_BYTE),
            PixelFormat::Depth16 => (DEPTH_COMPONENT, DEPTH_COMPONENT16, UNSIGNED_SHORT),
            PixelFormat::Depth24 => (DEPTH_COMPONENT, DEPTH_COMPONENT24, UNSIGNED_INT),
            PixelFormat::Depth32F => (DEPTH_COMPONENT, DEPTH_COMPONENT32F, FLOAT),
            PixelFormat::RGBA16F => (RGBA, RGBA16F, HALF_FLOAT),
            PixelFormat::RGBA32F => (RGBA, RGBA32F, FLOAT),
        }
    }
}

/// The GL format, internal format and component type of a pixel format;
/// sRGB data must be `RGBA8Unorm`.
pub fn pixel_format_to_gl_format_and_inner_format_and_type(pixel_format: PixelFormat, srgb: bool) -> (r: (
    u32,
    u32,
    u32,
))
    requires
        srgb ==> pixel_format == PixelFormat::RGBA8Unorm,
    ensures
        r == gl_formats(pixel_format, srgb),
{
    if srgb {
        return (RGBA, SRGB8_ALPHA8, UNSIGNED_BYTE);
    }
    let format = match pixel_format {
        PixelFormat::R8Unorm => RED,
        PixelFormat::RG8Unorm => RG,
        PixelFormat::RGB8Unorm => RGB,
        PixelFormat::RGBA8Unorm | PixelFormat::RGBA16F | PixelFormat::RGBA32F => RGBA,
        PixelFormat::Depth16 | PixelFormat::Depth24 | PixelFormat::Depth32F => DEPTH_COMPONENT,
    };
    let inner_format = match pixel_format {
        PixelFormat::Depth16 => DEPTH_COMPONENT16,
        PixelFormat::Depth24 => DEPTH_COMPONENT24,
        PixelFormat::Depth32F => DEPTH_COMPONENT32F,
        PixelFormat::R8Unorm => R8,
        PixelFormat::RG8Unorm => RG8,
        PixelFormat::RGB8Unorm => RGB8,
        PixelFormat::RGBA8Unorm => RGBA8,
        PixelFormat::RGBA16F => RGBA16F,
        PixelFormat::RGBA32F => RGBA32F,
    };
    let type_ = match pixel_format {
        PixelFormat::Depth16 => UNSIGNED_SHORT,
        PixelFormat::Depth24 => UNSIGNED_INT,
        PixelFormat::RGBA16F => HALF_FLOAT,
        PixelFormat::Depth32F | PixelFormat::RGBA32F => FLOAT,
        _ => UNSIGNED_BYTE,
    };
    (format, inner_format, type_)
}

/// The GL minification filter for a filter mode, combined with the mipmap
/// filter where there are mipmaps.
pub open spec fn min_filter_gl(min: FilterMode, mip: FilterMode, has_mipmaps: bool) -> u32 {
    if has_mipmaps {
        match (min, mip) {
            (FilterMode::Nearest, FilterMode::Nearest) => NEAREST_MIPMAP_NEAREST,
            (FilterMode::Nearest, FilterMode::Linear) => NEAREST_MIPMAP_LINEAR,
            (FilterMode::Linear, FilterMode::Nearest) => LINEAR_MIPMAP_NEAREST,
            (FilterMode::Linear, FilterMode::Linear) => LINEAR_MIPMAP_LINEAR,
        }
    } else {
        mag_filter_gl(min)
    }
}

/// The GL magnification filter for a filter mode.
pub open spec fn mag_filter_gl(f: FilterMode) -> u32 {
    match f {
        FilterMode::Nearest => NEAREST,
        FilterMode::Linear => LINEAR,
    }
}

/// The GL depth function for a depth test.
pub open spec fn depth_func_gl(t: DepthTest) -> u32 {
    match t {
        DepthTest::AlwaysPass => ALWAYS,
        DepthTest::Less => LESS,
        DepthTest::Greater => GREATER,
        DepthTest::LessOrEqual => LEQUAL,
        DepthTest::GreaterOrEqual => GEQUAL,
    }
}

/// The faces GL culls to render the given faces; `None` where culling is
/// off.
pub open spec fn cull_face_gl(faces: FacesToRender) -> Option<u32> {
    match faces {
        FacesToRender::Front => Some(BACK),
        FacesToRender::Back => Some(FRONT),
        FacesToRender::FrontAndBack => None,
        FacesToRender::NoFaces => Some(FRONT_AND_BACK),
    }
}

/// The GL blend factor for a blend factor.
pub open spec fn blend_factor_gl(b: BlendFactor) -> u32 {
    match b {
        BlendFactor::OneMinusSourceAlpha => ONE_MINUS_SRC_ALPHA,
        BlendFactor::SourceAlpha => SRC_ALPHA,
    }
}

/// The GL wrapping mode for a wrapping mode.
pub open spec fn wrapping_gl(w: WrappingMode) -> u32 {
    match w {
        WrappingMode::ClampToEdge => CLAMP_TO_EDGE,
        WrappingMode::MirrorRepeat => MIRRORED_REPEAT,
        WrappingMode::Repeat => REPEAT,
    }
}

/// The GL minification filter for a filter mode, combined with the mipmap
/// filter where there are mipmaps.
pub fn minification_filter_to_gl_enum(
    minification_filter_mode: FilterMode,
    mipmap_filter_mode: FilterMode,
    has_mipmaps: bool,
) -> (r: u32)
    ensures
        r == min_filter_gl(minification_filter_mode, mipmap_filter_mode, has_mipmaps),
{
    if has_mipmaps {
        match (minification_filter_mode, mipmap_filter_mode) {
            (FilterMode::Nearest, FilterMode::Nearest) => NEAREST_MIPMAP_NEAREST,
            (FilterMode::Nearest, FilterMode::Linear) => NEAREST_MIPMAP_LINEAR,
            (FilterMode::Linear, FilterMode::Nearest) => LINEAR_MIPMAP_NEAREST,
            (FilterMode::Linear, FilterMode::Linear) => LINEAR_MIPMAP_LINEAR,
        }
    } else {
        match minification_filter_mode {
            FilterMode::Nearest => NEAREST,
            FilterMode::Linear => LINEAR,
        }
    }
}

/// The GL magnification filter for a filter mode.
pub fn magnification_filter_to_gl_enum(filter_mode: FilterMode) -> (r: u32)
    ensures
        r == mag_filter_gl(filter_mode),
{
    match filter_mode {
        FilterMode::Nearest => NEAREST,
        FilterMode::Linear => LINEAR,
    }
}

/// The GL depth function for a depth test.
pub fn depth_test_to_gl(depth_test: DepthTest) -> (r: u32)
    ensures
        r == depth_func_gl(depth_test),
{
    match depth_test {
        DepthTest::AlwaysPass => ALWAYS,
        DepthTest::Less => LESS,
        DepthTest::Greater => GREATER,
        DepthTest::LessOrEqual => LEQUAL,
        DepthTest::GreaterOrEqual => GEQUAL,
    }
}

/// The faces GL culls to render the given faces; `None` where culling is
/// off because both sides are rendered.
pub fn faces_to_render_to_cull_face(faces: FacesToRender) -> (r: Option<u32>)
    ensures
        r == cull_face_gl(faces),
{
    match faces {
        FacesToRender::Front => Some(BACK),
        FacesToRender::Back => Some(FRONT),
        FacesToRender::FrontAndBack => None,
        FacesToRender::NoFaces => Some(FRONT_AND_BACK),
    }
}

/// The GL blend factor for a blend factor.
pub fn blending_to_gl(blending: BlendFactor) -> (r: u32)
    ensures
        r == blend_factor_gl(blending),
{
    match blending {
        BlendFactor::OneMinusSourceAlpha => ONE_MINUS_SRC_ALPHA,
        BlendFactor::SourceAlpha => SRC_ALPHA,
    }
}

/// The GL wrapping mode for a wrapping mode.
pub fn wrapping_to_gl_enum(wrapping_mode: WrappingMode) -> (r: u32)
    ensures
        r == wrapping_gl(wrapping_mode),
{
    match wrapping_mode {
        WrappingMode::ClampToEdge => CLAMP_TO_EDGE,
        WrappingMode::MirrorRepeat => MIRRORED_REPEAT,
        WrappingMode::Repeat => REPEAT,
    }
}

/// How many bytes a vertex attribute of a GL type takes; `None` for the
/// types that a pipeline does not take as vertex attributes.
pub fn vertex_attribute_byte_size(attribute_type: u32) -> (r: Option<u32>)
    ensures
        r == (if attribute_type == FLOAT {
            Some(4u32)
        } else if attribute_type == FLOAT_VEC2 {
            Some(8u32)
        } else if attribute_type == FLOAT_VEC3 {
            Some(12u32)
        } else if attribute_type == FLOAT_VEC4 {
            Some(16u32)
        } else if attribute_type == FLOAT_MAT4 {
            Some(64u32)
        } else {
            None
        }),
{
    if attribute_type == FLOAT {
        Some(4)
    } else if attribute_type == FLOAT_VEC2 {
        Some(8)
    } else if attribute_type == FLOAT_VEC3 {
        Some(12)
    } else if attribute_type == FLOAT_VEC4 {
        Some(16)
    } else if attribute_type == FLOAT_MAT4 {
        Some(64)
    } else {
        None
    }
}

/// Linear data for sRGB data, byte by byte through `to_linear`, the
/// linear value of each sRGB byte value; with `alpha`, every fourth byte
/// is alpha and stays as it is.
pub open spec fn linear_data(data: Seq<u8>, alpha: bool, to_linear: Seq<u8>) -> Seq<u8> {
    Seq::new(
        data.len(),
        |i: int|
            if alpha && i % 4 == 3 {
                data[i]
            } else {
                to_linear[data[i] as int]
            },
    )
}

/// Appends the linear form of sRGB data to `new_data`. `to_linear` holds
/// the linear value of each sRGB byte value. With `alpha` the data is made
/// of four-byte pixels whose last byte is alpha, which is copied.
pub fn convert_srgb_data_to_linear_srgb(
    new_data: &mut Vec<u8>,
    data: &[u8],
    alpha: bool,
    to_linear: &[u8; 256],
)
    requires
        alpha ==> data@.len() % 4 == 0,
    ensures
        final(new_data)@ == old(new_data)@ + linear_data(data@, alpha, to_linear@),
{
    let mut i: usize = 0;
    while i < data.len()
        invariant
            i <= data@.len(),
            to_linear@.len() == 256,
            new_data@ == old(new_data)@ + linear_data(data@, alpha, to_linear@).take(i as int),
        decreases data@.len() - i,
    {
        let b = data[i];
        let v = if alpha && i % 4 == 3 {
            b
        } else {
            to_linear[b as usize]
        };
        new_data.push(v);
        i += 1;
        assert(new_data@ =~= old(new_data)@ + linear_data(data@, alpha, to_linear@).take(i as int));
    }
    assert(linear_data(data@, alpha, to_linear@).take(data@.len() as int) =~= linear_data(
        data@,
        alpha,
        to_linear@,
    ));
}

/// How many bytes one pixel of a format takes.
pub open spec fn bytes_per_pixel(pixel_format: PixelFormat) -> int {
    match pixel_format {
        PixelFormat::R8Unorm => 1,
        PixelFormat::RG8Unorm => 2,
        PixelFormat::RGB8Unorm => 3,
        PixelFormat::RGBA8Unorm => 4,
        PixelFormat::Depth16 | PixelFormat::Depth24 | PixelFormat::Depth32F => 4,
        PixelFormat::RGBA16F => 8,
        PixelFormat::RGBA32F => 16,
    }
}

fn pixel_size(pixel_format: PixelFormat) -> (r: usize)
    ensures
        r == bytes_per_pixel(pixel_format),
{
    match pixel_format {
        PixelFormat::R8Unorm => 1,
        PixelFormat::RG8Unorm => 2,
        PixelFormat::RGB8Unorm => 3,
        PixelFormat::RGBA8Unorm => 4,
        PixelFormat::Depth16 | PixelFormat::Depth24 | PixelFormat::Depth32F => 4,
        PixelFormat::RGBA16F => 8,
        PixelFormat::RGBA32F => 16,
    }
}

/// The index of byte `c` of row `r`, rows being `row_len` bytes long.
pub open spec fn at(r: int, c: int, row_len: int) -> int {
    r * row_len + c
}

proof fn lemma_at_bounds(r: int, c: int, row_len: int, height: int)
    requires
        0 <= r < height,
        0 <= c < row_len,
    ensures
        0 <= at(r, c, row_len) < height * row_len,
{
    assert(0 <= r * row_len + c < height * row_len) by (nonlinear_arith)
        requires
            0 <= r < height,
            0 <= c < row_len,
    ;
}

proof fn lemma_at_distinct(r1: int, c1: int, r2: int, c2: int, row_len: int)
    requires
        0 <= c1 < row_len,
        0 <= c2 < row_len,
        0 <= r1,
        0 <= r2,
        r1 != r2 || c1 != c2,
    ensures
        at(r1, c1, row_len) != at(r2, c2, row_len),
{
    if r1 == r2 {
    } else if r1 < r2 {
        assert(r1 * row_len + c1 < r2 * row_len + c2) by (nonlinear_arith)
            requires
                0 <= c1 < row_len,
                0 <= c2,
                r1 < r2,
        ;
    } else {
        assert(r2 * row_len + c2 < r1 * row_len + c1) by (nonlinear_arith)
            requires
                0 <= c2 < row_len,
                0 <= c1,
                r2 < r1,
        ;
    }
}

/// Turns an image upside down: row `r` of the result is row
/// `height - 1 - r` of the image.
pub fn flip_image(pixel_format: PixelFormat, width: usize, height: usize, data: &mut Vec<u8>)
    requires
        old(data)@.len() == bytes_per_pixel(pixel_format) * width * height,
    ensures
        final(data)@.len() == old(data)@.len(),
        forall|r: int, c: int|
            0 <= r < height && 0 <= c < bytes_per_pixel(pixel_format) * width ==> #[trigger] final(data)@[at(
                r,
                c,
                bytes_per_pixel(pixel_format) * width,
            )] == old(data)@[at(height - 1 - r, c, bytes_per_pixel(pixel_format) * width)],
{
    let bpp = pixel_size(pixel_format);
    proof {
        assert(bpp * width * height == bpp * (width * height)) by (nonlinear_arith);
        assert(bpp * width <= bpp * width * height || height == 0) by (nonlinear_arith)
            requires
                bpp >= 1,
        ;
    }
    if height == 0 {
        return;
    }
    let n = data.len();
    proof {
        assert(bpp * width <= bpp * width * height) by (nonlinear_arith)
            requires
                height >= 1,
        ;
    }
    let row_len = bpp * width;
    let ghost rl = row_len as int;
    let ghost h = height as int;
    let ghost image = data@;
    let mut y: usize = 0;
    while y < height / 2
        invariant
            rl == bpp * width,
            rl == row_len,
            n == data@.len(),
            h == height,
            h >= 1,
            image == old(data)@,
            image.len() == rl * h,
            data@.len() == image.len(),
            y <= height / 2,
            forall|r: int, c: int|
                0 <= r < h && 0 <= c < rl ==> #[trigger] data@[at(r, c, rl)] == if r < y || r >= h - y {
                    image[at(h - 1 - r, c, rl)]
                } else {
                    image[at(r, c, rl)]
                },
        decreases height / 2 - y,
    {
        let y2 = height - y - 1;
        let mut k: usize = 0;
        while k < row_len
            invariant
                rl == row_len,
                n == data@.len(),
                h == height,
                y < h / 2,
                y2 == h - y - 1,
                image.len() == rl * h,
                data@.len() == image.len(),
                k <= row_len,
                forall|r: int, c: int|
                    0 <= r < h && 0 <= c < rl ==> #[trigger] data@[at(r, c, rl)] == if r < y || r > y2 || (
                    (r == y || r == y2) && c < k) {
                        image[at(h - 1 - r, c, rl)]
                    } else {
                        image[at(r, c, rl)]
                    },
            decreases row_len - k,
        {
            proof {
                lemma_at_bounds(y as int, k as int, rl, h);
                lemma_at_bounds(y2 as int, k as int, rl, h);
            }
            let a = y * row_len + k;
            let b = y2 * row_len + k;
            assert(a == at(y as int, k as int, rl));
            assert(b == at(y2 as int, k as int, rl));
            let first = data[a];
            let second = data[b];
            data.set(a, second);
            data.set(b, first);
            proof {
                assert forall|r: int, c: int| 0 <= r < h && 0 <= c < rl implies #[trigger] data@[at(r, c, rl)]
                    == if r < y || r > y2 || ((r == y || r == y2) && c < k + 1) {
                    image[at(h - 1 - r, c, rl)]
                } else {
                    image[at(r, c, rl)]
                } by {
                    lemma_at_bounds(r, c, rl, h);
                    if r != y || c != k {
                        lemma_at_distinct(r, c, y as int, k as int, rl);
                    }
                    if r != y2 || c != k {
                        lemma_at_distinct(r, c, y2 as int, k as int, rl);
                    }
                }
            }
            k += 1;
        }
        y += 1;
    }
    proof {
        assert forall|r: int, c: int| 0 <= r < h && 0 <= c < rl implies #[trigger] data@[at(r, c, rl)]
            == image[at(h - 1 - r, c, rl)] by {
            if !(r < y || r >= h - y) {
                assert(r == h - 1 - r);
            }
        }
    }
}

/// GL's sRGB internal format of three channels.
pub const SRGB8: u32 = 0x8C41;

/// The channels of a pixel format.
pub open spec fn pixel_channels(f: PixelFormat) -> int {
    match f {
        PixelFormat::R8Unorm => 1,
        PixelFormat::RG8Unorm => 2,
        PixelFormat::RGB8Unorm => 3,
        PixelFormat::RGBA8Unorm => 4,
        PixelFormat::RGBA16F => 4,
        PixelFormat::RGBA32F => 4,
        PixelFormat::Depth16 => 1,
        PixelFormat::Depth24 => 1,
        PixelFormat::Depth32F => 1,
    }
}

/// The bytes of one channel of a pixel format.
pub open spec fn pixel_channel_bytes(f: PixelFormat) -> int {
    match f {
        PixelFormat::Depth16 => 2,
        PixelFormat::Depth24 => 4,
        PixelFormat::Depth32F => 4,
        PixelFormat::RGBA16F => 2,
        PixelFormat::RGBA32F => 4,
        _ => 1,
    }
}

/// Whether a pixel format holds depth.
pub open spec fn is_depth(f: PixelFormat) -> bool {
    f == PixelFormat::Depth16 || f == PixelFormat::Depth24 || f == PixelFormat::Depth32F
}

/// The channels of a GL pixel data format (0 for another value).
pub open spec fn gl_format_channels(format: u32) -> int {
    if format == RED || format == DEPTH_COMPONENT {
        1
    } else if format == RG {
        2
    } else if format == RGB {
        3
    } else if format == RGBA {
        4
    } else {
        0
    }
}

/// The channels of a GL internal format (0 for another value).
pub open spec fn internal_format_channels(internal: u32) -> int {
    if internal == R8 || internal == DEPTH_COMPONENT16 || internal == DEPTH_COMPONENT24
        || internal == DEPTH_COMPONENT32F {
        1
    } else if internal == RG8 {
        2
    } else if internal == RGB8 || internal == SRGB8 {
        3
    } else if internal == RGBA8 || internal == SRGB8_ALPHA8 || internal == RGBA16F || internal
        == RGBA32F {
        4
    } else {
        0
    }
}

/// Whether a GL internal format stores colour as sRGB.
pub open spec fn is_srgb_internal(internal: u32) -> bool {
    internal == SRGB8 || internal == SRGB8_ALPHA8
}

/// The linear internal format that an sRGB one encodes differently.
pub open spec fn linear_internal(internal: u32) -> u32 {
    if internal == SRGB8_ALPHA8 {
        RGBA8
    } else if internal == SRGB8 {
        RGB8
    } else {
        internal
    }
}

/// The bytes of one channel of a GL component type (0 for another value).
pub open spec fn gl_type_bytes(ty: u32) -> int {
    if ty == UNSIGNED_BYTE {
        1
    } else if ty == UNSIGNED_SHORT || ty == HALF_FLOAT {
        2
    } else if ty == UNSIGNED_INT || ty == FLOAT {
        4
    } else {
        0
    }
}

/// The bytes that a GL internal format stores for one channel (0 for
/// another value).
pub open spec fn internal_channel_bytes(internal: u32) -> int {
    if internal == R8 || internal == RG8 || internal == RGB8 || internal == RGBA8 || internal == SRGB8
        || internal == SRGB8_ALPHA8 {
        1
    } else if internal == DEPTH_COMPONENT16 || internal == RGBA16F {
        2
    } else if internal == DEPTH_COMPONENT24 || internal == DEPTH_COMPONENT32F || internal == RGBA32F {
        4
    } else {
        0
    }
}

/// The formats given for a pixel format agree with it: the data format and
/// the internal format have as many channels as the pixel format, the
/// component type and the internal format as many bytes per channel, depth
/// formats are uploaded as depth, and the internal format is sRGB exactly
/// where sRGB is asked for. Asking for sRGB changes only the internal format,
/// to the sRGB encoding of the linear one.
pub proof fn lemma_gl_formats_match_the_pixel_format(f: PixelFormat, srgb: bool)
    requires
        srgb ==> f == PixelFormat::RGBA8Unorm,
    ensures
        ({
            let (format, internal, ty) = gl_formats(f, srgb);
            &&& gl_format_channels(format) == pixel_channels(f)
            &&& internal_format_channels(internal) == pixel_channels(f)
            &&& gl_type_bytes(ty) == pixel_channel_bytes(f)
            &&& internal_channel_bytes(internal) == pixel_channel_bytes(f)
            &&& (format == DEPTH_COMPONENT) == is_depth(f)
            &&& is_srgb_internal(internal) == srgb
            &&& (format, linear_internal(internal), ty) == gl_formats(f, false)
        }),
{
}

/// Distinct pixel formats get distinct internal formats.
pub proof fn lemma_gl_internal_formats_distinct(f: PixelFormat, g: PixelFormat)
    ensures
        gl_formats(f, false).1 == gl_formats(g, false).1 ==> f == g,
{
}

/// 1 for linear filtering, 0 for nearest.
pub open spec fn linear_bit(f: FilterMode) -> int {
    if f == FilterMode::Linear {
        1
    } else {
        0
    }
}

/// Filters follow GL's numbering of them: a magnification filter is
/// `NEAREST`, plus one where it is linear; a minification filter without
/// mipmaps is the magnification filter of the same mode; with mipmaps it is
/// `NEAREST_MIPMAP_NEAREST`, plus one where the texels are filtered linearly
/// and two where the mipmaps are.
pub proof fn lemma_filters_follow_gl_numbering(min: FilterMode, mip: FilterMode)
    ensures
        mag_filter_gl(min) == NEAREST + linear_bit(min),
        min_filter_gl(min, mip, false) == mag_filter_gl(min),
        min_filter_gl(min, mip, true) == NEAREST_MIPMAP_NEAREST + linear_bit(min) + 2 * linear_bit(mip),
{
}

/// Whether a depth test lets a pixel through, where `c` compares its depth
/// with the stored one (negative: less, zero: equal, positive: greater).
pub open spec fn depth_passes(t: DepthTest, c: int) -> bool {
    match t {
        DepthTest::AlwaysPass => true,
        DepthTest::Less => c < 0,
        DepthTest::Greater => c > 0,
        DepthTest::LessOrEqual => c <= 0,
        DepthTest::GreaterOrEqual => c >= 0,
    }
}

/// GL numbers a depth function `0x200` plus 1 where it passes on less, 2
/// where it passes on equal and 4 where it passes on greater; the depth
/// function given for a test passes on just the comparisons the test does.
pub proof fn lemma_depth_function_passes_as_the_test(t: DepthTest)
    ensures
        depth_func_gl(t) == 0x200 + (if depth_passes(t, -1) {
            1int
        } else {
            0
        }) + (if depth_passes(t, 0) {
            2int
        } else {
            0
        }) + (if depth_passes(t, 1) {
            4int
        } else {
            0
        }),
{
}

/// Whether the faces on that side (`front`) are rendered.
pub open spec fn renders(faces: FacesToRender, front: bool) -> bool {
    match faces {
        FacesToRender::Front => front,
        FacesToRender::Back => !front,
        FacesToRender::FrontAndBack => true,
        FacesToRender::NoFaces => false,
    }
}

/// Whether GL culling `cull` drops the faces on that side.
pub open spec fn culls(cull: Option<u32>, front: bool) -> bool {
    match cull {
        None => false,
        Some(c) => c == FRONT_AND_BACK || (front && c == FRONT) || (!front && c == BACK),
    }
}

/// The culling given for the faces to render drops exactly the faces that
/// are not rendered.
pub proof fn lemma_culling_drops_the_faces_not_rendered(faces: FacesToRender, front: bool)
    ensures
        culls(cull_face_gl(faces), front) == !renders(faces, front),
{
}

/// The blend factors follow GL's numbering: one minus the source alpha is
/// the factor after the source alpha.
pub proof fn lemma_blend_factors_follow_gl_numbering(b: BlendFactor)
    ensures
        blend_factor_gl(b) == SRC_ALPHA + (if b == BlendFactor::OneMinusSourceAlpha {
            1int
        } else {
            0
        }),
{
}

/// Distinct wrapping modes are given distinct GL modes.
pub proof fn lemma_wrapping_modes_distinct(a: WrappingMode, b: WrappingMode)
    ensures
        wrapping_gl(a) == wrapping_gl(b) ==> a == b,
{
}

} // verus!
