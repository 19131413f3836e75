use koi::kgraphics::gl_shared::{blending_to_gl, depth_test_to_gl, faces_to_render_to_cull_face};
use koi::kgraphics::types::{BlendFactor, DepthTest, FacesToRender};
use koi::kgraphics::bump_allocator::BumpAllocator;
use koi::kgraphics::gl_shared::{
    convert_srgb_data_to_linear_srgb, flip_image, magnification_filter_to_gl_enum, vertex_attribute_byte_size, minification_filter_to_gl_enum,
    pixel_format_to_gl_format_and_inner_format_and_type, wrapping_to_gl_enum, CLAMP_TO_EDGE,
    DEPTH_COMPONENT, DEPTH_COMPONENT24, HALF_FLOAT, LINEAR, LINEAR_MIPMAP_NEAREST, NEAREST_MIPMAP_LINEAR,
    R8, RED, REPEAT, RGBA, RGBA16F, SRGB8_ALPHA8, UNSIGNED_BYTE, UNSIGNED_INT,
};
use koi::kgraphics::types::{FilterMode, GraphicsContextSettings, PixelFormat, WrappingMode};

#[test]
fn bump_allocator_stores_values_in_a_row() {
    let mut b = BumpAllocator::new();
    let h1 = b.push(&[1, 2, 3]);
    let h2 = b.push(&[9, 9]);
    let h3 = b.push(&[7]);
    assert_eq!(b.get_any(&h1), vec![1, 2, 3]);
    assert_eq!(b.get_any(&h2), vec![9, 9]);
    assert_eq!(b.get_any(&h3), vec![7]);
    b.clear();
    let h4 = b.push(&[5, 6, 7, 8]);
    assert_eq!(b.get_any(&h4), vec![5, 6, 7, 8]);
}

#[test]
fn gl_formats() {
    assert_eq!(pixel_format_to_gl_format_and_inner_format_and_type(PixelFormat::RGBA8Unorm, true), (RGBA, SRGB8_ALPHA8, UNSIGNED_BYTE));
    assert_eq!(pixel_format_to_gl_format_and_inner_format_and_type(PixelFormat::R8Unorm, false), (RED, R8, UNSIGNED_BYTE));
    assert_eq!(pixel_format_to_gl_format_and_inner_format_and_type(PixelFormat::Depth24, false), (DEPTH_COMPONENT, DEPTH_COMPONENT24, UNSIGNED_INT));
    assert_eq!(pixel_format_to_gl_format_and_inner_format_and_type(PixelFormat::RGBA16F, false), (RGBA, RGBA16F, HALF_FLOAT));
    assert_eq!(pixel_format_to_gl_format_and_inner_format_and_type(PixelFormat::Depth32F, false), (0x1902, 0x8CAC, 0x1406));
}

#[test]
fn gl_filters_and_wrapping() {
    assert_eq!(minification_filter_to_gl_enum(FilterMode::Nearest, FilterMode::Linear, true), NEAREST_MIPMAP_LINEAR);
    assert_eq!(minification_filter_to_gl_enum(FilterMode::Linear, FilterMode::Nearest, true), LINEAR_MIPMAP_NEAREST);
    assert_eq!(minification_filter_to_gl_enum(FilterMode::Linear, FilterMode::Nearest, false), LINEAR);
    assert_eq!(magnification_filter_to_gl_enum(FilterMode::Nearest), 0x2600);
    assert_eq!(wrapping_to_gl_enum(WrappingMode::MirrorRepeat), 0x8370);
    assert_eq!(wrapping_to_gl_enum(WrappingMode::ClampToEdge), CLAMP_TO_EDGE);
    assert_eq!(wrapping_to_gl_enum(WrappingMode::Repeat), REPEAT);
}

#[test]
fn srgb_conversion_keeps_alpha() {
    let mut table = [0u8; 256];
    for (i, t) in table.iter_mut().enumerate() {
        *t = (255 - i) as u8;
    }
    let mut out = vec![42];
    convert_srgb_data_to_linear_srgb(&mut out, &[0, 1, 2, 3, 10, 20, 30, 40], true, &table);
    assert_eq!(out, vec![42, 255, 254, 253, 3, 245, 235, 225, 40]);
    let mut out = Vec::new();
    convert_srgb_data_to_linear_srgb(&mut out, &[0, 255, 7], false, &table);
    assert_eq!(out, vec![255, 0, 248]);
}

#[test]
fn default_settings() {
    let s = GraphicsContextSettings::default();
    assert!(s.high_resolution_framebuffer);
    assert_eq!(s.samples, 2);
}

#[test]
fn flip_image_reverses_rows() {
    let mut data: Vec<u8> = (0..12).collect();
    flip_image(PixelFormat::RG8Unorm, 2, 3, &mut data);
    assert_eq!(data, vec![8, 9, 10, 11, 4, 5, 6, 7, 0, 1, 2, 3]);
    let mut data: Vec<u8> = (0..16).collect();
    flip_image(PixelFormat::RGBA8Unorm, 2, 2, &mut data);
    assert_eq!(data, vec![8, 9, 10, 11, 12, 13, 14, 15, 0, 1, 2, 3, 4, 5, 6, 7]);
    let mut empty: Vec<u8> = Vec::new();
    flip_image(PixelFormat::RGBA32F, 3, 0, &mut empty);
    assert!(empty.is_empty());
}

#[test]
fn vertex_attribute_sizes() {
    assert_eq!(vertex_attribute_byte_size(0x1406), Some(4));
    assert_eq!(vertex_attribute_byte_size(0x8B51), Some(12));
    assert_eq!(vertex_attribute_byte_size(0x8B5C), Some(64));
    assert_eq!(vertex_attribute_byte_size(0x8B5E), None);
}

#[test]
fn gl_pipeline_settings() {
    assert_eq!(depth_test_to_gl(DepthTest::AlwaysPass), 0x0207);
    assert_eq!(depth_test_to_gl(DepthTest::Less), 0x0201);
    assert_eq!(depth_test_to_gl(DepthTest::GreaterOrEqual), 0x0206);
    assert_eq!(faces_to_render_to_cull_face(FacesToRender::Front), Some(0x0405));
    assert_eq!(faces_to_render_to_cull_face(FacesToRender::FrontAndBack), None);
    assert_eq!(faces_to_render_to_cull_face(FacesToRender::NoFaces), Some(0x0408));
    assert_eq!(blending_to_gl(BlendFactor::SourceAlpha), 0x0302);
    assert_eq!(blending_to_gl(BlendFactor::OneMinusSourceAlpha), 0x0303);
}
