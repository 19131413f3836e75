use vstd::prelude::*;

verus! {

#[derive(Clone, Copy, Debug, PartialEq, Eq, Structural)]
pub enum PixelFormat {
    R8Unorm,
    RG8Unorm,
    RGB8Unorm,
    RGBA8Unorm,
    Depth16,
    Depth24,
    Depth32F,
    RGBA16F,
    RGBA32F,
}

#[derive(Clone, Copy, Debug, PartialEq, Eq, Structural)]
pub enum FacesToRender {
    Front,
    Back,
    FrontAndBack,
    /// No faces at all.
    NoFaces,
}

/// Specifies if a pixel will be rendered based on the z-buffer value.
#[derive(Clone, Copy, Debug, PartialEq, Eq, Structural)]
pub enum DepthTest {
    /// Effectively disables depth testing.
    AlwaysPass,
    /// Write the pixel if its z value is less than the current value.
    Less,
    /// Write the pixel if its z value is greater than the current value.
    Greater,
    /// Write the pixel if its z value is less than or equal to the current value.
    LessOrEqual,
    /// Write the pixel if its z value is greater than or equal to the current value.
    GreaterOrEqual,
}

#[derive(Clone, Copy, Debug, PartialEq, Eq, Structural)]
pub enum BlendFactor {
    /// source_pixel.alpha
    SourceAlpha,
    /// 1.0 - source_pixel.alpha
    OneMinusSourceAlpha,
}

pub struct GraphicsContextSettings {
    /// If possible, should a high resolution framebuffer be requested?
    pub high_resolution_framebuffer: bool,
    /// How many MSAA samples should be requested for the framebuffer?
    pub samples: u8,
}

impl Default for GraphicsContextSettings {
    /// A high resolution framebuffer with two samples.
    fn default() -> (r: Self)
        ensures
            r.high_resolution_framebuffer,
            r.samples == 2,
    {
        Self { high_resolution_framebuffer: true, samples: 2 }
    }
}

#[derive(Clone, Copy, Debug, PartialEq, Eq, Structural)]
pub enum FilterMode {
    Nearest,
    Linear,
}

#[derive(Clone, Copy, Debug, PartialEq, Eq, Structural)]
pub enum WrappingMode {
    ClampToEdge,
    Repeat,
    MirrorRepeat,
}

} // verus!
