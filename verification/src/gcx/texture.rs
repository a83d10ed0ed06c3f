//! Texture format descriptions, as plain data.

use vstd::prelude::*;

verus! {

/// How texels are stored on the device.
#[derive(Clone, Copy, Debug, PartialEq, Eq, Structural)]
pub enum InternalFormat {
    R8,
    R8S,
    R16F,
    R32F,
    R8UI,
    R16UI,
    R32UI,
    R8I,
    R16I,
    R32I,
    RG8,
    RG8S,
    RG16F,
    RG32F,
    RG8UI,
    RG16UI,
    RG32UI,
    RG8I,
    RG16I,
    RG32I,
    RGB8,
    RGB8S,
    RGB16F,
    RGB32F,
    RGB8UI,
    RGB16UI,
    RGB32UI,
    RGB8I,
    RGB16I,
    RGB32I,
    RGBA8,
    RGBA8S,
    RGBA16F,
    RGBA32F,
    RGBA8UI,
    RGBA16UI,
    RGBA32UI,
    RGBA8I,
    RGBA16I,
    RGBA32I,
    DepthComponent16,
    DepthComponent24,
    DepthComponent32,
    DepthComponent32F,
    Depth24Stencil8,
    Depth32FStencil8,
}

/// The channel layout of texel data handed to the device.
#[derive(Clone, Copy, Debug, PartialEq, Eq, Structural)]
pub enum Format {
    Red,
    RedInt,
    RG,
    RGInt,
    RGB,
    RGBInt,
    RGBA,
    RGBAInt,
    DepthComponent,
    DepthStencil,
}

/// The dimensionality of a texture.
#[derive(Clone, Copy, Debug, PartialEq, Eq, Structural)]
pub enum TextureType {
    Tex2D,
    Tex3D,
}

/// The binding target of a texture.
#[derive(Clone, Copy, Debug, PartialEq, Eq, Structural)]
pub enum TextureTarget {
    Tex2D,
    Tex3D,
    Tex2DArray,
    CubeMapPositiveX,
    CubeMapPositiveY,
    CubeMapPositiveZ,
    CubeMapNegativeX,
    CubeMapNegativeY,
    CubeMapNegativeZ,
}

} // verus!
