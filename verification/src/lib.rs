//! A software 3D rendering core in fixed-point arithmetic: camera-space
//! transform, perspective projection, scanline polygon rasterization with a
//! shared depth buffer, flat shading, and a particle billboard renderer.
//!
//! All coordinates, depths, angles and intensities are carried as signed
//! integers scaled by `fixed::SCALE` (one unit is 1/10000); the surrounding
//! application converts at the boundary. The caller owns the color and depth
//! buffers and resets the depth buffer to `i64::MAX` before each frame's
//! first draw call.
use vstd::prelude::*;

pub mod fixed;
pub mod font;
pub mod hitbox;
pub mod light;
pub mod model;
pub mod particles;
pub mod raster;
pub mod render;

pub use fixed::SCALE;

verus! {

/// Packs an 8-bit RGB triple into one `0xAARRGGBB` pixel with full alpha.
pub fn rgb(r: u8, g: u8, b: u8) -> (c: u32)
    ensures
        c == 0xFF00_0000u32 + (r as u32) * 0x1_0000 + (g as u32) * 0x100 + (b as u32),
{
    let c: u32 = (255u32 << 24) | ((r as u32) << 16) | ((g as u32) << 8) | (b as u32);
    proof {
        let r32 = r as u32;
        let g32 = g as u32;
        let b32 = b as u32;
        assert((255u32 << 24) | (r32 << 16) | (g32 << 8) | b32 == 0xFF00_0000u32 + r32
            * 0x1_0000 + g32 * 0x100 + b32) by (bit_vector)
            requires
                r32 < 256 && g32 < 256 && b32 < 256,
        ;
    }
    c
}

} // verus!
