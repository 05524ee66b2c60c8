//! Mapping a rendered frame buffer into an output area with pan and zoom.
//!
//! The widget that draws cells belongs to the host; the coordinate mapping
//! it needs — which source pixel, if any, an output cell shows — is
//! computed here in fixed point.

use vstd::prelude::*;

use crate::fixed::fmul;
use crate::fixed::fx_mul;
use crate::fixed::lemma_fx_mul_bound;
use crate::renderer::FrameBuffer;

verus! {

/// The view transform: pan offsets in cells and a zoom factor, in fixed
/// point.
#[derive(Debug, Clone, Copy)]
pub struct ImageDisplayState {
    pub x: i64,
    pub y: i64,
    pub zoom: i64,
}

/// Pan offsets within four thousand cells and a zoom factor of at most 256
/// keep the mapping arithmetic in range.
pub open spec fn display_state_wf(s: ImageDisplayState) -> bool {
    &&& -0x1000_0000 <= s.x <= 0x1000_0000
    &&& -0x1000_0000 <= s.y <= 0x1000_0000
    &&& 0 < s.zoom <= 0x100_0000
}

/// A view of a frame buffer to draw into an output area.
pub struct ImageDisplay<'a> {
    pub image_buffer: &'a FrameBuffer,
}

/// One axis of the view transform: shift by the pan, scale by the zoom,
/// and center the image in the area.
pub open spec fn source_coord_spec(out: int, pan: int, zoom: int, area: int, image: int) -> int {
    fx_mul(out * 65536 - pan, zoom) - area * 32768 + image * 32768
}

impl<'a> ImageDisplay<'a> {
    pub fn new(image_buffer: &'a FrameBuffer) -> (r: Self)
        ensures
            r.image_buffer == image_buffer,
    {
        Self { image_buffer }
    }

    /// The source pixel an output cell shows, or nothing when the cell
    /// falls outside the image; a returned pixel is always in bounds.
    pub fn source_pixel(&self, state: &ImageDisplayState, out_x: u16, out_y: u16, area_width: u16, area_height: u16) -> (r: Option<(usize, usize)>)
        requires
            self.image_buffer.width <= 0x8000,
            self.image_buffer.height <= 0x8000,
            display_state_wf(*state),
        ensures
            ({
                let sx = source_coord_spec(
                    out_x as int,
                    state.x as int,
                    state.zoom as int,
                    area_width as int,
                    self.image_buffer.width as int,
                );
                let sy = source_coord_spec(
                    out_y as int,
                    state.y as int,
                    state.zoom as int,
                    area_height as int,
                    self.image_buffer.height as int,
                );
                if sx < 0 || sy < 0 || sx >= self.image_buffer.width * 65536 || sy
                    >= self.image_buffer.height * 65536 {
                    r is None
                } else {
                    r == Some(((sx / 65536) as usize, (sy / 65536) as usize))
                }
            }),
            r matches Some(p) ==> p.0 < self.image_buffer.width && p.1 < self.image_buffer.height,
    {
        proof {
            lemma_fx_mul_bound(
                (out_x as int) * 65536 - state.x,
                state.zoom as int,
                0x2_0000_0000,
                0x100_0000,
            );
            lemma_fx_mul_bound(
                (out_y as int) * 65536 - state.y,
                state.zoom as int,
                0x2_0000_0000,
                0x100_0000,
            );
        }
        let image_width: i64 = self.image_buffer.width as i64;
        let image_height: i64 = self.image_buffer.height as i64;
        let sx: i64 = fmul((out_x as i64) * 65536 - state.x, state.zoom) - (area_width as i64)
            * 32768 + image_width * 32768;
        let sy: i64 = fmul((out_y as i64) * 65536 - state.y, state.zoom) - (area_height as i64)
            * 32768 + image_height * 32768;
        if sx < 0 || sy < 0 || sx >= image_width * 65536 || sy >= image_height * 65536 {
            None
        } else {
            Some(((sx / 65536) as usize, (sy / 65536) as usize))
        }
    }
}

} // verus!
