//! The progressive renderer: a frame buffer of terminal cells filled one
//! scanline at a time.
//!
//! `render_step` is the only externally driven transition: it renders whole
//! rows until the frame is complete or a wall-clock budget runs out, and
//! the budget is consulted only between rows, so a started row always
//! finishes and every call on an unfinished frame completes at least one
//! row. Once every row is rendered, further calls change nothing.

use vstd::prelude::*;

use crate::camera::camera_wf;
use crate::camera::pixel_ray_spec;
use crate::camera::ray_color_rel;
use crate::camera::Camera;
use crate::color::Color;
use crate::fixed::fdiv;
use crate::fixed::fx_div;
use crate::fixed::lemma_tdiv_bounds;
use crate::fixed::lemma_unit_scale_bound;
use crate::fixed::tdiv;
use crate::geometry::Sphere;
use crate::materials::Material;
use crate::maths::clamp_spec;
use crate::maths::scale_spec;
use crate::maths::vadd_spec;
use crate::maths::Vec3;
use crate::scene::HittableList;
use crate::terminal::cell_bounded;
use crate::terminal::rendered_cell;
use crate::terminal::RenderPixel;
use crate::terminal::TerminalPixel;

verus! {

broadcast use crate::terminal::lemma_render_pixel_view_len;

/// A fixed `width x height` grid of terminal cells, addressed row-major.
pub struct FrameBuffer {
    pub width: usize,
    pub height: usize,
    pub pixels: Vec<TerminalPixel>,
}

impl FrameBuffer {
    /// The cells as a sequence, row-major.
    pub open spec fn pixels_view(&self) -> Seq<TerminalPixel> {
        self.pixels@
    }

    /// The grid holds exactly one cell per coordinate.
    pub open spec fn wf(&self) -> bool {
        self.pixels_view().len() == self.width * self.height
    }

    pub fn new(width: usize, height: usize) -> (r: FrameBuffer)
        requires
            width <= 0x8000,
            height <= 0x8000,
        ensures
            r.wf(),
            r.width == width,
            r.height == height,
            forall|i: int|
                0 <= i < r.pixels_view().len() ==> #[trigger] r.pixels_view()[i]
                    == crate::terminal::blank_cell(),
    {
        proof {
            crate::fixed::lemma_mul_bound(width as int, height as int, 0x8000, 0x8000);
        }
        let n: usize = width * height;
        let mut pixels: Vec<TerminalPixel> = Vec::new();
        let mut i: usize = 0;
        while i < n
            invariant
                0 <= i <= n,
                pixels@.len() == i,
                forall|k: int| 0 <= k < i ==> #[trigger] pixels@[k] == crate::terminal::blank_cell(),
            decreases n - i,
        {
            pixels.push(TerminalPixel::default());
            i = i + 1;
        }
        FrameBuffer { width, height, pixels }
    }

    pub fn get_pixel(&self, x: usize, y: usize) -> (r: TerminalPixel)
        requires
            self.wf(),
            x < self.width,
            y < self.height,
        ensures
            r == self.pixels_view()[y * self.width + x],
    {
        // reading the length brings the fact that the grid fits in a vector
        // into scope, so the row-major index below cannot overflow
        let grid_cells: usize = self.pixels.len();
        proof {
            lemma_row_major_index(x as int, y as int, self.width as int, self.height as int);
            assert(y * self.width + x < grid_cells);
        }
        self.pixels[y * self.width + x]
    }

    /// Overwrite one cell.
    pub fn set_pixel(&mut self, x: usize, y: usize, pixel: TerminalPixel)
        requires
            old(self).wf(),
            x < old(self).width,
            y < old(self).height,
        ensures
            final(self).wf(),
            final(self).width == old(self).width,
            final(self).height == old(self).height,
            final(self).pixels_view() == old(self).pixels_view().update(
                (y * old(self).width + x) as int,
                pixel,
            ),
    {
        // reading the length brings the fact that the grid fits in a vector
        // into scope, so the row-major index below cannot overflow
        let grid_cells: usize = self.pixels.len();
        proof {
            lemma_row_major_index(x as int, y as int, self.width as int, self.height as int);
            assert(y * self.width + x < grid_cells);
        }
        let idx: usize = y * self.width + x;
        self.pixels.set(idx, pixel);
    }

    pub fn get_size(&self) -> (r: (usize, usize))
        ensures
            r.0 == self.width,
            r.1 == self.height,
    {
        (self.width, self.height)
    }
}

/// A row-major coordinate lands inside the grid.
proof fn lemma_row_major_index(x: int, y: int, width: int, height: int) by (nonlinear_arith)
    requires
        0 <= x < width,
        0 <= y < height,
    ensures
        0 <= y * width + x < width * height,
{
}

/// Relies on std::time::Instant: an opaque reading of the monotonic clock.
#[verifier::external_type_specification]
#[verifier::external_body]
pub struct ExInstant(std::time::Instant);

/// Relies on std::time::Instant::now: takes a clock reading. Nothing is
/// promised of the value.
#[verifier::external_body]
fn instant_now() -> std::time::Instant {
    std::time::Instant::now()
}

/// Relies on std::time::Instant::elapsed: the time since the reading,
/// converted to whole milliseconds. Time is not a function of the
/// arguments, so nothing is promised of the value.
#[verifier::external_body]
fn elapsed_ms(t: &std::time::Instant) -> u64 {
    t.elapsed().as_millis() as u64
}

/// The completed fraction of the frame, in fixed point, clamped to `[0, 1]`.
pub open spec fn progress_spec(next: int, height: int) -> int {
    clamp_spec(0, 65536, fx_div(next, height))
}

/// Progress reads exactly one when and only when every row is rendered.
pub proof fn lemma_progress_complete(next: int, height: int)
    requires
        0 < height,
        0 <= next <= height,
    ensures
        (progress_spec(next, height) == 65536) <==> (next == height),
{
    lemma_tdiv_bounds(next * 65536, height);
    let q = tdiv(next * 65536, height);
    if next == height {
        assert(q == 65536) by (nonlinear_arith)
            requires
                q >= 0,
                height > 0,
                height * q <= height * 65536,
                height * 65536 < height * q + height,
        ;
    } else {
        assert(q < 65536) by (nonlinear_arith)
            requires
                q >= 0,
                height > 0,
                next < height,
                height * q <= next * 65536,
        ;
    }
}

/// The scale each sub-sample contribution carries, so the accumulated
/// slot values are already Monte-Carlo means: eight sub-samples share the
/// per-pixel budget.
pub open spec fn sample_scale_spec(samples: int) -> int {
    tdiv(524288, samples)
}

/// How many samples each of the eight sub-cell slots receives.
pub open spec fn sample_rounds_spec(samples: int) -> int {
    samples / 8
}

/// One admissible contribution to sub-cell `slot` (row-major, two per
/// row) of the pixel whose top-left corner is `(x_fx, y_fx)`: the
/// recursive shade of a camera ray through a point jittered inside that
/// sub-cell, scaled to its share of the sample budget. The jitter and the
/// shading draws are existential, so every actual sample satisfies this.
pub open spec fn slot_contribution(
    objects: Seq<Sphere>,
    materials: Seq<Material>,
    camera: Camera,
    x_fx: int,
    y_fx: int,
    slot: int,
    max_depth: int,
    scale: int,
    part: Vec3,
) -> bool {
    exists|px: int, py: int, c: Color|
        #![trigger ray_color_rel(objects, materials, pixel_ray_spec(camera, px, py), max_depth, c)]
        {
            &&& x_fx + (slot % 2) * 32768 <= px < x_fx + (slot % 2) * 32768 + 32768
            &&& y_fx + (slot / 2) * 16384 <= py < y_fx + (slot / 2) * 16384 + 16384
            &&& ray_color_rel(objects, materials, pixel_ray_spec(camera, px, py), max_depth, c)
            &&& part == scale_spec(c, scale)
        }
}

/// `acc` is the sum of `n` admissible contributions to sub-cell `slot`.
pub open spec fn slot_sum(
    objects: Seq<Sphere>,
    materials: Seq<Material>,
    camera: Camera,
    x_fx: int,
    y_fx: int,
    slot: int,
    max_depth: int,
    scale: int,
    n: int,
    acc: Vec3,
) -> bool
    decreases n,
{
    if n <= 0 {
        acc == (Vec3 { x: 0i64, y: 0i64, z: 0i64 })
    } else {
        exists|prev: Vec3, part: Vec3|
            #![trigger vadd_spec(prev, part)]
            {
                &&& slot_sum(objects, materials, camera, x_fx, y_fx, slot, max_depth, scale, n - 1, prev)
                &&& slot_contribution(
                    objects,
                    materials,
                    camera,
                    x_fx,
                    y_fx,
                    slot,
                    max_depth,
                    scale,
                    part,
                )
                &&& acc == vadd_spec(prev, part)
            }
    }
}

/// The terminal cell is the glyph mapping of the cell whose eight slots
/// each hold the full budget of admissible contributions for this pixel:
/// the Monte-Carlo accumulation the sampler owes for every draw.
pub open spec fn sampled_pixel(
    objects: Seq<Sphere>,
    materials: Seq<Material>,
    camera: Camera,
    x_fx: int,
    y_fx: int,
    max_depth: int,
    samples: int,
    r: TerminalPixel,
) -> bool {
    exists|s: Seq<Color>|
        #![trigger rendered_cell(r, s)]
        rendered_cell(r, s) && (forall|i: int|
            0 <= i < 8 ==> slot_sum(
                objects,
                materials,
                camera,
                x_fx,
                y_fx,
                i,
                max_depth,
                sample_scale_spec(samples),
                sample_rounds_spec(samples),
                #[trigger] s[i],
            ))
}

/// The cell at row `line`, column `col`, as this camera and scene sample
/// it at the given budgets.
pub open spec fn row_cell_sampled(
    objects: Seq<Sphere>,
    materials: Seq<Material>,
    camera: Camera,
    max_depth: int,
    samples: int,
    line: int,
    col: int,
    cell: TerminalPixel,
) -> bool {
    sampled_pixel(objects, materials, camera, col * 65536, line * 65536, max_depth, samples, cell)
}

/// The renderer: frame buffer, camera and scene, plus the scanline cursor
/// of the progressive schedule.
pub struct Renderer {
    color_buffer: FrameBuffer,
    next_line_to_process: usize,
    render_duration_ms: u64,
    camera: Camera,
    samples_per_pixel: usize,
    max_depth: i32,
    world: HittableList,
}

impl Renderer {
    /// The frame buffer, for specification purposes.
    pub closed spec fn buffer_spec(&self) -> FrameBuffer {
        self.color_buffer
    }

    /// The scanline cursor, for specification purposes.
    pub closed spec fn next_line_spec(&self) -> int {
        self.next_line_to_process as int
    }

    /// The accumulated render time in milliseconds, for specification
    /// purposes.
    pub closed spec fn duration_spec(&self) -> int {
        self.render_duration_ms as int
    }

    /// The camera, for specification purposes.
    pub closed spec fn camera_spec(&self) -> Camera {
        self.camera
    }

    /// The scene, for specification purposes.
    pub closed spec fn world_spec(&self) -> HittableList {
        self.world
    }

    /// The sample budget per pixel, for specification purposes.
    pub closed spec fn samples_spec(&self) -> int {
        self.samples_per_pixel as int
    }

    /// The bounce budget per ray, for specification purposes.
    pub closed spec fn max_depth_spec(&self) -> int {
        self.max_depth as int
    }

    pub open spec fn wf(&self) -> bool {
        &&& self.buffer_spec().wf()
        &&& 1 <= self.buffer_spec().width <= 0x8000
        &&& 1 <= self.buffer_spec().height <= 0x8000
        &&& camera_wf(self.camera_spec())
        &&& self.world_spec().wf()
        &&& 0 <= self.next_line_spec() <= self.buffer_spec().height
        &&& 8 <= self.samples_spec() <= 0x10_0000
    }

    /// A renderer over the default scene at a fixed resolution, with the
    /// cursor at the first row.
    pub fn new(width: usize, height: usize) -> (r: Renderer)
        requires
            1 <= width <= 0x8000,
            1 <= height <= 0x8000,
        ensures
            r.wf(),
            r.next_line_spec() == 0,
            r.buffer_spec().width == width,
            r.buffer_spec().height == height,
            r.duration_spec() == 0,
            r.samples_spec() == 512,
            r.max_depth_spec() == 10,
            r.world_spec().objects_view().len() == 5,
            crate::scene::is_default_scene(r.world_spec()),
            forall|i: int|
                0 <= i < r.buffer_spec().pixels_view().len() ==> #[trigger] r.buffer_spec().pixels_view()[i]
                    == crate::terminal::blank_cell(),
    {
        let color_buffer = FrameBuffer::new(width, height);
        // terminal character cells are about twice as tall as wide
        let pixel_aspect_ratio: i64 = 32768;
        let focal_length: i64 = 65536;
        let camera_center = Vec3::zero();
        Renderer {
            color_buffer,
            next_line_to_process: 0,
            render_duration_ms: 0,
            camera: Camera::new(
                (width as i64) * 65536,
                (height as i64) * 65536,
                pixel_aspect_ratio,
                focal_length,
                camera_center,
            ),
            samples_per_pixel: 512,
            max_depth: 10,
            world: HittableList::default(),
        }
    }

    pub fn get_render_duration(&self) -> (r: u64)
        ensures
            r == self.duration_spec(),
    {
        self.render_duration_ms
    }

    /// The completed fraction of the frame in fixed point: zero at the
    /// start, exactly one when and only when every row is rendered.
    pub fn get_progress_percentage(&self) -> (r: i64)
        requires
            self.wf(),
        ensures
            r == progress_spec(self.next_line_spec(), self.buffer_spec().height as int),
            0 <= r <= 65536,
            (r == 65536) <==> (self.next_line_spec() == self.buffer_spec().height),
    {
        let (_width, height) = self.color_buffer.get_size();
        let ratio: i64 = fdiv(self.next_line_to_process as i64, height as i64);
        let progress_interval = crate::maths::Interval::new(0, 65536);
        let r = progress_interval.clamp(ratio);
        proof {
            lemma_progress_complete(self.next_line_spec(), self.buffer_spec().height as int);
        }
        r
    }

    pub fn get_color_buffer(&self) -> (r: &FrameBuffer)
        ensures
            r == self.buffer_spec(),
    {
        &self.color_buffer
    }

    pub fn get_scene_object_count(&self) -> (r: usize)
        ensures
            r == self.world_spec().objects_view().len(),
    {
        self.world.object_count()
    }

    /// Advance the render: at least one row when the frame is unfinished,
    /// more while the time budget lasts, and nothing at all once the frame
    /// is complete. Exactly the advanced-over rows are rewritten, each
    /// cell with a freshly rendered glyph mapping; every other cell is
    /// untouched, so a reader between calls never sees a partial row.
    pub fn render_step(&mut self)
        requires
            old(self).wf(),
        ensures
            final(self).wf(),
            final(self).buffer_spec().width == old(self).buffer_spec().width,
            final(self).buffer_spec().height == old(self).buffer_spec().height,
            final(self).camera_spec() == old(self).camera_spec(),
            final(self).world_spec() == old(self).world_spec(),
            final(self).samples_spec() == old(self).samples_spec(),
            final(self).max_depth_spec() == old(self).max_depth_spec(),
            final(self).duration_spec() >= old(self).duration_spec(),
            old(self).next_line_spec() == old(self).buffer_spec().height ==> *final(self)
                == *old(self),
            old(self).next_line_spec() < old(self).buffer_spec().height ==> old(
                self,
            ).next_line_spec() < final(self).next_line_spec() <= final(self).buffer_spec().height,
            forall|i: int|
                0 <= i < final(self).buffer_spec().pixels_view().len()
                    && !(old(self).next_line_spec() * old(self).buffer_spec().width <= i
                    < final(self).next_line_spec() * old(self).buffer_spec().width)
                    ==> final(self).buffer_spec().pixels_view()[i]
                    == old(self).buffer_spec().pixels_view()[i],
            forall|i: int|
                old(self).next_line_spec() * old(self).buffer_spec().width <= i
                    < final(self).next_line_spec() * old(self).buffer_spec().width
                    ==> row_cell_sampled(
                    old(self).world_spec().objects_view(),
                    old(self).world_spec().materials_view(),
                    old(self).camera_spec(),
                    old(self).max_depth_spec(),
                    old(self).samples_spec(),
                    i / (old(self).buffer_spec().width as int),
                    i % (old(self).buffer_spec().width as int),
                    #[trigger] final(self).buffer_spec().pixels_view()[i],
                ),
    {
        let start: std::time::Instant = instant_now();
        let mut lines_processed: usize = 0;
        let height: usize = self.color_buffer.height;
        while self.next_line_to_process < height && (lines_processed == 0 || elapsed_ms(&start)
            < 15)
            invariant
                self.wf(),
                height == self.buffer_spec().height,
                self.buffer_spec().width == old(self).buffer_spec().width,
                self.camera_spec() == old(self).camera_spec(),
                self.world_spec() == old(self).world_spec(),
                self.samples_spec() == old(self).samples_spec(),
                self.max_depth_spec() == old(self).max_depth_spec(),
                self.duration_spec() == old(self).duration_spec(),
                old(self).next_line_spec() <= self.next_line_spec(),
                lines_processed == self.next_line_spec() - old(self).next_line_spec(),
                lines_processed == 0 ==> *self == *old(self),
                lines_processed > 0 ==> old(self).next_line_spec() < self.next_line_spec(),
                forall|i: int|
                    0 <= i < self.buffer_spec().pixels_view().len() && !(old(
                        self,
                    ).next_line_spec() * old(self).buffer_spec().width <= i < self.next_line_spec()
                        * old(self).buffer_spec().width) ==> self.buffer_spec().pixels_view()[i]
                        == old(self).buffer_spec().pixels_view()[i],
                forall|i: int|
                    old(self).next_line_spec() * old(self).buffer_spec().width <= i
                        < self.next_line_spec() * old(self).buffer_spec().width
                        ==> row_cell_sampled(
                        old(self).world_spec().objects_view(),
                        old(self).world_spec().materials_view(),
                        old(self).camera_spec(),
                        old(self).max_depth_spec(),
                        old(self).samples_spec(),
                        i / (old(self).buffer_spec().width as int),
                        i % (old(self).buffer_spec().width as int),
                        #[trigger] self.buffer_spec().pixels_view()[i],
                    ),
            decreases height - self.next_line_to_process,
        {
            let line: usize = self.next_line_to_process;
            let ghost pre = self.buffer_spec().pixels_view();
            proof {
                let w = old(self).buffer_spec().width as int;
                crate::fixed::lemma_mul_mono(old(self).next_line_spec(), line as int, w);
                assert((line + 1) * w == line * w + w) by (nonlinear_arith);
            }
            self.render_line(line);
            proof {
                let w = old(self).buffer_spec().width as int;
                let wcur = self.buffer_spec().width as int;
                assert(wcur == w);
                assert((line as int) * wcur == (line as int) * w) by (nonlinear_arith)
                    requires
                        wcur == w,
                ;
                assert(((line as int) + 1) * wcur == ((line as int) + 1) * w) by (nonlinear_arith)
                    requires
                        wcur == w,
                ;
                let lo = old(self).next_line_spec() * w;
                let row_lo = (line as int) * w;
                let row_hi = ((line as int) + 1) * w;
                assert(self.buffer_spec().pixels_view().len() == pre.len());
                let prev_cursor = old(self).next_line_spec();
                assert(lo >= 0) by (nonlinear_arith)
                    requires
                        lo == prev_cursor * w,
                        prev_cursor >= 0,
                        w >= 0,
                ;
                assert(row_hi <= self.buffer_spec().pixels_view().len()) by (nonlinear_arith)
                    requires
                        row_hi == ((line as int) + 1) * w,
                        (line as int) + 1 <= self.buffer_spec().height,
                        w == self.buffer_spec().width,
                        w >= 0,
                        self.buffer_spec().pixels_view().len() == self.buffer_spec().width
                            * self.buffer_spec().height,
                ;
                // restate the row frame over the current width term, so the
                // accumulated ranges below connect to it
                assert forall|i: int|
                    0 <= i < self.buffer_spec().pixels_view().len() && !((line as int) * wcur <= i
                        < ((line as int) + 1) * wcur)
                    implies self.buffer_spec().pixels_view()[i] == pre[i] by {};
                assert forall|i: int|
                    0 <= i < self.buffer_spec().pixels_view().len() && !(lo <= i < row_hi)
                    implies self.buffer_spec().pixels_view()[i] == old(
                    self,
                ).buffer_spec().pixels_view()[i] by {
                    assert(!(row_lo <= i < row_hi));
                    assert(self.buffer_spec().pixels_view()[i] == pre[i]);
                    assert(pre[i] == old(self).buffer_spec().pixels_view()[i]);
                };
                assert forall|i: int|
                    lo <= i < row_hi implies row_cell_sampled(
                    old(self).world_spec().objects_view(),
                    old(self).world_spec().materials_view(),
                    old(self).camera_spec(),
                    old(self).max_depth_spec(),
                    old(self).samples_spec(),
                    i / w,
                    i % w,
                    #[trigger] self.buffer_spec().pixels_view()[i]) by {
                    if i < row_lo {
                        assert(self.buffer_spec().pixels_view()[i] == pre[i]);
                    } else {
                        assert((line as int) * wcur <= i < ((line as int) + 1) * wcur);
                        vstd::arithmetic::div_mod::lemma_fundamental_div_mod_converse(
                            i,
                            w,
                            line as int,
                            i - (line as int) * w,
                        );
                        assert(row_cell_sampled(
                            old(self).world_spec().objects_view(),
                            old(self).world_spec().materials_view(),
                            old(self).camera_spec(),
                            old(self).max_depth_spec(),
                            old(self).samples_spec(),
                            line as int,
                            i - (line as int) * w,
                            self.buffer_spec().pixels_view()[i],
                        ));
                    }
                };
            }
            self.next_line_to_process = line + 1;
            lines_processed = lines_processed + 1;
            proof {
                let w = old(self).buffer_spec().width as int;
                assert(self.next_line_spec() * w == ((line as int) + 1) * w);
            }
        }
        if lines_processed > 0 {
            let spent: u64 = elapsed_ms(&start);
            self.render_duration_ms = match self.render_duration_ms.checked_add(spent) {
                Some(total) => total,
                None => u64::MAX,
            };
        }
    }

    /// Render one full scanline into the frame buffer: every cell of row
    /// `line_index` is overwritten with the glyph mapping of a freshly
    /// sampled sub-sample cell, and rows other than `line_index` are
    /// untouched, so readers never see a half-written row elsewhere.
    fn render_line(&mut self, line_index: usize)
        requires
            old(self).wf(),
            line_index < old(self).buffer_spec().height,
        ensures
            final(self).wf(),
            final(self).buffer_spec().width == old(self).buffer_spec().width,
            final(self).buffer_spec().height == old(self).buffer_spec().height,
            final(self).next_line_spec() == old(self).next_line_spec(),
            final(self).duration_spec() == old(self).duration_spec(),
            final(self).camera_spec() == old(self).camera_spec(),
            final(self).world_spec() == old(self).world_spec(),
            final(self).samples_spec() == old(self).samples_spec(),
            final(self).max_depth_spec() == old(self).max_depth_spec(),
            forall|i: int|
                #![trigger final(self).buffer_spec().pixels_view()[i]]
                0 <= i < final(self).buffer_spec().pixels_view().len() && !(line_index
                    * old(self).buffer_spec().width <= i < (line_index + 1) * old(
                    self,
                ).buffer_spec().width) ==> final(self).buffer_spec().pixels_view()[i] == old(
                    self,
                ).buffer_spec().pixels_view()[i],
            forall|i: int|
                line_index * old(self).buffer_spec().width <= i < (line_index + 1) * old(
                    self,
                ).buffer_spec().width ==> row_cell_sampled(
                    old(self).world_spec().objects_view(),
                    old(self).world_spec().materials_view(),
                    old(self).camera_spec(),
                    old(self).max_depth_spec(),
                    old(self).samples_spec(),
                    line_index as int,
                    i - line_index * old(self).buffer_spec().width,
                    #[trigger] final(self).buffer_spec().pixels_view()[i],
                ),
    {
        let width: usize = self.color_buffer.width;
        proof {
            lemma_row_major_index(
                0,
                line_index as int,
                width as int,
                self.buffer_spec().height as int,
            );
            assert((line_index + 1) * width == line_index * width + width) by (nonlinear_arith);
            crate::fixed::lemma_mul_bound(
                (line_index + 1) as int,
                width as int,
                0x8000,
                0x8000,
            );
            assert((line_index + 1) * width <= self.buffer_spec().width * self.buffer_spec().height)
                by (nonlinear_arith)
                requires
                    line_index + 1 <= self.buffer_spec().height,
                    width == self.buffer_spec().width,
                    width >= 0,
            ;
        }
        let mut xi: usize = 0;
        while xi < width
            invariant
                0 <= xi <= width,
                self.wf(),
                width == self.buffer_spec().width,
                self.buffer_spec().height == old(self).buffer_spec().height,
                line_index < self.buffer_spec().height,
                self.next_line_spec() == old(self).next_line_spec(),
                self.duration_spec() == old(self).duration_spec(),
                self.camera_spec() == old(self).camera_spec(),
                self.world_spec() == old(self).world_spec(),
                self.samples_spec() == old(self).samples_spec(),
                self.max_depth_spec() == old(self).max_depth_spec(),
                (line_index + 1) * width <= self.buffer_spec().pixels_view().len(),
                forall|i: int|
                    0 <= i < self.buffer_spec().pixels_view().len() && !(line_index * width <= i < (
                    line_index + 1) * width) ==> self.buffer_spec().pixels_view()[i] == old(
                        self,
                    ).buffer_spec().pixels_view()[i],
                forall|i: int|
                    line_index * width <= i < line_index * width + xi ==> row_cell_sampled(
                        old(self).world_spec().objects_view(),
                        old(self).world_spec().materials_view(),
                        old(self).camera_spec(),
                        old(self).max_depth_spec(),
                        old(self).samples_spec(),
                        line_index as int,
                        i - line_index * width,
                        #[trigger] self.buffer_spec().pixels_view()[i],
                    ),
            decreases width - xi,
        {
            let pixel: TerminalPixel = Self::render_pixel_samples(
                self.samples_per_pixel,
                xi,
                line_index,
                &self.camera,
                &self.world,
                self.max_depth,
            );
            proof {
                lemma_row_major_index(
                    xi as int,
                    line_index as int,
                    width as int,
                    self.buffer_spec().height as int,
                );
                crate::fixed::lemma_mul_bound(
                    line_index as int,
                    width as int,
                    0x8000,
                    0x8000,
                );
            }
            proof {
                assert((line_index + 1) * width == line_index * width + width) by (nonlinear_arith);
            }
            self.color_buffer.set_pixel(xi, line_index, pixel);
            proof {
                assert(self.buffer_spec().pixels_view()[line_index * width + xi] == pixel);
                assert(row_cell_sampled(
                    old(self).world_spec().objects_view(),
                    old(self).world_spec().materials_view(),
                    old(self).camera_spec(),
                    old(self).max_depth_spec(),
                    old(self).samples_spec(),
                    line_index as int,
                    xi as int,
                    pixel,
                ));
            }
            xi = xi + 1;
        }
    }

    /// Monte-Carlo shade one cell: each of the eight sub-samples gets its
    /// share of the sample budget, jittered inside its own sub-cell, and
    /// the accumulated sub-sample colors are mapped onto one terminal
    /// cell. The result is pinned by `sampled_pixel`: the glyph mapping of
    /// the cell whose slots sum this pixel's own shaded, scaled samples.
    fn render_pixel_samples(
        samples_per_pixel: usize,
        x: usize,
        y: usize,
        camera: &Camera,
        world: &HittableList,
        max_depth: i32,
    ) -> (r: TerminalPixel)
        requires
            8 <= samples_per_pixel <= 0x10_0000,
            x <= 0x8000,
            y <= 0x8000,
            camera_wf(*camera),
            world.wf(),
        ensures
            sampled_pixel(
                world.objects_view(),
                world.materials_view(),
                *camera,
                (x as int) * 65536,
                (y as int) * 65536,
                max_depth as int,
                samples_per_pixel as int,
                r,
            ),
    {
        let ghost objs = world.objects_view();
        let ghost mats = world.materials_view();
        let ghost cam = *camera;
        let mut pixel = RenderPixel::new();
        let rounds: usize = samples_per_pixel / 8;
        // each sub-sample's contribution is scaled so the accumulated cell
        // colors stay Monte-Carlo means
        proof {
            lemma_tdiv_bounds(524288, samples_per_pixel as int);
            let q = tdiv(524288, samples_per_pixel as int);
            assert(0 <= q <= 65536) by (nonlinear_arith)
                requires
                    q >= 0,
                    samples_per_pixel >= 8,
                    (samples_per_pixel as int) * q <= 524288,
            ;
        }
        let scale: i64 = (8 * 65536) / (samples_per_pixel as i64);
        proof {
            lemma_budget_scale(samples_per_pixel as int, rounds as int, scale as int);
            assert(scale as int == sample_scale_spec(samples_per_pixel as int));
            assert(rounds as int == sample_rounds_spec(samples_per_pixel as int));
        }
        let x_fx: i64 = (x as i64) * 65536;
        let y_fx: i64 = (y as i64) * 65536;
        let mut subpixel_y: usize = 0;
        while subpixel_y < 4
            invariant
                0 <= subpixel_y <= 4,
                camera_wf(*camera),
                world.wf(),
                objs == world.objects_view(),
                mats == world.materials_view(),
                cam == *camera,
                0 <= scale <= 65536,
                1 <= rounds <= 0x2_0000,
                0 <= rounds * scale <= 65536,
                x_fx == (x as int) * 65536,
                y_fx == (y as int) * 65536,
                0 <= x_fx <= 0x8000_0000,
                0 <= y_fx <= 0x8000_0000,
                pixel@.len() == 8,
                forall|i: int|
                    0 <= i < 8 ==> 0 <= (#[trigger] pixel@[i]).x <= 65536 && 0 <= pixel@[i].y
                        <= 65536 && 0 <= pixel@[i].z <= 65536,
                forall|i: int|
                    0 <= i < (subpixel_y as int) * 2 ==> slot_sum(
                        objs,
                        mats,
                        cam,
                        x_fx as int,
                        y_fx as int,
                        i,
                        max_depth as int,
                        scale as int,
                        rounds as int,
                        #[trigger] pixel@[i],
                    ),
            decreases 4 - subpixel_y,
        {
            let mut subpixel_x: usize = 0;
            while subpixel_x < 2
                invariant
                    0 <= subpixel_x <= 2,
                    subpixel_y < 4,
                    camera_wf(*camera),
                    world.wf(),
                    objs == world.objects_view(),
                    mats == world.materials_view(),
                    cam == *camera,
                    0 <= scale <= 65536,
                    1 <= rounds <= 0x2_0000,
                    0 <= rounds * scale <= 65536,
                    x_fx == (x as int) * 65536,
                    y_fx == (y as int) * 65536,
                    0 <= x_fx <= 0x8000_0000,
                    0 <= y_fx <= 0x8000_0000,
                    pixel@.len() == 8,
                    forall|i: int|
                        0 <= i < 8 ==> 0 <= (#[trigger] pixel@[i]).x <= 65536 && 0 <= pixel@[i].y
                            <= 65536 && 0 <= pixel@[i].z <= 65536,
                    forall|i: int|
                        0 <= i < (subpixel_y as int) * 2 + (subpixel_x as int) ==> slot_sum(
                            objs,
                            mats,
                            cam,
                            x_fx as int,
                            y_fx as int,
                            i,
                            max_depth as int,
                            scale as int,
                            rounds as int,
                            #[trigger] pixel@[i],
                        ),
                decreases 2 - subpixel_x,
            {
                let ghost slot_g = (subpixel_y as int) * 2 + (subpixel_x as int);
                proof {
                    vstd::arithmetic::div_mod::lemma_fundamental_div_mod_converse(
                        slot_g,
                        2,
                        subpixel_y as int,
                        subpixel_x as int,
                    );
                }
                let mut acc = Vec3::zero();
                let mut s: usize = 0;
                while s < rounds
                    invariant
                        0 <= s <= rounds,
                        subpixel_x < 2,
                        subpixel_y < 4,
                        slot_g == (subpixel_y as int) * 2 + (subpixel_x as int),
                        slot_g % 2 == subpixel_x as int,
                        slot_g / 2 == subpixel_y as int,
                        camera_wf(*camera),
                        world.wf(),
                        objs == world.objects_view(),
                        mats == world.materials_view(),
                        cam == *camera,
                        0 <= scale <= 65536,
                        rounds <= 0x2_0000,
                        0 <= rounds * scale <= 65536,
                        x_fx == (x as int) * 65536,
                        y_fx == (y as int) * 65536,
                        0 <= x_fx <= 0x8000_0000,
                        0 <= y_fx <= 0x8000_0000,
                        0 <= acc.x <= s * scale,
                        0 <= acc.y <= s * scale,
                        0 <= acc.z <= s * scale,
                        slot_sum(
                            objs,
                            mats,
                            cam,
                            x_fx as int,
                            y_fx as int,
                            slot_g,
                            max_depth as int,
                            scale as int,
                            s as int,
                            acc,
                        ),
                    decreases rounds - s,
                {
                    // jitter inside this sub-cell
                    let dx: i64 = crate::random::random_double();
                    let dy: i64 = crate::random::random_double();
                    let jitter_x: i64 = ((subpixel_x as i64) * 65536 + dx) / 2;
                    let jitter_y: i64 = ((subpixel_y as i64) * 65536 + dy) / 4;
                    let ghost sxi = subpixel_x as int;
                    let ghost syi = subpixel_y as int;
                    let ghost jxi = jitter_x as int;
                    let ghost jyi = jitter_y as int;
                    proof {
                        assert(sxi * 32768 <= jxi && jxi < sxi * 32768 + 32768)
                            by (nonlinear_arith)
                            requires
                                0 <= dx < 65536,
                                0 <= sxi < 2,
                                jxi == (sxi * 65536 + dx) / 2,
                        ;
                        assert(syi * 16384 <= jyi && jyi < syi * 16384 + 16384)
                            by (nonlinear_arith)
                            requires
                                0 <= dy < 65536,
                                0 <= syi < 4,
                                jyi == (syi * 65536 + dy) / 4,
                        ;
                    }
                    let ray = camera.get_pixel_ray(x_fx + jitter_x, y_fx + jitter_y);
                    let color = camera.ray_color(&ray, max_depth, world);
                    let ghost pxi = (x_fx + jitter_x) as int;
                    let ghost pyi = (y_fx + jitter_y) as int;
                    proof {
                        assert(ray == pixel_ray_spec(cam, pxi, pyi));
                        assert(ray_color_rel(
                            objs,
                            mats,
                            pixel_ray_spec(cam, pxi, pyi),
                            max_depth as int,
                            color,
                        ));
                        lemma_unit_scale_bound(color.x as int, scale as int);
                        lemma_unit_scale_bound(color.y as int, scale as int);
                        lemma_unit_scale_bound(color.z as int, scale as int);
                        assert((s + 1) * scale == s * scale + scale) by (nonlinear_arith);
                        crate::fixed::lemma_mul_mono(s + 1, rounds as int, scale as int);
                        assert(s * scale <= 0x2_0000 * 65536) by (nonlinear_arith)
                            requires
                                0 <= s <= 0x2_0000,
                                0 <= scale <= 65536,
                        ;
                    }
                    let contribution = color.scale(scale);
                    proof {
                        assert(contribution == scale_spec(color, scale as int));
                        assert(slot_contribution(
                            objs,
                            mats,
                            cam,
                            x_fx as int,
                            y_fx as int,
                            slot_g,
                            max_depth as int,
                            scale as int,
                            contribution,
                        ));
                    }
                    let ghost prev_acc = acc;
                    acc = Vec3::new(acc.x + contribution.x, acc.y + contribution.y, acc.z + contribution.z);
                    proof {
                        assert(acc == vadd_spec(prev_acc, contribution));
                        assert(slot_sum(
                            objs,
                            mats,
                            cam,
                            x_fx as int,
                            y_fx as int,
                            slot_g,
                            max_depth as int,
                            scale as int,
                            s + 1,
                            acc,
                        ));
                    }
                    s = s + 1;
                }
                proof {
                    crate::fixed::lemma_mul_mono(s as int, rounds as int, scale as int);
                }
                pixel.set_color(subpixel_x, subpixel_y, acc);
                proof {
                    assert(pixel@[slot_g] == acc);
                }
                subpixel_x = subpixel_x + 1;
            }
            subpixel_y = subpixel_y + 1;
        }
        proof {
            assert(cell_bounded(pixel@));
        }
        let ghost cell = pixel@;
        let r = pixel.to_terminal_pixel();
        proof {
            assert(rendered_cell(r, cell));
            assert(forall|i: int|
                0 <= i < 8 ==> slot_sum(
                    objs,
                    mats,
                    cam,
                    x_fx as int,
                    y_fx as int,
                    i,
                    max_depth as int,
                    sample_scale_spec(samples_per_pixel as int),
                    sample_rounds_spec(samples_per_pixel as int),
                    #[trigger] cell[i],
                ));
            assert(sampled_pixel(
                objs,
                mats,
                cam,
                x_fx as int,
                y_fx as int,
                max_depth as int,
                samples_per_pixel as int,
                r,
            ));
        }
        r
    }
}

/// The per-sub-sample scale times the number of rounds never exceeds one:
/// `(samples/8) * (8/samples)` rounds down on both sides.
proof fn lemma_budget_scale(spp: int, rounds: int, scale: int)
    requires
        spp >= 8,
        rounds == spp / 8,
        scale == tdiv(524288, spp),
    ensures
        0 <= rounds * scale <= 65536,
{
    assert(8 * rounds <= spp && rounds >= 0) by (nonlinear_arith)
        requires
            rounds == spp / 8,
            spp >= 8,
    ;
    lemma_tdiv_bounds(524288, spp);
    assert(rounds * scale >= 0) by (nonlinear_arith)
        requires
            rounds >= 0,
            scale >= 0,
    ;
    assert((rounds * scale) * spp <= rounds * 524288) by (nonlinear_arith)
        requires
            spp * scale <= 524288,
            rounds >= 0,
    ;
    assert(rounds * 524288 <= spp * 65536) by (nonlinear_arith)
        requires
            8 * rounds <= spp,
    ;
    assert(rounds * scale <= 65536) by (nonlinear_arith)
        requires
            (rounds * scale) * spp <= spp * 65536,
            spp > 0,
    ;
}

} // verus!
