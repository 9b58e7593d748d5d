//! The plan of the heat-equation tile: the grid it solves on, the buffers and
//! bind groups of its compute pipelines, and the passes that one frame dispatches.
//!
//! One frame runs [`ITERATIONS_PER_FRAME`] steps of an explicit FTCS
//! Runge-Kutta 2 solver, each made of six passes:
//! 1. fix the boundary (insulating, Neumann),
//! 2. the Laplacian at time t,
//! 3. the half step `midpoint = data + (dt/2) * kappa * laplacian`,
//! 4. the Laplacian at the midpoint,
//! 5. the full step `output = data + dt * kappa * midpoint_laplacian`,
//! 6. copy `output` back to `data`;
//!
//! and then one pass that turns temperatures into an RGBA heatmap, which is then
//! copied from its buffer into the tile's texture ([`HeatGrid::heatmap_copy`]).
//! The passes and the copy run on the GPU; the floating-point constants of the solver live with
//! the renderer that creates the buffers.

use vstd::prelude::*;

verus! {

pub const HEAT_GRID_WIDTH: u32 = 128;

pub const HEAT_GRID_HEIGHT: u32 = 128;

/// Solver steps per frame.
pub const ITERATIONS_PER_FRAME: u32 = 8;

/// Passes in one solver step.
pub const PASSES_PER_STEP: u32 = 6;

/// Threads per workgroup of the one-dimensional passes.
pub const WORKGROUP_SIZE_1D: u32 = 64;

/// Threads per side of a workgroup of the heatmap pass.
pub const WORKGROUP_SIDE_2D: u32 = 8;

/// Heatmap rows are padded to a multiple of this many texels.
pub const ROW_ALIGNMENT: u32 = 64;

/// Bytes of one texel of the heatmap texture (RGBA, 8 bits a channel).
pub const BYTES_PER_TEXEL: u32 = 4;

/// A buffer-to-texture copy's rows must be a multiple of this many bytes.
pub const COPY_ROW_ALIGNMENT: u32 = 256;

/// The compute pipelines, one per shader.
#[derive(Debug, Clone, Copy, PartialEq, Eq, Structural)]
pub enum HeatPipeline {
    Boundary,
    Laplacian,
    Iterate,
    Copy,
    Heatmap,
}

/// The buffers of the solver.
#[derive(Debug, Clone, Copy, PartialEq, Eq, Structural)]
pub enum HeatBuffer {
    /// Temperatures (storage, `f32`).
    Data,
    /// Laplacian at time t (storage, `f32`).
    Laplacian,
    /// The half step (storage, `f32`).
    Midpoint,
    /// Laplacian at the midpoint (storage, `f32`).
    MidpointLaplacian,
    /// The full step (storage, `f32`).
    Output,
    /// RGBA texels (storage, `u32`).
    Heatmap,
    /// Grid width (uniform, `u32`).
    Width,
    /// Grid height (uniform, `u32`).
    Height,
    /// Diffusivity (uniform, `f32`).
    Kappa,
    /// Time step (uniform, `f32`).
    DeltaT,
    /// Half the time step (uniform, `f32`).
    HalfDeltaT,
    /// Temperature drawn coldest (uniform, `f32`).
    MinT,
    /// Temperature drawn hottest (uniform, `f32`).
    MaxT,
    /// Padding texels per heatmap row (uniform, `u32`).
    Pad,
}

/// The bind groups, one per kind of pass.
#[derive(Debug, Clone, Copy, PartialEq, Eq, Structural)]
pub enum HeatBindGroup {
    Boundary,
    Laplacian,
    IterateHalf,
    MidpointLaplacian,
    IterateFull,
    Copy,
    Heatmap,
}

/// One compute pass: a pipeline, its bind group and the workgroup counts.
#[derive(Debug, Clone, Copy, PartialEq, Eq, Structural)]
pub struct Dispatch {
    pub pipeline: HeatPipeline,
    pub bind_group: HeatBindGroup,
    pub x: u32,
    pub y: u32,
    pub z: u32,
}

/// The pipeline whose layout a bind group is made for.
pub open spec fn spec_pipeline_of(bg: HeatBindGroup) -> HeatPipeline {
    match bg {
        HeatBindGroup::Boundary => HeatPipeline::Boundary,
        HeatBindGroup::Laplacian => HeatPipeline::Laplacian,
        HeatBindGroup::IterateHalf => HeatPipeline::Iterate,
        HeatBindGroup::MidpointLaplacian => HeatPipeline::Laplacian,
        HeatBindGroup::IterateFull => HeatPipeline::Iterate,
        HeatBindGroup::Copy => HeatPipeline::Copy,
        HeatBindGroup::Heatmap => HeatPipeline::Heatmap,
    }
}

/// The buffers a bind group binds, binding `i` to the `i`-th.
pub open spec fn spec_buffers_of(bg: HeatBindGroup) -> Seq<HeatBuffer> {
    match bg {
        HeatBindGroup::Boundary => seq![HeatBuffer::Data, HeatBuffer::Width, HeatBuffer::Height],
        HeatBindGroup::Laplacian => seq![
            HeatBuffer::Data,
            HeatBuffer::Laplacian,
            HeatBuffer::Width,
            HeatBuffer::Height,
        ],
        HeatBindGroup::IterateHalf => seq![
            HeatBuffer::Data,
            HeatBuffer::Laplacian,
            HeatBuffer::Midpoint,
            HeatBuffer::Width,
            HeatBuffer::Height,
            HeatBuffer::HalfDeltaT,
            HeatBuffer::Kappa,
        ],
        HeatBindGroup::MidpointLaplacian => seq![
            HeatBuffer::Midpoint,
            HeatBuffer::MidpointLaplacian,
            HeatBuffer::Width,
            HeatBuffer::Height,
        ],
        HeatBindGroup::IterateFull => seq![
            HeatBuffer::Data,
            HeatBuffer::MidpointLaplacian,
            HeatBuffer::Output,
            HeatBuffer::Width,
            HeatBuffer::Height,
            HeatBuffer::DeltaT,
            HeatBuffer::Kappa,
        ],
        HeatBindGroup::Copy => seq![
            HeatBuffer::Output,
            HeatBuffer::Data,
            HeatBuffer::Width,
            HeatBuffer::Height,
        ],
        HeatBindGroup::Heatmap => seq![
            HeatBuffer::Data,
            HeatBuffer::Heatmap,
            HeatBuffer::Width,
            HeatBuffer::Height,
            HeatBuffer::MinT,
            HeatBuffer::MaxT,
            HeatBuffer::Pad,
        ],
    }
}

/// The bind group of pass `k` (0 to 5) of a solver step.
pub open spec fn spec_step_bind_group(k: int) -> HeatBindGroup {
    if k == 0 {
        HeatBindGroup::Boundary
    } else if k == 1 {
        HeatBindGroup::Laplacian
    } else if k == 2 {
        HeatBindGroup::IterateHalf
    } else if k == 3 {
        HeatBindGroup::MidpointLaplacian
    } else if k == 4 {
        HeatBindGroup::IterateFull
    } else {
        HeatBindGroup::Copy
    }
}

/// `a / b` rounded up.
pub open spec fn spec_div_ceil(a: int, b: int) -> int {
    (a + b - 1) / b
}

/// `a / b` rounded up, as `u32::div_ceil` computes it.
pub fn div_ceil(a: u32, b: u32) -> (r: u32)
    requires
        b > 0,
    ensures
        r == spec_div_ceil(a as int, b as int),
{
    let q = a / b;
    if a % b != 0 {
        assert(q < 0xffff_ffffu32) by (nonlinear_arith)
            requires
                b > 0,
                a % b != 0,
                q == a / b,
                a <= 0xffff_ffffu32,
        ;
    }
    let r = if a % b != 0 { q + 1 } else { q };
    assert(r == (a + b - 1) / (b as int)) by (nonlinear_arith)
        requires
            b > 0,
            q == a / b,
            a % b != 0 ==> r == q + 1,
            a % b == 0 ==> r == q,
    ;
    r
}

impl HeatBindGroup {
    /// The pipeline whose layout the bind group is made for.
    pub fn pipeline(self) -> (r: HeatPipeline)
        ensures
            r == spec_pipeline_of(self),
    {
        match self {
            HeatBindGroup::Boundary => HeatPipeline::Boundary,
            HeatBindGroup::Laplacian => HeatPipeline::Laplacian,
            HeatBindGroup::IterateHalf => HeatPipeline::Iterate,
            HeatBindGroup::MidpointLaplacian => HeatPipeline::Laplacian,
            HeatBindGroup::IterateFull => HeatPipeline::Iterate,
            HeatBindGroup::Copy => HeatPipeline::Copy,
            HeatBindGroup::Heatmap => HeatPipeline::Heatmap,
        }
    }

    /// The buffers the bind group binds, in binding order.
    pub fn buffers(self) -> (r: Vec<HeatBuffer>)
        ensures
            r@ == spec_buffers_of(self),
    {
        let r = match self {
            HeatBindGroup::Boundary => vec![HeatBuffer::Data, HeatBuffer::Width, HeatBuffer::Height],
            HeatBindGroup::Laplacian => vec![
                HeatBuffer::Data,
                HeatBuffer::Laplacian,
                HeatBuffer::Width,
                HeatBuffer::Height,
            ],
            HeatBindGroup::IterateHalf => vec![
                HeatBuffer::Data,
                HeatBuffer::Laplacian,
                HeatBuffer::Midpoint,
                HeatBuffer::Width,
                HeatBuffer::Height,
                HeatBuffer::HalfDeltaT,
                HeatBuffer::Kappa,
            ],
            HeatBindGroup::MidpointLaplacian => vec![
                HeatBuffer::Midpoint,
                HeatBuffer::MidpointLaplacian,
                HeatBuffer::Width,
                HeatBuffer::Height,
            ],
            HeatBindGroup::IterateFull => vec![
                HeatBuffer::Data,
                HeatBuffer::MidpointLaplacian,
                HeatBuffer::Output,
                HeatBuffer::Width,
                HeatBuffer::Height,
                HeatBuffer::DeltaT,
                HeatBuffer::Kappa,
            ],
            HeatBindGroup::Copy => vec![
                HeatBuffer::Output,
                HeatBuffer::Data,
                HeatBuffer::Width,
                HeatBuffer::Height,
            ],
            HeatBindGroup::Heatmap => vec![
                HeatBuffer::Data,
                HeatBuffer::Heatmap,
                HeatBuffer::Width,
                HeatBuffer::Height,
                HeatBuffer::MinT,
                HeatBuffer::MaxT,
                HeatBuffer::Pad,
            ],
        };
        assert(r@ =~= spec_buffers_of(self));
        r
    }

    /// The entries of the bind group: binding number and buffer.
    pub fn bindings(self) -> (r: Vec<(u32, HeatBuffer)>)
        ensures
            r@.len() == spec_buffers_of(self).len(),
            forall|i: int|
                0 <= i < r@.len() ==> #[trigger] r@[i] == (i as u32, spec_buffers_of(self)[i]),
    {
        let buffers = self.buffers();
        let mut r: Vec<(u32, HeatBuffer)> = Vec::new();
        let mut i: usize = 0;
        while i < buffers.len()
            invariant
                buffers@ == spec_buffers_of(self),
                buffers@.len() <= 7,
                0 <= i <= buffers.len(),
                r@.len() == i,
                forall|k: int| 0 <= k < i ==> #[trigger] r@[k] == (k as u32, buffers@[k]),
            decreases buffers.len() - i,
        {
            r.push((i as u32, buffers[i]));
            i = i + 1;
        }
        r
    }
}


/// The pass at position `i` of a frame's plan on a `w` by `h` grid.
pub open spec fn spec_pass(w: u32, h: u32, i: int) -> Dispatch {
    if i < ITERATIONS_PER_FRAME * PASSES_PER_STEP {
        let bg = spec_step_bind_group(i % (PASSES_PER_STEP as int));
        Dispatch {
            pipeline: spec_pipeline_of(bg),
            bind_group: bg,
            x: spec_div_ceil(w * h, WORKGROUP_SIZE_1D as int) as u32,
            y: 1,
            z: 1,
        }
    } else {
        Dispatch {
            pipeline: HeatPipeline::Heatmap,
            bind_group: HeatBindGroup::Heatmap,
            x: spec_div_ceil(w as int, WORKGROUP_SIDE_2D as int) as u32,
            y: spec_div_ceil(h as int, WORKGROUP_SIDE_2D as int) as u32,
            z: 1,
        }
    }
}

/// The passes of one frame: every solver step's six passes, step after step,
/// then the heatmap pass.
pub open spec fn spec_plan(w: u32, h: u32) -> Seq<Dispatch> {
    Seq::new(
        (ITERATIONS_PER_FRAME * PASSES_PER_STEP + 1) as nat,
        |i: int| spec_pass(w, h, i),
    )
}

/// The bind group of pass `k` of a solver step.
fn step_bind_group(k: u32) -> (r: HeatBindGroup)
    requires
        k < PASSES_PER_STEP,
    ensures
        r == spec_step_bind_group(k as int),
{
    if k == 0 {
        HeatBindGroup::Boundary
    } else if k == 1 {
        HeatBindGroup::Laplacian
    } else if k == 2 {
        HeatBindGroup::IterateHalf
    } else if k == 3 {
        HeatBindGroup::MidpointLaplacian
    } else if k == 4 {
        HeatBindGroup::IterateFull
    } else {
        HeatBindGroup::Copy
    }
}

/// The grid the heat equation is solved on.
#[derive(Debug, Clone, Copy, PartialEq, Eq, Structural)]
pub struct HeatGrid {
    pub width: u32,
    pub height: u32,
}

impl HeatGrid {
    /// Every size the renderer computes for this grid fits in a `u32`.
    pub open spec fn fits(self) -> bool {
        &&& spec_div_ceil(self.width as int, ROW_ALIGNMENT as int) * ROW_ALIGNMENT * BYTES_PER_TEXEL
            <= u32::MAX
        &&& spec_div_ceil(self.width as int, ROW_ALIGNMENT as int) * ROW_ALIGNMENT * self.height
            <= u32::MAX
    }

    /// Padding texels that make a heatmap row a multiple of [`ROW_ALIGNMENT`].
    pub open spec fn spec_pad(self) -> int {
        spec_div_ceil(self.width as int, ROW_ALIGNMENT as int) * ROW_ALIGNMENT - self.width
    }

    /// The grid the tile solves on.
    pub fn new() -> (r: HeatGrid)
        ensures
            r.width == HEAT_GRID_WIDTH,
            r.height == HEAT_GRID_HEIGHT,
            r.fits(),
    {
        HeatGrid { width: HEAT_GRID_WIDTH, height: HEAT_GRID_HEIGHT }
    }

    /// Cells of the grid.
    pub fn cell_count(&self) -> (r: usize)
        requires
            self.fits(),
        ensures
            r == self.width * self.height,
    {
        proof {
            self.lemma_sizes();
        }
        (self.width * self.height) as usize
    }

    proof fn lemma_sizes(self)
        requires
            self.fits(),
        ensures
            self.width * self.height <= u32::MAX,
            0 <= self.spec_pad() < ROW_ALIGNMENT,
            (self.width + self.spec_pad()) * self.height <= u32::MAX,
            (self.width + self.spec_pad()) % (ROW_ALIGNMENT as int) == 0,
    {
        let w = self.width as int;
        let h = self.height as int;
        let c = spec_div_ceil(w, 64);
        assert(c * 64 >= w && c * 64 < w + 64) by (nonlinear_arith)
            requires
                c == (w + 63) / 64,
                w >= 0,
        ;
        assert(w * h <= c * 64 * h) by (nonlinear_arith)
            requires
                c * 64 >= w,
                w >= 0,
                h >= 0,
        ;
        assert((c * 64) % 64 == 0) by (nonlinear_arith);
    }

    /// Padding texels per heatmap row.
    pub fn pad_per_line(&self) -> (r: u32)
        requires
            self.fits(),
        ensures
            r == self.spec_pad(),
            r < ROW_ALIGNMENT,
            (self.width + r) % (ROW_ALIGNMENT as int) == 0,
    {
        proof {
            self.lemma_sizes();
        }
        div_ceil(self.width, ROW_ALIGNMENT) * ROW_ALIGNMENT - self.width
    }

    /// Texels of the padded heatmap.
    pub fn heatmap_len(&self) -> (r: usize)
        requires
            self.fits(),
        ensures
            r == (self.width + self.spec_pad()) * self.height,
    {
        proof {
            self.lemma_sizes();
        }
        let pad = self.pad_per_line();
        ((self.width + pad) * self.height) as usize
    }

    /// The passes one frame dispatches, in order.
    pub fn compute_plan(&self) -> (r: Vec<Dispatch>)
        requires
            self.fits(),
        ensures
            r@ == spec_plan(self.width, self.height),
    {
        proof {
            self.lemma_sizes();
        }
        let w = self.width;
        let h = self.height;
        let wg_count_1d = div_ceil(w * h, WORKGROUP_SIZE_1D);
        let wg_x_2d = div_ceil(w, WORKGROUP_SIDE_2D);
        let wg_y_2d = div_ceil(h, WORKGROUP_SIDE_2D);
        let steps = ITERATIONS_PER_FRAME * PASSES_PER_STEP;
        let mut r: Vec<Dispatch> = Vec::new();
        let mut i: u32 = 0;
        while i < steps
            invariant
                steps == ITERATIONS_PER_FRAME * PASSES_PER_STEP,
                w == self.width && h == self.height,
                wg_count_1d == spec_div_ceil(w * h, WORKGROUP_SIZE_1D as int),
                0 <= i <= steps,
                r@.len() == i,
                forall|k: int| 0 <= k < i ==> #[trigger] r@[k] == spec_pass(w, h, k),
            decreases steps - i,
        {
            let bg = step_bind_group(i % PASSES_PER_STEP);
            r.push(Dispatch { pipeline: bg.pipeline(), bind_group: bg, x: wg_count_1d, y: 1, z: 1 });
            i = i + 1;
        }
        r.push(
            Dispatch {
                pipeline: HeatPipeline::Heatmap,
                bind_group: HeatBindGroup::Heatmap,
                x: wg_x_2d,
                y: wg_y_2d,
                z: 1,
            },
        );
        assert(r@ =~= spec_plan(w, h));
        r
    }

    /// The value of an integer uniform buffer: the grid's width, its height, or the
    /// padding per heatmap row. `None` for the other buffers.
    pub fn integer_uniform(&self, buffer: HeatBuffer) -> (r: Option<u32>)
        requires
            self.fits(),
        ensures
            r == match buffer {
                HeatBuffer::Width => Some(self.width),
                HeatBuffer::Height => Some(self.height),
                HeatBuffer::Pad => Some(self.spec_pad() as u32),
                _ => None::<u32>,
            },
    {
        match buffer {
            HeatBuffer::Width => Some(self.width),
            HeatBuffer::Height => Some(self.height),
            HeatBuffer::Pad => Some(self.pad_per_line()),
            _ => None,
        }
    }
}


/// The little-endian bytes of `v`.
pub open spec fn le_bytes(v: u32) -> Seq<u8> {
    seq![(v % 256) as u8, ((v / 256) % 256) as u8, ((v / 65536) % 256) as u8, (v / 16777216) as u8]
}

/// The big-endian bytes of `v`.
pub open spec fn be_bytes(v: u32) -> Seq<u8> {
    seq![(v / 16777216) as u8, ((v / 65536) % 256) as u8, ((v / 256) % 256) as u8, (v % 256) as u8]
}

/// The bytes of `s`, value after value, each little-endian or each big-endian.
pub open spec fn u32s_bytes(s: Seq<u32>, little_endian: bool) -> Seq<u8>
    decreases s.len(),
{
    if s.len() == 0 {
        seq![]
    } else {
        u32s_bytes(s.drop_last(), little_endian) + if little_endian {
            le_bytes(s.last())
        } else {
            be_bytes(s.last())
        }
    }
}

/// `bytes` is the memory image of `values`: four bytes per value, in the byte
/// order of the machine, which is the same for every value.
pub open spec fn is_memory_image(bytes: Seq<u8>, values: Seq<u32>) -> bool {
    bytes == u32s_bytes(values, true) || bytes == u32s_bytes(values, false)
}

/// The image of zeros is all zero bytes, four per value.
proof fn lemma_zero_image(s: Seq<u32>, little_endian: bool)
    requires
        forall|i: int| 0 <= i < s.len() ==> s[i] == 0,
    ensures
        u32s_bytes(s, little_endian).len() == 4 * s.len(),
        forall|i: int| 0 <= i < 4 * s.len() ==> #[trigger] u32s_bytes(s, little_endian)[i] == 0,
    decreases s.len(),
{
    if s.len() > 0 {
        lemma_zero_image(s.drop_last(), little_endian);
        assert(s.last() == 0);
    }
}

/// `bytemuck::cast_slice` from `u32` to `u8`: the values' memory bytes. From `u32`
/// to `u8` the cast never fails (the target's alignment is 1 and every length
/// divides). The contract states that the bytes are each value's four bytes in one
/// byte order, little- or big-endian; which one is the target's, and is left open.
#[verifier::external_body]
fn cast_u32s_to_bytes(data: &[u32]) -> (r: Vec<u8>)
    ensures
        is_memory_image(r@, data@),
{
    bytemuck::cast_slice::<u32, u8>(data).to_vec()
}

impl HeatGrid {
    /// The initial contents of an integer uniform buffer: the memory image of its
    /// value. `None` for the other buffers.
    pub fn uniform_bytes(&self, buffer: HeatBuffer) -> (r: Option<Vec<u8>>)
        requires
            self.fits(),
        ensures
            match buffer {
                HeatBuffer::Width => r is Some && is_memory_image(r->0@, seq![self.width]),
                HeatBuffer::Height => r is Some && is_memory_image(r->0@, seq![self.height]),
                HeatBuffer::Pad => r is Some && is_memory_image(r->0@, seq![self.spec_pad() as u32]),
                _ => r is None,
            },
    {
        match self.integer_uniform(buffer) {
            Some(v) => {
                let values: Vec<u32> = vec![v];
                let bytes = cast_u32s_to_bytes(values.as_slice());
                assert(values@ =~= seq![v]);
                Some(bytes)
            },
            None => None,
        }
    }

    /// The initial contents of the heatmap buffer: every texel zero.
    pub fn heatmap_bytes(&self) -> (r: Vec<u8>)
        requires
            self.fits(),
        ensures
            r@.len() == 4 * ((self.width + self.spec_pad()) * self.height),
            forall|i: int| 0 <= i < r@.len() ==> #[trigger] r@[i] == 0,
    {
        let n = self.heatmap_len();
        let mut texels: Vec<u32> = Vec::new();
        let mut i: usize = 0;
        while i < n
            invariant
                0 <= i <= n,
                texels@.len() == i,
                forall|k: int| 0 <= k < i ==> #[trigger] texels@[k] == 0,
            decreases n - i,
        {
            texels.push(0);
            i = i + 1;
        }
        let bytes = cast_u32s_to_bytes(texels.as_slice());
        proof {
            lemma_zero_image(texels@, true);
            lemma_zero_image(texels@, false);
        }
        bytes
    }
}


/// Every pass of a frame runs on the pipeline its bind group was made for, and a
/// frame is the solver's passes, step after step, then the heatmap.
pub proof fn law_plan_consistent(w: u32, h: u32)
    ensures
        spec_plan(w, h).len() == ITERATIONS_PER_FRAME * PASSES_PER_STEP + 1,
        forall|i: int|
            0 <= i < spec_plan(w, h).len() ==> (#[trigger] spec_plan(w, h)[i]).pipeline
                == spec_pipeline_of(spec_plan(w, h)[i].bind_group),
        forall|s: int, k: int|
            0 <= s < ITERATIONS_PER_FRAME && 0 <= k < PASSES_PER_STEP ==> #[trigger] spec_plan(w, h)[s
                * PASSES_PER_STEP + k].bind_group == spec_step_bind_group(k),
        spec_plan(w, h).last().bind_group == HeatBindGroup::Heatmap,
{
    assert forall|s: int, k: int|
        0 <= s < ITERATIONS_PER_FRAME && 0 <= k < PASSES_PER_STEP implies #[trigger] spec_plan(w, h)[s
        * PASSES_PER_STEP + k].bind_group == spec_step_bind_group(k) by {
        assert((s * 6 + k) % 6 == k) by (nonlinear_arith)
            requires
                0 <= k < 6,
                0 <= s,
        ;
        assert(s * 6 + k < 48) by (nonlinear_arith)
            requires
                0 <= k < 6,
                0 <= s < 8,
        ;
    }
}

/// The workgroups of every pass cover the whole grid, and a one-dimensional pass
/// launches fewer than one workgroup more than it needs.
pub proof fn law_plan_covers_grid(grid: HeatGrid)
    requires
        grid.fits(),
    ensures
        forall|i: int|
            0 <= i < ITERATIONS_PER_FRAME * PASSES_PER_STEP ==> (#[trigger] spec_plan(grid.width, grid.height)[i]).x
                * WORKGROUP_SIZE_1D >= grid.width * grid.height && spec_plan(grid.width, grid.height)[i].x
                * WORKGROUP_SIZE_1D < grid.width * grid.height + WORKGROUP_SIZE_1D,
        spec_plan(grid.width, grid.height).last().x * WORKGROUP_SIDE_2D >= grid.width,
        spec_plan(grid.width, grid.height).last().y * WORKGROUP_SIDE_2D >= grid.height,
{
    grid.lemma_sizes();
    let w = grid.width as int;
    let h = grid.height as int;
    let n = w * h;
    let c = spec_div_ceil(n, 64);
    assert(c * 64 >= n && c * 64 < n + 64) by (nonlinear_arith)
        requires
            c == (n + 63) / 64,
            n >= 0,
    ;
    assert(0 <= c <= u32::MAX) by (nonlinear_arith)
        requires
            c == (n + 63) / 64,
            0 <= n <= u32::MAX,
    ;
    let cx = spec_div_ceil(w, 8);
    let cy = spec_div_ceil(h, 8);
    assert(cx * 8 >= w && 0 <= cx <= u32::MAX) by (nonlinear_arith)
        requires
            cx == (w + 7) / 8,
            0 <= w <= u32::MAX,
    ;
    assert(cy * 8 >= h && 0 <= cy <= u32::MAX) by (nonlinear_arith)
        requires
            cy == (h + 7) / 8,
            0 <= h <= u32::MAX,
    ;
}

/// Within a solver step each pass hands its result to the next: the Laplacian at
/// time t (binding 1 of the Laplacian pass) is the half step's input (its binding 1),
/// the half step's result (binding 2) is where the midpoint Laplacian reads
/// (binding 0), the midpoint Laplacian (binding 1) is the full step's input
/// (binding 1), the full step's result (binding 2) is what the copy reads (binding 0),
/// and the copy writes (binding 1) the temperatures that the boundary pass, both
/// steps and the heatmap read (binding 0).
pub proof fn law_step_data_flow()
    ensures
        spec_buffers_of(HeatBindGroup::Laplacian)[1] == spec_buffers_of(HeatBindGroup::IterateHalf)[1],
        spec_buffers_of(HeatBindGroup::IterateHalf)[2] == spec_buffers_of(
            HeatBindGroup::MidpointLaplacian,
        )[0],
        spec_buffers_of(HeatBindGroup::MidpointLaplacian)[1] == spec_buffers_of(
            HeatBindGroup::IterateFull,
        )[1],
        spec_buffers_of(HeatBindGroup::IterateFull)[2] == spec_buffers_of(HeatBindGroup::Copy)[0],
        spec_buffers_of(HeatBindGroup::Copy)[1] == spec_buffers_of(HeatBindGroup::Boundary)[0],
        spec_buffers_of(HeatBindGroup::Copy)[1] == spec_buffers_of(HeatBindGroup::Laplacian)[0],
        spec_buffers_of(HeatBindGroup::Copy)[1] == spec_buffers_of(HeatBindGroup::IterateHalf)[0],
        spec_buffers_of(HeatBindGroup::Copy)[1] == spec_buffers_of(HeatBindGroup::IterateFull)[0],
        spec_buffers_of(HeatBindGroup::Copy)[1] == spec_buffers_of(HeatBindGroup::Heatmap)[0],
{
}


/// The copy of the heatmap buffer into the texture: the layout of the buffer
/// (bytes per row, rows per image) and the extent of the texture written.
#[derive(Debug, Clone, Copy, PartialEq, Eq, Structural)]
pub struct HeatmapCopy {
    pub bytes_per_row: u32,
    pub rows_per_image: u32,
    pub width: u32,
    pub height: u32,
    pub depth: u32,
}

impl HeatGrid {
    /// How the heatmap reaches the texture: the buffer holds `height` rows of
    /// `width + pad` texels, and the whole `width` by `height` texture is written.
    /// The rows are as wide as a copy requires, and the copy reads exactly the
    /// bytes of the heatmap buffer.
    pub fn heatmap_copy(&self) -> (r: HeatmapCopy)
        requires
            self.fits(),
        ensures
            r.bytes_per_row == BYTES_PER_TEXEL * (self.width + self.spec_pad()),
            r.rows_per_image == self.height,
            r.width == self.width,
            r.height == self.height,
            r.depth == 1,
            r.bytes_per_row % COPY_ROW_ALIGNMENT == 0,
            r.width * BYTES_PER_TEXEL <= r.bytes_per_row,
            r.bytes_per_row * r.rows_per_image == BYTES_PER_TEXEL * ((self.width + self.spec_pad())
                * self.height),
    {
        proof {
            self.lemma_sizes();
        }
        let pad = self.pad_per_line();
        let row = self.width + pad;
        let bytes_per_row = BYTES_PER_TEXEL * row;
        proof {
            assert((4 * row) % 256 == 0) by (nonlinear_arith)
                requires
                    row % 64 == 0,
            ;
            assert(bytes_per_row * self.height == 4 * (row * self.height)) by (nonlinear_arith)
                requires
                    bytes_per_row == 4 * row,
            ;
        }
        HeatmapCopy {
            bytes_per_row,
            rows_per_image: self.height,
            width: self.width,
            height: self.height,
            depth: 1,
        }
    }
}


/// The half step advances by half the time step and the full step by the whole
/// time step, both with the diffusivity; the heatmap maps temperatures from the
/// coldest drawn (`MinT`) to the hottest drawn (`MaxT`), in that binding order,
/// and pads its rows by `Pad`.
pub proof fn law_time_steps_and_colour_range()
    ensures
        spec_buffers_of(HeatBindGroup::IterateHalf)[5] == HeatBuffer::HalfDeltaT,
        spec_buffers_of(HeatBindGroup::IterateFull)[5] == HeatBuffer::DeltaT,
        spec_buffers_of(HeatBindGroup::IterateHalf)[6] == HeatBuffer::Kappa,
        spec_buffers_of(HeatBindGroup::IterateFull)[6] == HeatBuffer::Kappa,
        spec_buffers_of(HeatBindGroup::IterateHalf).len() == spec_buffers_of(HeatBindGroup::IterateFull).len(),
        spec_buffers_of(HeatBindGroup::Heatmap)[4] == HeatBuffer::MinT,
        spec_buffers_of(HeatBindGroup::Heatmap)[5] == HeatBuffer::MaxT,
        spec_buffers_of(HeatBindGroup::Heatmap)[6] == HeatBuffer::Pad,
{
}

/// Every bind group binds each buffer once, and binds the grid's width, with its
/// height right after it.
pub proof fn law_bind_group_layouts(bg: HeatBindGroup)
    ensures
        forall|i: int, j: int|
            0 <= i < j < spec_buffers_of(bg).len() ==> #[trigger] spec_buffers_of(bg)[i]
                != #[trigger] spec_buffers_of(bg)[j],
        spec_buffers_of(bg).contains(HeatBuffer::Width),
        forall|k: int|
            0 <= k < spec_buffers_of(bg).len() && #[trigger] spec_buffers_of(bg)[k] == HeatBuffer::Width
                ==> k + 1 < spec_buffers_of(bg).len() && spec_buffers_of(bg)[k + 1] == HeatBuffer::Height,
{
    let b = spec_buffers_of(bg);
    match bg {
        HeatBindGroup::Boundary => {
            assert(b[1] == HeatBuffer::Width);
        },
        HeatBindGroup::IterateHalf => {
            assert(b[3] == HeatBuffer::Width);
        },
        HeatBindGroup::IterateFull => {
            assert(b[3] == HeatBuffer::Width);
        },
        _ => {
            assert(b[2] == HeatBuffer::Width);
        },
    }
}

} // verus!
