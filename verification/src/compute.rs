//! Per-frame derived configuration: the packed interaction matrix, the
//! immutable settings snapshot handed to every pipeline stage, and the grid
//! cell geometry (cell index of a position, toroidally adjacent cells).

use vstd::prelude::*;

use crate::data::{
    matrix_wf, mat_at, AccelerationMethod, SimulationSettings, BOUNDS_FACTOR_LIMIT, COEF_LIMIT,
    COLORS, COUNT_LIMIT, MAX_COLORS, MD_LIMIT, SETTING_LIMIT,
};
use crate::fixed::{UVec2, Vec2, SCALE};

verus! {

/// Number of 4-lane groups in the packed interaction matrix (the 16x16
/// coefficients, four per group, plus one group of padding).
pub const MATRIX_GROUPS: usize = MAX_COLORS * MAX_COLORS / 4 + 1;

/// The interaction matrix packed row-major into fixed-width groups of four
/// coefficients, as the execution environment's alignment rules want it.
/// Coefficient `(x, y)` lives in group `(x + y*16) / 4`, lane `(x + y*16) % 4`.
#[derive(Clone, Debug)]
pub struct ColorMatrix {
    groups: Vec<i64>,
}

/// Flat storage position of coefficient `(x, y)`: group index times four
/// plus the lane offset.
pub open spec fn storage_index(x: int, y: int) -> int {
    ((x + y * MAX_COLORS) / 4) * 4 + (x + y * MAX_COLORS) % 4
}

/// The group/lane decomposition puts coefficient `(x, y)` exactly at flat
/// position `x + y*16`, so distinct coordinates never share a lane.
pub proof fn lemma_storage_index(x: int, y: int)
    ensures
        storage_index(x, y) == x + y * MAX_COLORS,
{
    vstd::arithmetic::div_mod::lemma_fundamental_div_mod(x + y * MAX_COLORS, 4);
}

impl ColorMatrix {
    /// The backing store always holds every group in full.
    pub closed spec fn wf(self) -> bool {
        self.groups@.len() == MATRIX_GROUPS * 4
    }

    /// The coefficient stored for colors `(x, y)`.
    pub closed spec fn get_spec(self, x: int, y: int) -> i64 {
        self.groups@[storage_index(x, y)]
    }

    /// Every coefficient is within the admitted magnitude.
    pub open spec fn bounded(self) -> bool {
        forall|x: int, y: int|
            0 <= x < MAX_COLORS && 0 <= y < MAX_COLORS ==> -COEF_LIMIT <= #[trigger] self.get_spec(
                x,
                y,
            ) <= COEF_LIMIT
    }

    /// Store coefficient `value` for the color pair `(x, y)`; every other
    /// pair keeps its coefficient.
    pub fn set(&mut self, x: usize, y: usize, value: i64)
        requires
            old(self).wf(),
            x < MAX_COLORS,
            y < MAX_COLORS,
        ensures
            final(self).wf(),
            final(self).get_spec(x as int, y as int) == value,
            forall|x2: int, y2: int|
                0 <= x2 < MAX_COLORS && 0 <= y2 < MAX_COLORS && !(x2 == x && y2 == y)
                    ==> #[trigger] final(self).get_spec(x2, y2) == old(self).get_spec(x2, y2),
    {
        let flat_index: usize = x + y * MAX_COLORS;
        let index: usize = flat_index / 4;
        let offset: usize = flat_index % 4;
        proof {
            lemma_storage_index(x as int, y as int);
            vstd::arithmetic::div_mod::lemma_fundamental_div_mod(flat_index as int, 4);
            assert forall|x2: int, y2: int|
                0 <= x2 < MAX_COLORS && 0 <= y2 < MAX_COLORS && !(x2 == x && y2 == y) implies
                storage_index(x2, y2) != storage_index(x as int, y as int) by {
                lemma_storage_index(x2, y2);
            }
        }
        self.groups.set(index * 4 + offset, value);
    }

    /// Read back the coefficient stored for the color pair `(x, y)`,
    /// unpacking the same group and lane that `set` filled.
    pub fn get(&self, x: usize, y: usize) -> (r: i64)
        requires
            self.wf(),
            x < MAX_COLORS,
            y < MAX_COLORS,
        ensures
            r == self.get_spec(x as int, y as int),
    {
        let flat_index: usize = x + y * MAX_COLORS;
        let index: usize = flat_index / 4;
        let offset: usize = flat_index % 4;
        proof {
            lemma_storage_index(x as int, y as int);
            vstd::arithmetic::div_mod::lemma_fundamental_div_mod(flat_index as int, 4);
        }
        self.groups[index * 4 + offset]
    }

    /// Pack a whole row-major matrix: entry `array[y][x]` becomes the
    /// coefficient for the color pair `(x, y)`.
    pub fn from_array(array: &Vec<Vec<i64>>) -> (r: ColorMatrix)
        requires
            matrix_wf(*array),
        ensures
            r.wf(),
            forall|x: int, y: int|
                0 <= x < MAX_COLORS && 0 <= y < MAX_COLORS ==> #[trigger] r.get_spec(x, y)
                    == mat_at(*array, y, x),
            r.bounded(),
    {
        let mut this = ColorMatrix::empty();
        let mut y: usize = 0;
        while y < MAX_COLORS
            invariant
                matrix_wf(*array),
                this.wf(),
                y <= MAX_COLORS,
                forall|x2: int, y2: int|
                    0 <= x2 < MAX_COLORS && 0 <= y2 < y ==> #[trigger] this.get_spec(x2, y2)
                        == mat_at(*array, y2, x2),
            decreases MAX_COLORS - y,
        {
            let row = &array[y];
            let mut x: usize = 0;
            while x < MAX_COLORS
                invariant
                    matrix_wf(*array),
                    this.wf(),
                    y < MAX_COLORS,
                    x <= MAX_COLORS,
                    row == &array@[y as int],
                    forall|x2: int, y2: int|
                        0 <= x2 < MAX_COLORS && 0 <= y2 < y ==> #[trigger] this.get_spec(x2, y2)
                            == mat_at(*array, y2, x2),
                    forall|x2: int|
                        0 <= x2 < x ==> #[trigger] this.get_spec(x2, y as int)
                            == mat_at(*array, y as int, x2),
                decreases MAX_COLORS - x,
            {
                let value = row[x];
                this.set(x, y, value);
                x = x + 1;
            }
            y = y + 1;
        }
        this
    }

    /// A matrix with every coefficient zero.
    pub fn empty() -> (r: ColorMatrix)
        ensures
            r.wf(),
            forall|x: int, y: int|
                0 <= x < MAX_COLORS && 0 <= y < MAX_COLORS ==> #[trigger] r.get_spec(x, y) == 0,
    {
        let mut groups: Vec<i64> = Vec::new();
        while groups.len() < MATRIX_GROUPS * 4
            invariant
                groups@.len() <= MATRIX_GROUPS * 4,
                forall|i: int| 0 <= i < groups@.len() ==> #[trigger] groups@[i] == 0,
            decreases MATRIX_GROUPS * 4 - groups@.len(),
        {
            groups.push(0);
        }
        let r = ColorMatrix { groups };
        proof {
            assert forall|x: int, y: int|
                0 <= x < MAX_COLORS && 0 <= y < MAX_COLORS implies #[trigger] r.get_spec(x, y)
                == 0 by {
                lemma_storage_index(x, y);
            }
        }
        r
    }
}

impl Default for ColorMatrix {
    fn default() -> (r: Self)
        ensures
            r.wf(),
            forall|x: int, y: int|
                0 <= x < MAX_COLORS && 0 <= y < MAX_COLORS ==> #[trigger] r.get_spec(x, y) == 0,
    {
        ColorMatrix::empty()
    }
}

/// The immutable per-frame snapshot of everything the pipeline stages read.
/// All lengths are fixed-point sub-units; `decay` is the per-frame velocity
/// retention factor `0.5^(delta_time / velocity_half_life)` supplied by the
/// caller alongside the frame time.
#[derive(Clone, Debug)]
pub struct GpuSettings {
    pub delta_time: i64,
    pub particle_count: u32,
    pub min_distance: i64,
    pub max_distance: i64,
    pub max_velocity: i64,
    pub velocity_half_life: i64,
    pub decay: i64,
    pub force_factor: i64,
    pub bounds: Vec2,
    pub cell_count: UVec2,

    pub particle_size: i64,

    pub new_particles: u32,
    pub initialized_particles: u32,

    pub color_count: u32,
    pub max_color_count: u32,
    pub colors: Vec<[u8; 4]>,
    pub matrix: ColorMatrix,
    pub acceleration_method: AccelerationMethod,

    /// `min_distance / max_distance` as a fixed-point fraction, always below
    /// one so the acceleration laws stay well defined.
    pub rel_min_distance: i64,
}

impl GpuSettings {
    /// The geometry and range invariant every stage relies on.
    pub open spec fn wf(self) -> bool {
        &&& SCALE <= self.max_distance <= MD_LIMIT as i64 * SCALE
        &&& self.max_distance <= self.bounds.x <= self.max_distance * BOUNDS_FACTOR_LIMIT
        &&& self.max_distance <= self.bounds.y <= self.max_distance * BOUNDS_FACTOR_LIMIT
        &&& self.bounds.x % self.max_distance == 0
        &&& self.bounds.y % self.max_distance == 0
        &&& self.cell_count.x == 2 * self.bounds.x / (self.max_distance as int)
        &&& self.cell_count.y == 2 * self.bounds.y / (self.max_distance as int)
        &&& 2 <= self.cell_count.x <= 2 * BOUNDS_FACTOR_LIMIT
        &&& 2 <= self.cell_count.y <= 2 * BOUNDS_FACTOR_LIMIT
        &&& 0 <= self.rel_min_distance < SCALE
        &&& 0 <= self.decay <= SCALE
        &&& 0 <= self.delta_time <= SETTING_LIMIT
        &&& 0 <= self.max_velocity <= SETTING_LIMIT
        &&& 0 <= self.force_factor <= SETTING_LIMIT
        &&& self.particle_count <= COUNT_LIMIT as u32
        &&& 1 <= self.color_count <= MAX_COLORS as u32
        &&& self.max_color_count == MAX_COLORS as u32
        &&& self.colors@.len() == MAX_COLORS
        &&& self.matrix.wf()
        &&& self.matrix.bounded()
    }

    /// Total number of grid cells.
    pub open spec fn total_cells(self) -> int {
        self.cell_count.x * self.cell_count.y
    }

    /// What a per-frame snapshot holds, given the settings it was taken
    /// from, the frame time, the retention factor, and the count of
    /// already-initialized particles.
    pub open spec fn snapshot_rel(
        settings: SimulationSettings,
        delta_time: i64,
        decay: i64,
        initialized_particles: u32,
        r: GpuSettings,
    ) -> bool {
        &&& r.wf()
        &&& r.delta_time == delta_time
        &&& r.decay == decay
        &&& r.particle_count == settings.particle_count
        &&& r.max_distance == settings.max_distance * SCALE
        &&& r.bounds.x == settings.bounds.x * SCALE
        &&& r.bounds.y == settings.bounds.y * SCALE
        &&& r.cell_count.x == settings.cell_count_spec().0
        &&& r.cell_count.y == settings.cell_count_spec().1
        &&& r.max_velocity == settings.max_velocity
        &&& r.velocity_half_life == settings.velocity_half_life
        &&& r.force_factor == settings.force_factor
        &&& r.particle_size == settings.particle_size
        &&& r.initialized_particles == initialized_particles
        &&& r.new_particles == if settings.particle_count > initialized_particles {
            settings.particle_count - initialized_particles
        } else {
            0
        }
        &&& r.rel_min_distance == rel_min_spec(settings)
        &&& r.color_count == settings.color_count
        &&& r.acceleration_method == settings.acceleration_method
        &&& forall|x: int, y: int|
            0 <= x < MAX_COLORS && 0 <= y < MAX_COLORS ==> #[trigger] r.matrix.get_spec(x, y)
                == mat_at(settings.matrix, y, x)
        &&& forall|i: int| 0 <= i < MAX_COLORS ==> #[trigger] r.colors@[i] == COLORS@[i]
    }

    /// Build the per-frame snapshot from the current settings, the frame
    /// time, the precomputed velocity retention factor for that frame time,
    /// and the count of already-initialized particles.
    pub fn snapshot(
        settings: &SimulationSettings,
        delta_time: i64,
        decay: i64,
        initialized_particles: u32,
    ) -> (r: GpuSettings)
        requires
            settings.wf(),
            0 <= delta_time <= SETTING_LIMIT,
            0 <= decay <= SCALE,
        ensures
            GpuSettings::snapshot_rel(*settings, delta_time, decay, initialized_particles, r),
    {
        let cell_count = settings.cell_count();
        let md_su: i64 = settings.max_distance as i64 * SCALE;
        let bx_su: i64 = settings.bounds.x as i64 * SCALE;
        let by_su: i64 = settings.bounds.y as i64 * SCALE;
        let min_su_capped: i64 = if settings.min_distance as i64 > settings.max_distance as i64 {
            settings.max_distance as i64
        } else {
            settings.min_distance as i64
        };
        let rel_raw: i64 = min_su_capped * SCALE / settings.max_distance as i64;
        let rel_min_distance: i64 = if rel_raw > SCALE - 1 {
            SCALE - 1
        } else {
            rel_raw
        };
        proof {
            assert(0 <= min_su_capped * SCALE) by (nonlinear_arith)
                requires min_su_capped >= 0;
            assert(min_su_capped * SCALE <= 0x10_0000 * SCALE) by (nonlinear_arith)
                requires 0 <= min_su_capped <= 0x10_0000;
            vstd::arithmetic::div_mod::lemma_div_is_ordered(
                0,
                min_su_capped * SCALE,
                settings.max_distance as int,
            );
            lemma_bounds_scale(
                settings.bounds.x as int,
                settings.max_distance as int,
                SCALE as int,
            );
            lemma_bounds_scale(
                settings.bounds.y as int,
                settings.max_distance as int,
                SCALE as int,
            );
        }
        let mut colors: Vec<[u8; 4]> = Vec::new();
        let mut i: usize = 0;
        while i < MAX_COLORS
            invariant
                i <= MAX_COLORS,
                colors@.len() == i,
                forall|j: int| 0 <= j < i ==> #[trigger] colors@[j] == COLORS@[j],
            decreases MAX_COLORS - i,
        {
            colors.push(COLORS[i]);
            i = i + 1;
        }
        GpuSettings {
            delta_time,
            particle_count: settings.particle_count as u32,
            min_distance: min_su_capped * SCALE,
            max_distance: md_su,
            max_velocity: settings.max_velocity,
            velocity_half_life: settings.velocity_half_life,
            decay,
            force_factor: settings.force_factor,
            bounds: Vec2::new(bx_su, by_su),
            cell_count,
            particle_size: settings.particle_size,
            new_particles: if settings.particle_count as u32 > initialized_particles {
                settings.particle_count as u32 - initialized_particles
            } else {
                0
            },
            initialized_particles,
            color_count: settings.color_count as u32,
            max_color_count: MAX_COLORS as u32,
            colors,
            matrix: ColorMatrix::from_array(&settings.matrix),
            acceleration_method: settings.acceleration_method,
            rel_min_distance,
        }
    }
}

/// The relative minimum distance a snapshot derives: the capped ratio of
/// minimum to maximum distance, as a fixed-point fraction strictly below one.
pub open spec fn rel_min_spec(settings: SimulationSettings) -> int {
    let capped = if settings.min_distance > settings.max_distance {
        settings.max_distance as int
    } else {
        settings.min_distance as int
    };
    let raw = capped * SCALE / (settings.max_distance as int);
    if raw > SCALE - 1 {
        SCALE - 1
    } else {
        raw
    }
}

/// Scaling both the half-extent and the cell side by the same factor keeps
/// the divisibility, the ratio bounds, and the cell counts.
proof fn lemma_bounds_scale(b: int, md: int, k: int)
    requires
        1 <= md,
        k >= 1,
        md <= b <= md * BOUNDS_FACTOR_LIMIT,
        b % md == 0,
    ensures
        (b * k) % (md * k) == 0,
        md * k <= b * k <= (md * k) * BOUNDS_FACTOR_LIMIT,
        2 * (b * k) / (md * k) == 2 * b / md,
{
    let q = b / md;
    vstd::arithmetic::div_mod::lemma_fundamental_div_mod(b, md);
    assert(b == md * q);
    assert(1 <= q <= BOUNDS_FACTOR_LIMIT) by (nonlinear_arith)
        requires
            b == md * q,
            1 <= md,
            md <= b <= md * BOUNDS_FACTOR_LIMIT,
    ;
    assert(b * k == (md * k) * q) by (nonlinear_arith)
        requires b == md * q;
    assert(md * k >= 1) by (nonlinear_arith)
        requires md >= 1, k >= 1;
    vstd::arithmetic::div_mod::lemma_mod_multiples_basic(q, md * k);
    assert((b * k) % (md * k) == ((md * k) * q) % (md * k));
    assert(md * k <= b * k && b * k <= (md * k) * BOUNDS_FACTOR_LIMIT) by (nonlinear_arith)
        requires
            b * k == (md * k) * q,
            1 <= q <= BOUNDS_FACTOR_LIMIT,
            md * k >= 1,
    ;
    assert(2 * (b * k) == (md * k) * (2 * q)) by (nonlinear_arith)
        requires b * k == (md * k) * q;
    vstd::arithmetic::div_mod::lemma_div_multiples_vanish(2 * q, md * k);
    assert(2 * b == md * (2 * q)) by (nonlinear_arith)
        requires b == md * q;
    vstd::arithmetic::div_mod::lemma_div_multiples_vanish(2 * q, md);
}

/// The grid cell index of a position: each axis is offset by the half-extent,
/// divided by the cell side and clamped into the cell range, then the two
/// axes are flattened as `x + y * cell_count.x`.
pub open spec fn axis_cell_spec(p: int, bound: int, cell_w: int, cells: int) -> int {
    let t = if p + bound < 0 {
        0
    } else if p + bound > 2 * bound {
        2 * bound
    } else {
        p + bound
    };
    let ix = t / cell_w;
    if ix > cells - 1 {
        cells - 1
    } else {
        ix
    }
}

/// Flattened grid cell index of `position` under snapshot `settings`.
pub open spec fn cell_index_spec(settings: GpuSettings, position: Vec2) -> int {
    axis_cell_spec(
        position.x as int,
        settings.bounds.x as int,
        settings.max_distance as int,
        settings.cell_count.x as int,
    ) + axis_cell_spec(
        position.y as int,
        settings.bounds.y as int,
        settings.max_distance as int,
        settings.cell_count.y as int,
    ) * settings.cell_count.x
}

fn axis_cell(p: i64, bound: i64, cell_w: i64, cells: u32) -> (r: u32)
    requires
        SCALE <= cell_w,
        cell_w <= bound <= 0x1000_0000_0000_0000,
        cells == 2 * bound / (cell_w as int),
        2 <= cells <= 2 * BOUNDS_FACTOR_LIMIT,
    ensures
        r == axis_cell_spec(p as int, bound as int, cell_w as int, cells as int),
        r < cells,
        -bound <= p <= bound ==> r == (if (p + bound) / (cell_w as int) > cells - 1 {
            cells - 1
        } else {
            (p + bound) / (cell_w as int)
        }),
{
    let t: i64 = if p < -bound {
        0
    } else if p > bound {
        2 * bound
    } else {
        p + bound
    };
    let ix: u64 = t as u64 / cell_w as u64;
    proof {
        vstd::arithmetic::div_mod::lemma_div_is_ordered(0, t as int, cell_w as int);
        vstd::arithmetic::div_mod::lemma_div_is_ordered(t as int, 2 * bound, cell_w as int);
    }
    if ix as u32 > cells - 1 {
        cells - 1
    } else {
        ix as u32
    }
}

/// Compute the flattened grid cell index of a particle position. The
/// position is clamped onto the world box first, so the result is always a
/// valid cell even if rounding pushed the position just outside; for a
/// position inside the bounds it is exactly
/// `floor((position + bounds) / max_distance)` per axis (the very last cell
/// absorbing the far boundary).
pub fn cell_index(settings: &GpuSettings, position: Vec2) -> (r: u32)
    requires
        settings.wf(),
    ensures
        r == cell_index_spec(*settings, position),
        r < settings.total_cells(),
{
    let ix = axis_cell(
        position.x,
        settings.bounds.x,
        settings.max_distance,
        settings.cell_count.x,
    );
    let iy = axis_cell(
        position.y,
        settings.bounds.y,
        settings.max_distance,
        settings.cell_count.y,
    );
    proof {
        assert(ix + iy * settings.cell_count.x < settings.cell_count.x * settings.cell_count.y
            && settings.cell_count.x * settings.cell_count.y <= 0x1000_0000)
            by (nonlinear_arith)
            requires
                ix < settings.cell_count.x,
                iy < settings.cell_count.y,
                0 < settings.cell_count.x <= 4096,
                0 < settings.cell_count.y <= 4096,
        ;
    }
    ix + iy * settings.cell_count.x
}

/// The 2D grid cell coordinates of a particle position, the two clamped
/// axis cells that `cell_index` flattens.
pub fn cell_coords(settings: &GpuSettings, position: Vec2) -> (r: UVec2)
    requires
        settings.wf(),
    ensures
        r.x == axis_cell_spec(
            position.x as int,
            settings.bounds.x as int,
            settings.max_distance as int,
            settings.cell_count.x as int,
        ),
        r.y == axis_cell_spec(
            position.y as int,
            settings.bounds.y as int,
            settings.max_distance as int,
            settings.cell_count.y as int,
        ),
        r.x < settings.cell_count.x,
        r.y < settings.cell_count.y,
{
    let ix = axis_cell(
        position.x,
        settings.bounds.x,
        settings.max_distance,
        settings.cell_count.x,
    );
    let iy = axis_cell(
        position.y,
        settings.bounds.y,
        settings.max_distance,
        settings.cell_count.y,
    );
    UVec2::new(ix, iy)
}

/// The previous coordinate on a toroidal axis of `n` cells.
pub open spec fn prev_wrap(v: int, n: int) -> int {
    (v - 1) % n
}

/// The next coordinate on a toroidal axis of `n` cells.
pub open spec fn next_wrap(v: int, n: int) -> int {
    (v + 1) % n
}

/// The nine cells of the 3x3 toroidal neighborhood of `cell`, flattened:
/// the row below, the row of the cell, the row above, each holding the
/// left/middle/right column with wrap-around on both axes.
pub fn surrounding_cells(cell: UVec2, cells: UVec2) -> (r: [u32; 9])
    requires
        cell.x < cells.x,
        cell.y < cells.y,
        cells.x as int * cells.y as int <= 0x1000_0000,
    ensures
        r@.len() == 9,
        forall|k: int| 0 <= k < 9 ==> #[trigger] r@[k] < cells.x as int * cells.y as int,
        r@[0] == prev_wrap(cell.x as int, cells.x as int) + prev_wrap(cell.y as int, cells.y as int) * cells.x,
        r@[1] == cell.x + prev_wrap(cell.y as int, cells.y as int) * cells.x,
        r@[2] == next_wrap(cell.x as int, cells.x as int) + prev_wrap(cell.y as int, cells.y as int) * cells.x,
        r@[3] == prev_wrap(cell.x as int, cells.x as int) + cell.y * cells.x,
        r@[4] == cell.x + cell.y * cells.x,
        r@[5] == next_wrap(cell.x as int, cells.x as int) + cell.y * cells.x,
        r@[6] == prev_wrap(cell.x as int, cells.x as int) + next_wrap(cell.y as int, cells.y as int) * cells.x,
        r@[7] == cell.x + next_wrap(cell.y as int, cells.y as int) * cells.x,
        r@[8] == next_wrap(cell.x as int, cells.x as int) + next_wrap(cell.y as int, cells.y as int) * cells.x,
{
    let minus_x: u32 = if cell.x == 0 { cells.x - 1 } else { cell.x - 1 };
    let minus_y: u32 = if cell.y == 0 { cells.y - 1 } else { cell.y - 1 };
    let plus_x: u32 = if cell.x + 1 == cells.x { 0 } else { cell.x + 1 };
    let plus_y: u32 = if cell.y + 1 == cells.y { 0 } else { cell.y + 1 };
    let middle_x: u32 = cell.x;
    let middle_y: u32 = cell.y;

    proof {
        lemma_wrap_neighbors(cell.x as int, cells.x as int);
        lemma_wrap_neighbors(cell.y as int, cells.y as int);
        let nx = cells.x as int;
        let ny = cells.y as int;
        assert((ny - 1) * nx + (nx - 1) < nx * ny) by (nonlinear_arith)
            requires nx >= 1, ny >= 1;
        assert(minus_y as int * nx <= (ny - 1) * nx) by (nonlinear_arith)
            requires minus_y as int <= ny - 1, nx >= 0;
        assert(middle_y as int * nx <= (ny - 1) * nx) by (nonlinear_arith)
            requires middle_y as int <= ny - 1, nx >= 0;
        assert(plus_y as int * nx <= (ny - 1) * nx) by (nonlinear_arith)
            requires plus_y as int <= ny - 1, nx >= 0;
    }

    let below: u32 = minus_y * cells.x;
    let middle: u32 = middle_y * cells.x;
    let above: u32 = plus_y * cells.x;

    [
        minus_x + below,
        middle_x + below,
        plus_x + below,
        minus_x + middle,
        middle_x + middle,
        plus_x + middle,
        minus_x + above,
        middle_x + above,
        plus_x + above,
    ]
}

/// On an axis of `n` cells, stepping one cell down or up from a valid
/// coordinate wraps exactly as the euclidean remainder does.
proof fn lemma_wrap_neighbors(v: int, n: int)
    requires
        0 <= v < n,
    ensures
        prev_wrap(v, n) == if v == 0 { n - 1 } else { v - 1 },
        next_wrap(v, n) == if v + 1 == n { 0 } else { v + 1 },
        0 <= prev_wrap(v, n) < n,
        0 <= next_wrap(v, n) < n,
{
    if v == 0 {
        assert((-1) % n == n - 1) by {
            vstd::arithmetic::div_mod::lemma_mod_add_multiples_vanish(-1, n);
            vstd::arithmetic::div_mod::lemma_small_mod((n - 1) as nat, n as nat);
        }
    } else {
        vstd::arithmetic::div_mod::lemma_small_mod((v - 1) as nat, n as nat);
    }
    if v + 1 == n {
        vstd::arithmetic::div_mod::lemma_mod_self_0(n);
    } else {
        vstd::arithmetic::div_mod::lemma_small_mod((v + 1) as nat, n as nat);
    }
}

} // verus!
