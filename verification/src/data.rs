//! Core data model: particles, colors, and the user-editable simulation
//! settings with their invariants.

use vstd::prelude::*;

use crate::fixed::{UVec2, Vec2, SCALE};
use crate::rng::{choose_palette_colors, rand_i64_in, shuffle_color_ids};

verus! {

/// Number of entries in the fixed color palette.
pub const MAX_COLORS: usize = 16;

/// The fixed color palette (RGBA), indexed by `ColorId`.
pub const COLORS: [[u8; 4]; 16] = [
    [5, 150, 105, 255],
    [37, 99, 235, 255],
    [147, 51, 234, 255],
    [219, 39, 119, 255],
    [217, 119, 6, 255],
    [13, 148, 136, 255],
    [8, 145, 178, 255],
    [192, 38, 211, 255],
    [22, 163, 74, 255],
    [79, 70, 229, 255],
    [101, 163, 13, 255],
    [225, 29, 72, 255],
    [2, 132, 199, 255],
    [234, 88, 12, 255],
    [124, 58, 237, 255],
    [202, 138, 4, 255],
];

/// Largest admitted `max_distance`, in world units.
pub const MD_LIMIT: u32 = 1048576;

/// Largest admitted ratio `bounds / max_distance` per axis, so that each axis
/// has at most 4096 grid cells.
pub const BOUNDS_FACTOR_LIMIT: u32 = 2048;

/// Largest admitted magnitude of an interaction coefficient, in fixed-point
/// sub-units.
pub const COEF_LIMIT: i64 = 32 * SCALE;

/// Largest admitted particle count.
pub const COUNT_LIMIT: usize = 0x4000_0000;

/// Largest admitted magnitude for the fixed-point velocity, force factor,
/// size and time settings.
pub const SETTING_LIMIT: i64 = 0x4000_0000;

/// Index into the color palette.
#[derive(Clone, Copy, Debug, PartialEq, Eq, Structural, Hash)]
pub struct ColorId {
    pub id: u32,
}

impl ColorId {
    pub fn new(id: u32) -> (r: Self)
        ensures
            r.id == id,
    {
        Self { id }
    }
}

/// How a particle is rasterized by the external renderer.
#[derive(Clone, Copy, Debug, PartialEq, Eq, Structural)]
pub enum Shape {
    Circle,
    Square,
}

/// The six selectable acceleration laws.
#[derive(Clone, Copy, Debug, PartialEq, Eq, Structural, Hash)]
pub enum AccelerationMethod {
    R1,
    R2,
    R3,
    Deg90,
    Attr,
    Planets,
}

/// One simulated particle. Positions and velocities are fixed-point
/// sub-units (see `fixed::SCALE`).
#[derive(Clone, Copy, Debug, PartialEq, Eq, Structural)]
pub struct Particle {
    pub position: Vec2,
    pub velocity: Vec2,
    pub color: ColorId,
}

impl Particle {
    pub fn new(position: Vec2, velocity: Vec2, color: ColorId) -> (r: Particle)
        ensures
            r.position == position,
            r.velocity == velocity,
            r.color == color,
    {
        Particle { position, velocity, color }
    }
}

/// The user-editable settings of the simulation, one logical instance.
///
/// `bounds` are the half-extents of the toroidal world in world units and are
/// kept as exact multiples of `max_distance` on each axis, so that the
/// 3x3-neighbor-cell assumption of the spatial grid is exact.
#[derive(Clone, Debug)]
pub struct SimulationSettings {
    pub particle_count: usize,
    pub bounds: UVec2,
    pub max_distance: u32,
    pub min_distance: u32,
    pub max_velocity: i64,
    pub velocity_half_life: i64,
    pub force_factor: i64,
    pub max_attractions: u32,
    pub acceleration_method: AccelerationMethod,

    pub color_count: usize,
    pub color_order: Vec<ColorId>,
    pub matrix: Vec<Vec<i64>>,

    pub particle_size: i64,
    pub shape: Shape,
    pub circle_corners: u32,
    pub rgb: bool,
    pub rgb_speed: i64,
}

/// The coefficient at row `y`, column `x` of an interaction matrix.
pub open spec fn mat_at(m: Vec<Vec<i64>>, y: int, x: int) -> i64 {
    m@[y]@[x]
}

/// Shape and range invariant of an interaction matrix.
pub open spec fn matrix_wf(m: Vec<Vec<i64>>) -> bool {
    &&& m@.len() == MAX_COLORS
    &&& forall|i: int| 0 <= i < m@.len() ==> (#[trigger] m@[i])@.len() == MAX_COLORS
    &&& forall|i: int, j: int|
        0 <= i < m@.len() && 0 <= j < m@[i]@.len() ==> -COEF_LIMIT <= #[trigger] m@[i]@[j]
            <= COEF_LIMIT
}

impl SimulationSettings {
    /// The invariant every settings value handed to the engine satisfies.
    pub open spec fn wf(self) -> bool {
        &&& 1 <= self.max_distance <= MD_LIMIT
        &&& self.bounds.x % self.max_distance == 0
        &&& self.bounds.y % self.max_distance == 0
        &&& self.max_distance <= self.bounds.x <= self.max_distance * BOUNDS_FACTOR_LIMIT
        &&& self.max_distance <= self.bounds.y <= self.max_distance * BOUNDS_FACTOR_LIMIT
        &&& 1 <= self.color_count <= MAX_COLORS
        &&& self.color_order@.len() == MAX_COLORS
        &&& matrix_wf(self.matrix)
        &&& self.particle_count <= COUNT_LIMIT
        &&& 0 <= self.max_velocity <= SETTING_LIMIT
        &&& 1 <= self.velocity_half_life <= SETTING_LIMIT
        &&& 0 <= self.force_factor <= SETTING_LIMIT
        &&& 0 <= self.particle_size <= SETTING_LIMIT
    }

    pub fn max_distance(&self) -> (r: u32)
        ensures
            r == self.max_distance,
    {
        self.max_distance
    }

    pub fn bounds(&self) -> (r: UVec2)
        ensures
            r == self.bounds,
    {
        self.bounds
    }

    /// Number of grid cells per axis: the world spans `[-bounds, bounds]`,
    /// split into cells of side `max_distance`.
    pub open spec fn cell_count_spec(self) -> (int, int) {
        (
            2 * self.bounds.x / self.max_distance as int,
            2 * self.bounds.y / self.max_distance as int,
        )
    }

    pub fn cell_count(&self) -> (r: UVec2)
        requires
            self.wf(),
        ensures
            r.x == self.cell_count_spec().0,
            r.y == self.cell_count_spec().1,
            2 <= r.x <= 2 * BOUNDS_FACTOR_LIMIT,
            2 <= r.y <= 2 * BOUNDS_FACTOR_LIMIT,
    {
        let cx: u64 = 2 * self.bounds.x as u64 / self.max_distance as u64;
        let cy: u64 = 2 * self.bounds.y as u64 / self.max_distance as u64;
        proof {
            lemma_div_multiple_bounds(self.bounds.x as int, self.max_distance as int);
            lemma_div_multiple_bounds(self.bounds.y as int, self.max_distance as int);
        }
        UVec2::new(cx as u32, cy as u32)
    }

    pub fn get_color(&self, color_id: ColorId) -> (r: [u8; 4])
        requires
            color_id.id < 16,
        ensures
            r == COLORS@[color_id.id as int],
    {
        COLORS[color_id.id as usize]
    }

    /// Shuffle the palette order at random; the same sixteen ids remain
    /// present afterwards.
    pub fn randomize_colors(&mut self)
        ensures
            final(self).color_order@.len() == old(self).color_order@.len(),
            final(self).color_order@.to_multiset() == old(self).color_order@.to_multiset(),
            unchanged_but_color_order(*old(self), *final(self)),
    {
        shuffle_color_ids(&mut self.color_order);
    }

    /// Replace every interaction coefficient with a fresh random value in
    /// `[-1, 1)` (fixed-point).
    pub fn randomize_attractions(&mut self)
        ensures
            matrix_wf(final(self).matrix),
            forall|i: int, j: int|
                0 <= i < MAX_COLORS && 0 <= j < MAX_COLORS
                    ==> -SCALE <= #[trigger] mat_at(final(self).matrix, i, j) < SCALE,
            unchanged_but_matrix(*old(self), *final(self)),
    {
        let mut m: Vec<Vec<i64>> = Vec::new();
        while m.len() < MAX_COLORS
            invariant
                m@.len() <= MAX_COLORS,
                forall|i: int| 0 <= i < m@.len() ==> (#[trigger] m@[i])@.len() == MAX_COLORS,
                forall|i: int, j: int|
                    0 <= i < m@.len() && 0 <= j < MAX_COLORS
                        ==> -SCALE <= #[trigger] m@[i]@[j] < SCALE,
            decreases MAX_COLORS - m@.len(),
        {
            let mut row: Vec<i64> = Vec::new();
            while row.len() < MAX_COLORS
                invariant
                    row@.len() <= MAX_COLORS,
                    forall|j: int| 0 <= j < row@.len() ==> -SCALE <= #[trigger] row@[j] < SCALE,
                decreases MAX_COLORS - row@.len(),
            {
                let v: i64 = rand_i64_in(-SCALE, SCALE);
                row.push(v);
            }
            m.push(row);
        }
        self.matrix = m;
    }

    /// Reset every interaction coefficient to zero.
    pub fn reset_attractions(&mut self)
        ensures
            matrix_wf(final(self).matrix),
            forall|i: int, j: int|
                0 <= i < MAX_COLORS && 0 <= j < MAX_COLORS
                    ==> #[trigger] mat_at(final(self).matrix, i, j) == 0,
            unchanged_but_matrix(*old(self), *final(self)),
    {
        self.matrix = zero_matrix();
    }

    /// Re-snap the world half-extents to the nearest multiple of
    /// `max_distance`, clamped so that each axis keeps between 1 and
    /// `BOUNDS_FACTOR_LIMIT` multiples.
    pub fn update_bounds(&mut self, bounds: UVec2)
        requires
            1 <= old(self).max_distance <= MD_LIMIT,
        ensures
            final(self).bounds.x == round_bound_spec(
                bounds.x as int,
                old(self).max_distance as int,
            ),
            final(self).bounds.y == round_bound_spec(
                bounds.y as int,
                old(self).max_distance as int,
            ),
            final(self).bounds.x % final(self).max_distance == 0,
            final(self).bounds.y % final(self).max_distance == 0,
            final(self).max_distance <= final(self).bounds.x <= final(self).max_distance
                * BOUNDS_FACTOR_LIMIT,
            final(self).max_distance <= final(self).bounds.y <= final(self).max_distance
                * BOUNDS_FACTOR_LIMIT,
            unchanged_but_bounds(*old(self), *final(self)),
            old(self).wf() ==> final(self).wf(),
    {
        let b0 = round_bound(bounds.x, self.max_distance);
        let b1 = round_bound(bounds.y, self.max_distance);
        self.bounds = UVec2::new(b0, b1);
    }

    /// Change the interaction cutoff distance (clamped to the admitted
    /// range) and re-snap the bounds to multiples of the new value.
    pub fn update_max_distance(&mut self, max_distance: u32)
        requires
            old(self).wf(),
        ensures
            final(self).max_distance == clamp_u32_spec(max_distance as int, 1, MD_LIMIT as int),
            final(self).bounds.x == round_bound_spec(
                old(self).bounds.x as int,
                final(self).max_distance as int,
            ),
            final(self).bounds.y == round_bound_spec(
                old(self).bounds.y as int,
                final(self).max_distance as int,
            ),
            final(self).wf(),
            unchanged_but_geometry(*old(self), *final(self)),
    {
        let md = if max_distance < 1 {
            1
        } else if max_distance > MD_LIMIT {
            MD_LIMIT
        } else {
            max_distance
        };
        self.max_distance = md;
        let b = self.bounds;
        self.update_bounds(b);
    }
}

/// All fields except `color_order` are equal.
pub open spec fn unchanged_but_color_order(a: SimulationSettings, b: SimulationSettings) -> bool {
    &&& b.particle_count == a.particle_count
    &&& b.bounds == a.bounds
    &&& b.max_distance == a.max_distance
    &&& b.min_distance == a.min_distance
    &&& b.max_velocity == a.max_velocity
    &&& b.velocity_half_life == a.velocity_half_life
    &&& b.force_factor == a.force_factor
    &&& b.max_attractions == a.max_attractions
    &&& b.acceleration_method == a.acceleration_method
    &&& b.color_count == a.color_count
    &&& b.matrix == a.matrix
    &&& b.particle_size == a.particle_size
    &&& b.shape == a.shape
    &&& b.circle_corners == a.circle_corners
    &&& b.rgb == a.rgb
    &&& b.rgb_speed == a.rgb_speed
}

/// All fields except `matrix` are equal.
pub open spec fn unchanged_but_matrix(a: SimulationSettings, b: SimulationSettings) -> bool {
    &&& b.particle_count == a.particle_count
    &&& b.bounds == a.bounds
    &&& b.max_distance == a.max_distance
    &&& b.min_distance == a.min_distance
    &&& b.max_velocity == a.max_velocity
    &&& b.velocity_half_life == a.velocity_half_life
    &&& b.force_factor == a.force_factor
    &&& b.max_attractions == a.max_attractions
    &&& b.acceleration_method == a.acceleration_method
    &&& b.color_count == a.color_count
    &&& b.color_order == a.color_order
    &&& b.particle_size == a.particle_size
    &&& b.shape == a.shape
    &&& b.circle_corners == a.circle_corners
    &&& b.rgb == a.rgb
    &&& b.rgb_speed == a.rgb_speed
}

/// All fields except `bounds` are equal.
pub open spec fn unchanged_but_bounds(a: SimulationSettings, b: SimulationSettings) -> bool {
    &&& b.particle_count == a.particle_count
    &&& b.max_distance == a.max_distance
    &&& b.min_distance == a.min_distance
    &&& b.max_velocity == a.max_velocity
    &&& b.velocity_half_life == a.velocity_half_life
    &&& b.force_factor == a.force_factor
    &&& b.max_attractions == a.max_attractions
    &&& b.acceleration_method == a.acceleration_method
    &&& b.color_count == a.color_count
    &&& b.color_order == a.color_order
    &&& b.matrix == a.matrix
    &&& b.particle_size == a.particle_size
    &&& b.shape == a.shape
    &&& b.circle_corners == a.circle_corners
    &&& b.rgb == a.rgb
    &&& b.rgb_speed == a.rgb_speed
}

/// All fields except `bounds` and `max_distance` are equal.
pub open spec fn unchanged_but_geometry(a: SimulationSettings, b: SimulationSettings) -> bool {
    &&& b.particle_count == a.particle_count
    &&& b.min_distance == a.min_distance
    &&& b.max_velocity == a.max_velocity
    &&& b.velocity_half_life == a.velocity_half_life
    &&& b.force_factor == a.force_factor
    &&& b.max_attractions == a.max_attractions
    &&& b.acceleration_method == a.acceleration_method
    &&& b.color_count == a.color_count
    &&& b.color_order == a.color_order
    &&& b.matrix == a.matrix
    &&& b.particle_size == a.particle_size
    &&& b.shape == a.shape
    &&& b.circle_corners == a.circle_corners
    &&& b.rgb == a.rgb
    &&& b.rgb_speed == a.rgb_speed
}

pub open spec fn clamp_u32_spec(v: int, lo: int, hi: int) -> int {
    if v < lo {
        lo
    } else if v > hi {
        hi
    } else {
        v
    }
}

/// `b` rounded to the nearest multiple of `md` (ties upward), clamped into
/// `[md, md * BOUNDS_FACTOR_LIMIT]`.
pub open spec fn round_bound_spec(b: int, md: int) -> int {
    clamp_u32_spec(((2 * b + md) / (2 * md)) * md, md, md * BOUNDS_FACTOR_LIMIT as int)
}

/// Round a half-extent to the nearest multiple of the cell size, clamped to
/// the admitted range.
pub fn round_bound(b: u32, md: u32) -> (r: u32)
    requires
        1 <= md <= MD_LIMIT,
    ensures
        r == round_bound_spec(b as int, md as int),
        r % md == 0,
        md <= r <= md * BOUNDS_FACTOR_LIMIT,
{
    let q: u64 = (2 * b as u64 + md as u64) / (2 * md as u64);
    proof {
        let x = 2 * (b as int) + md as int;
        let d = 2 * (md as int);
        vstd::arithmetic::div_mod::lemma_fundamental_div_mod(x, d);
        assert(d * (x / d) <= x);
        vstd::arithmetic::div_mod::lemma_div_is_ordered(0, x, d);
        let qd = x / d;
        assert(0 <= qd * (md as int) && qd * (md as int) * 2 == d * qd) by (nonlinear_arith)
            requires
                d == 2 * (md as int),
                md >= 1,
                qd >= 0,
        ;
        assert(qd * (md as int) <= x);
        assert(q as int * md as int <= 0x2_0000_0000 + 0x10_0000);
    }
    let m: u64 = q * md as u64;
    let lo: u64 = md as u64;
    let hi: u64 = md as u64 * BOUNDS_FACTOR_LIMIT as u64;
    let r: u64 = if m < lo {
        lo
    } else if m > hi {
        hi
    } else {
        m
    };
    proof {
        assert((m as int) % (md as int) == 0) by (nonlinear_arith)
            requires
                m as int == q as int * (md as int),
                md >= 1,
        ;
        crate::fixed::lemma_mul_mod_zero(1, md as int);
        crate::fixed::lemma_mul_mod_zero(BOUNDS_FACTOR_LIMIT as int, md as int);
        assert((lo as int) % (md as int) == 0);
        assert((hi as int) % (md as int) == 0);
        assert(r <= 0x1_0000_0000_0000);
    }
    r as u32
}

/// A 16x16 matrix of zero coefficients.
pub fn zero_matrix() -> (m: Vec<Vec<i64>>)
    ensures
        matrix_wf(m),
        forall|i: int, j: int|
            0 <= i < MAX_COLORS && 0 <= j < MAX_COLORS ==> #[trigger] mat_at(m, i, j) == 0,
{
    let mut m: Vec<Vec<i64>> = Vec::new();
    while m.len() < MAX_COLORS
        invariant
            m@.len() <= MAX_COLORS,
            forall|i: int| 0 <= i < m@.len() ==> (#[trigger] m@[i])@.len() == MAX_COLORS,
            forall|i: int, j: int|
                0 <= i < m@.len() && 0 <= j < MAX_COLORS ==> #[trigger] m@[i]@[j] == 0,
        decreases MAX_COLORS - m@.len(),
    {
        let mut row: Vec<i64> = Vec::new();
        while row.len() < MAX_COLORS
            invariant
                row@.len() <= MAX_COLORS,
                forall|j: int| 0 <= j < row@.len() ==> #[trigger] row@[j] == 0,
            decreases MAX_COLORS - row@.len(),
        {
            row.push(0);
        }
        m.push(row);
    }
    m
}

/// The identity palette order `0, 1, ..., 15`.
pub fn default_color_order() -> (v: Vec<ColorId>)
    ensures
        v@.len() == MAX_COLORS,
        forall|i: int| 0 <= i < MAX_COLORS ==> (#[trigger] v@[i]).id == i,
{
    let mut v: Vec<ColorId> = Vec::new();
    while v.len() < MAX_COLORS
        invariant
            v@.len() <= MAX_COLORS,
            forall|i: int| 0 <= i < v@.len() ==> (#[trigger] v@[i]).id == i,
        decreases MAX_COLORS - v@.len(),
    {
        let id: u32 = v.len() as u32;
        v.push(ColorId::new(id));
    }
    v
}

impl Default for SimulationSettings {
    /// The default settings: a 7000x4000 world (snapped from the preferred
    /// 3600x2100 half-extents to multiples of the cutoff), four colors, and
    /// the first acceleration law.
    fn default() -> (r: Self)
        ensures
            r.wf(),
            r.particle_count == 9000,
            r.max_distance == 250,
            r.min_distance == 50,
            r.color_count == 4,
            r.acceleration_method == AccelerationMethod::R1,
            r.shape == Shape::Circle,
    {
        let mut s = SimulationSettings {
            particle_count: 9000,
            bounds: UVec2 { x: 250, y: 250 },
            max_distance: 250,
            min_distance: 50,
            max_velocity: 1000 * SCALE,
            velocity_half_life: 44,
            force_factor: SCALE,
            max_attractions: 10000,
            acceleration_method: AccelerationMethod::R1,
            color_count: 4,
            color_order: default_color_order(),
            matrix: zero_matrix(),
            particle_size: 4 * SCALE,
            shape: Shape::Circle,
            circle_corners: 16,
            rgb: false,
            rgb_speed: SCALE,
        };
        s.update_bounds(UVec2::new(3600, 2100));
        s
    }
}

/// The interchange form of the settings: the interaction matrix and color
/// order truncated to the active `color_count`, ready for a textual format.
#[derive(Clone, Debug)]
pub struct PortableSettings {
    pub particle_count: usize,
    pub bounds: UVec2,
    pub max_distance: u32,
    pub min_distance: u32,
    pub max_velocity: i64,
    pub velocity_half_life: i64,
    pub force_factor: i64,
    pub max_attractions: u32,
    pub acceleration_method: AccelerationMethod,
    pub color_count: usize,
    pub color_order: Vec<ColorId>,
    pub matrix: Vec<Vec<i64>>,
    pub particle_size: i64,
    pub shape: Shape,
    pub circle_corners: u32,
    pub rgb: bool,
    pub rgb_speed: i64,
}

/// Whether some entry of `s` carries the palette id `id`.
pub open spec fn has_id(s: Seq<ColorId>, id: int) -> bool {
    exists|j: int| 0 <= j < s.len() && (#[trigger] s[j]).id == id
}

/// The palette ids below `k` that are absent from `s`, in ascending order.
pub open spec fn missing_ids(s: Seq<ColorId>, k: int) -> Seq<ColorId>
    decreases k,
{
    if k <= 0 {
        Seq::empty()
    } else {
        missing_ids(s, k - 1) + if has_id(s, k - 1) {
            Seq::empty()
        } else {
            seq![ColorId { id: (k - 1) as u32 }]
        }
    }
}

/// A coefficient clamped into the admitted magnitude.
pub open spec fn clamp_coef_spec(v: int) -> int {
    if v < -COEF_LIMIT {
        -COEF_LIMIT as int
    } else if v > COEF_LIMIT {
        COEF_LIMIT as int
    } else {
        v
    }
}

fn contains_id(s: &Vec<ColorId>, id: u32) -> (r: bool)
    ensures
        r == has_id(s@, id as int),
{
    let mut j: usize = 0;
    while j < s.len()
        invariant
            j <= s@.len(),
            forall|k: int| 0 <= k < j ==> (#[trigger] s@[k]).id != id,
        decreases s@.len() - j,
    {
        if s[j].id == id {
            proof {
                assert(0 <= j < s@.len() && s@[j as int].id == id);
            }
            return true;
        }
        j = j + 1;
    }
    false
}

impl SimulationSettings {
    /// Produce the interchange form: drop the rows, columns and palette
    /// entries beyond the active `color_count`, everything else verbatim.
    pub fn serialize(&self) -> (r: PortableSettings)
        requires
            self.wf(),
        ensures
            r.particle_count == self.particle_count,
            r.bounds == self.bounds,
            r.max_distance == self.max_distance,
            r.min_distance == self.min_distance,
            r.max_velocity == self.max_velocity,
            r.velocity_half_life == self.velocity_half_life,
            r.force_factor == self.force_factor,
            r.max_attractions == self.max_attractions,
            r.acceleration_method == self.acceleration_method,
            r.color_count == self.color_count,
            r.particle_size == self.particle_size,
            r.shape == self.shape,
            r.circle_corners == self.circle_corners,
            r.rgb == self.rgb,
            r.rgb_speed == self.rgb_speed,
            r.color_order@ == self.color_order@.take(self.color_count as int),
            r.matrix@.len() == self.color_count,
            forall|i: int|
                0 <= i < self.color_count ==> (#[trigger] r.matrix@[i])@.len()
                    == self.color_count,
            forall|i: int, j: int|
                0 <= i < self.color_count && 0 <= j < self.color_count ==> #[trigger] mat_at(
                    r.matrix,
                    i,
                    j,
                ) == mat_at(self.matrix, i, j),
    {
        let cc = self.color_count;
        let mut order: Vec<ColorId> = Vec::new();
        let mut i: usize = 0;
        while i < cc
            invariant
                cc <= self.color_order@.len(),
                i <= cc,
                order@.len() == i,
                forall|k: int| 0 <= k < i ==> #[trigger] order@[k] == self.color_order@[k],
            decreases cc - i,
        {
            order.push(self.color_order[i]);
            i = i + 1;
        }
        proof {
            assert(order@ =~= self.color_order@.take(cc as int));
        }
        let mut matrix: Vec<Vec<i64>> = Vec::new();
        let mut i: usize = 0;
        while i < cc
            invariant
                self.wf(),
                cc == self.color_count,
                i <= cc,
                matrix@.len() == i,
                forall|k: int| 0 <= k < i ==> (#[trigger] matrix@[k])@.len() == cc,
                forall|k: int, j: int|
                    0 <= k < i && 0 <= j < cc ==> #[trigger] matrix@[k]@[j] == mat_at(
                        self.matrix,
                        k,
                        j,
                    ),
            decreases cc - i,
        {
            let mut row: Vec<i64> = Vec::new();
            let mut j: usize = 0;
            while j < cc
                invariant
                    self.wf(),
                    cc == self.color_count,
                    i < cc,
                    j <= cc,
                    row@.len() == j,
                    forall|k: int|
                        0 <= k < j ==> #[trigger] row@[k] == mat_at(self.matrix, i as int, k),
                decreases cc - j,
            {
                let v = self.matrix[i][j];
                row.push(v);
                j = j + 1;
            }
            matrix.push(row);
            i = i + 1;
        }
        PortableSettings {
            particle_count: self.particle_count,
            bounds: self.bounds,
            max_distance: self.max_distance,
            min_distance: self.min_distance,
            max_velocity: self.max_velocity,
            velocity_half_life: self.velocity_half_life,
            force_factor: self.force_factor,
            max_attractions: self.max_attractions,
            acceleration_method: self.acceleration_method,
            color_count: cc,
            color_order: order,
            matrix,
            particle_size: self.particle_size,
            shape: self.shape,
            circle_corners: self.circle_corners,
            rgb: self.rgb,
            rgb_speed: self.rgb_speed,
        }
    }

    /// Rebuild full settings from the interchange form: the matrix is
    /// re-padded to the full palette size with zero coefficients (existing
    /// entries clamped to the admitted magnitude), the color order is
    /// re-padded with the absent palette ids in ascending order, and every
    /// scalar is clamped into its admitted range. A malformed form (an
    /// inactive or oversized color count, a matrix that does not match it,
    /// or a color order that does not pad back to the full palette) yields
    /// nothing and leaves the caller's settings unchanged.
    pub fn deserialize(p: &PortableSettings) -> (r: Option<SimulationSettings>)
        ensures
            r.is_some() <==> {
                &&& 1 <= p.color_count <= MAX_COLORS
                &&& p.matrix@.len() == p.color_count
                &&& (forall|i: int|
                    0 <= i < p.color_count ==> (#[trigger] p.matrix@[i])@.len()
                        == p.color_count)
                &&& p.color_order@.len() == p.color_count
                &&& (p.color_order@ + missing_ids(p.color_order@, MAX_COLORS as int)).len()
                    == MAX_COLORS
            },
            r.is_some() ==> {
                &&& r.unwrap().wf()
                &&& r.unwrap().color_count == p.color_count
                &&& r.unwrap().color_order@ == p.color_order@ + missing_ids(
                    p.color_order@,
                    MAX_COLORS as int,
                )
                &&& (forall|i: int, j: int|
                    0 <= i < p.color_count && 0 <= j < p.color_count ==> #[trigger] mat_at(
                        r.unwrap().matrix,
                        i,
                        j,
                    ) == clamp_coef_spec(mat_at(p.matrix, i, j) as int))
                &&& (forall|i: int, j: int|
                    0 <= i < MAX_COLORS && 0 <= j < MAX_COLORS && !(i < p.color_count && j
                        < p.color_count) ==> #[trigger] mat_at(r.unwrap().matrix, i, j) == 0)
                &&& r.unwrap().max_distance == clamp_u32_spec(
                    p.max_distance as int,
                    1,
                    MD_LIMIT as int,
                )
                &&& r.unwrap().acceleration_method == p.acceleration_method
                &&& r.unwrap().min_distance == p.min_distance
                &&& r.unwrap().shape == p.shape
            },
    {
        let cc = p.color_count;
        if cc < 1 || cc > MAX_COLORS {
            return None;
        }
        if p.matrix.len() != cc {
            return None;
        }
        let mut i: usize = 0;
        while i < cc
            invariant
                cc == p.color_count,
                cc <= p.matrix@.len(),
                i <= cc,
                forall|k: int| 0 <= k < i ==> (#[trigger] p.matrix@[k])@.len() == cc,
            decreases cc - i,
        {
            if p.matrix[i].len() != cc {
                return None;
            }
            i = i + 1;
        }
        if p.color_order.len() != cc {
            return None;
        }

        // Re-pad the color order with the absent palette ids, ascending.
        let mut order: Vec<ColorId> = Vec::new();
        let mut i: usize = 0;
        while i < cc
            invariant
                cc <= p.color_order@.len(),
                i <= cc,
                order@.len() == i,
                forall|k: int| 0 <= k < i ==> #[trigger] order@[k] == p.color_order@[k],
            decreases cc - i,
        {
            order.push(p.color_order[i]);
            i = i + 1;
        }
        proof {
            assert(order@ =~= p.color_order@.take(cc as int));
            assert(p.color_order@.take(cc as int) =~= p.color_order@);
        }
        let mut id: u32 = 0;
        while id < MAX_COLORS as u32
            invariant
                id <= MAX_COLORS,
                order@ == p.color_order@ + missing_ids(p.color_order@, id as int),
            decreases MAX_COLORS - id,
        {
            if !contains_id(&p.color_order, id) {
                order.push(ColorId::new(id));
            }
            proof {
                assert(missing_ids(p.color_order@, id as int + 1) == missing_ids(
                    p.color_order@,
                    id as int,
                ) + if has_id(p.color_order@, id as int) {
                    Seq::<ColorId>::empty()
                } else {
                    seq![ColorId { id: id as u32 }]
                });
                if has_id(p.color_order@, id as int) {
                    assert(order@ =~= p.color_order@ + missing_ids(
                        p.color_order@,
                        id as int + 1,
                    ));
                } else {
                    assert(order@ =~= p.color_order@ + missing_ids(
                        p.color_order@,
                        id as int + 1,
                    ));
                }
            }
            id = id + 1;
        }
        if order.len() != MAX_COLORS {
            return None;
        }

        // Re-pad the matrix to the full palette, clamping what was kept.
        let mut matrix: Vec<Vec<i64>> = Vec::new();
        let mut i: usize = 0;
        while i < MAX_COLORS
            invariant
                cc == p.color_count,
                1 <= cc <= MAX_COLORS,
                cc <= p.matrix@.len(),
                forall|k: int| 0 <= k < cc ==> (#[trigger] p.matrix@[k])@.len() == cc,
                i <= MAX_COLORS,
                matrix@.len() == i,
                forall|k: int| 0 <= k < i ==> (#[trigger] matrix@[k])@.len() == MAX_COLORS,
                forall|k: int, j: int|
                    0 <= k < i && 0 <= j < MAX_COLORS && k < cc && j < cc
                        ==> #[trigger] matrix@[k]@[j] == clamp_coef_spec(mat_at(p.matrix, k, j) as int),
                forall|k: int, j: int|
                    0 <= k < i && 0 <= j < MAX_COLORS && !(k < cc && j < cc)
                        ==> #[trigger] matrix@[k]@[j] == 0,
                forall|k: int, j: int|
                    0 <= k < i && 0 <= j < MAX_COLORS ==> -COEF_LIMIT
                        <= #[trigger] matrix@[k]@[j] <= COEF_LIMIT,
            decreases MAX_COLORS - i,
        {
            let mut row: Vec<i64> = Vec::new();
            let mut j: usize = 0;
            while j < MAX_COLORS
                invariant
                    cc == p.color_count,
                    1 <= cc <= MAX_COLORS,
                    cc <= p.matrix@.len(),
                    forall|k: int| 0 <= k < cc ==> (#[trigger] p.matrix@[k])@.len() == cc,
                    i < MAX_COLORS,
                    j <= MAX_COLORS,
                    row@.len() == j,
                    forall|k: int|
                        0 <= k < j && i < cc && k < cc ==> #[trigger] row@[k] == clamp_coef_spec(
                            mat_at(p.matrix, i as int, k) as int,
                        ),
                    forall|k: int|
                        0 <= k < j && !(i < cc && k < cc) ==> #[trigger] row@[k] == 0,
                    forall|k: int| 0 <= k < j ==> -COEF_LIMIT <= #[trigger] row@[k] <= COEF_LIMIT,
                decreases MAX_COLORS - j,
            {
                let v: i64 = if i < cc && j < cc {
                    let raw = p.matrix[i][j];
                    if raw < -COEF_LIMIT {
                        -COEF_LIMIT
                    } else if raw > COEF_LIMIT {
                        COEF_LIMIT
                    } else {
                        raw
                    }
                } else {
                    0
                };
                row.push(v);
                j = j + 1;
            }
            matrix.push(row);
            i = i + 1;
        }

        let md = if p.max_distance < 1 {
            1
        } else if p.max_distance > MD_LIMIT {
            MD_LIMIT
        } else {
            p.max_distance
        };
        let mut settings = SimulationSettings {
            particle_count: if p.particle_count > COUNT_LIMIT {
                COUNT_LIMIT
            } else {
                p.particle_count
            },
            bounds: UVec2::new(md, md),
            max_distance: md,
            min_distance: p.min_distance,
            max_velocity: clamp_i64(p.max_velocity, 0, SETTING_LIMIT),
            velocity_half_life: clamp_i64(p.velocity_half_life, 1, SETTING_LIMIT),
            force_factor: clamp_i64(p.force_factor, 0, SETTING_LIMIT),
            max_attractions: p.max_attractions,
            acceleration_method: p.acceleration_method,
            color_count: cc,
            color_order: order,
            matrix,
            particle_size: clamp_i64(p.particle_size, 0, SETTING_LIMIT),
            shape: p.shape,
            circle_corners: p.circle_corners,
            rgb: p.rgb,
            rgb_speed: p.rgb_speed,
        };
        settings.update_bounds(p.bounds);
        Some(settings)
    }
}

/// A value clamped into `[lo, hi]`.
pub fn clamp_i64(v: i64, lo: i64, hi: i64) -> (r: i64)
    requires
        lo <= hi,
    ensures
        lo <= r <= hi,
        r == if v < lo {
            lo
        } else if v > hi {
            hi
        } else {
            v
        },
{
    if v < lo {
        lo
    } else if v > hi {
        hi
    } else {
        v
    }
}

/// A random selection of distinct palette colors (all of them if more are
/// asked for than exist).
pub fn random_colors(count: usize) -> (r: Vec<[u8; 4]>)
    ensures
        r@.len() == if count < MAX_COLORS {
            count as int
        } else {
            MAX_COLORS as int
        },
        forall|i: int| 0 <= i < r@.len() ==> COLORS@.contains(#[trigger] r@[i]),
{
    choose_palette_colors(count)
}

/// Division by an exact divisor of a product stays within the factor range.
proof fn lemma_div_multiple_bounds(b: int, md: int)
    requires
        1 <= md,
        md <= b <= md * BOUNDS_FACTOR_LIMIT,
        b % md == 0,
    ensures
        2 <= 2 * b / md <= 2 * BOUNDS_FACTOR_LIMIT,
        2 * b / md * md == 2 * b,
{
    let q = b / md;
    vstd::arithmetic::div_mod::lemma_fundamental_div_mod(b, md);
    assert(b == md * q);
    assert(1 <= q <= BOUNDS_FACTOR_LIMIT) by (nonlinear_arith)
        requires
            b == md * q,
            1 <= md,
            md <= b <= md * BOUNDS_FACTOR_LIMIT,
    ;
    assert(2 * b == md * (2 * q)) by (nonlinear_arith)
        requires b == md * q;
    vstd::arithmetic::div_mod::lemma_div_multiples_vanish(2 * q, md);
    assert(2 * b / md == 2 * q);
    assert(2 * b / md * md == 2 * b) by (nonlinear_arith)
        requires
            2 * b / md == 2 * q,
            2 * b == md * (2 * q),
    ;
}

} // verus!
