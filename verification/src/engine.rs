//! The pipeline orchestrator: the growable particle store, the coalesced
//! one-shot command flags, and the per-frame tick that runs every stage in
//! dependency order with a full barrier between stages.

use vstd::prelude::*;

use crate::compute::{cell_index, cell_index_spec, GpuSettings};
use crate::data::{ColorId, Particle, SimulationSettings, COUNT_LIMIT, SETTING_LIMIT};
use crate::events::ParticleEvent;
use crate::fixed::{Vec2, SCALE};
use crate::forces::{
    abs_spec, accumulate_forces, in_bounds, stage_pre, update_position, update_velocity,
};
use crate::rng::{rand_i64_in, rand_u32_below};
use crate::spatial::SpatialPartitioning;

verus! {

/// The pending one-shot commands, coalesced: queuing a command twice in one
/// frame leaves exactly one pending application.
#[derive(Debug, Clone, Copy, PartialEq, Eq, Structural)]
pub struct Todo {
    pub randomize_positions: bool,
    pub randomize_colors: bool,
}

impl Todo {
    pub fn new() -> (r: Todo)
        ensures
            !r.randomize_positions,
            !r.randomize_colors,
    {
        Todo { randomize_positions: false, randomize_colors: false }
    }

    pub fn set_randomize_positions(&mut self, value: bool)
        ensures
            final(self).randomize_positions == value,
            final(self).randomize_colors == old(self).randomize_colors,
    {
        self.randomize_positions = value;
    }

    pub fn randomize_positions(&self) -> (r: bool)
        ensures
            r == self.randomize_positions,
    {
        self.randomize_positions
    }

    pub fn set_randomize_colors(&mut self, value: bool)
        ensures
            final(self).randomize_colors == value,
            final(self).randomize_positions == old(self).randomize_positions,
    {
        self.randomize_colors = value;
    }

    pub fn randomize_colors(&self) -> (r: bool)
        ensures
            r == self.randomize_colors,
    {
        self.randomize_colors
    }
}

impl Default for Todo {
    fn default() -> (r: Self)
        ensures
            !r.randomize_positions,
            !r.randomize_colors,
    {
        Todo::new()
    }
}

/// The simulation buffers: the growable particle store, the count of
/// particles initialized so far, and the spatial-partitioning buffers
/// recomputed every frame.
pub struct GpuBuffers {
    /// How many particle slots are allocated; grows, never shrinks.
    pub allocated_particles: usize,
    /// How many leading slots have been initialized; only advances.
    pub initialized_particles: u32,
    /// Frames since the store last grew.
    pub waited: u32,
    pub particles: Vec<Particle>,
    pub partitioning: SpatialPartitioning,
}

/// The store's invariant: the allocation count matches the backing array,
/// and every slot carries an admissible velocity and color.
pub open spec fn store_wf(b: GpuBuffers) -> bool {
    &&& b.particles@.len() == b.allocated_particles
    &&& b.particles@.len() <= COUNT_LIMIT
    &&& forall|i: int|
        0 <= i < b.particles@.len() ==> abs_spec(
            (#[trigger] b.particles@[i]).velocity.x as int,
        ) <= SETTING_LIMIT && abs_spec(b.particles@[i].velocity.y as int) <= SETTING_LIMIT
            && b.particles@[i].color.id < 16
}

impl GpuBuffers {
    pub fn new() -> (r: GpuBuffers)
        ensures
            store_wf(r),
            r.particles@.len() == 0,
            r.allocated_particles == 0,
            r.initialized_particles == 0,
    {
        GpuBuffers {
            allocated_particles: 0,
            initialized_particles: 0,
            waited: 0,
            particles: Vec::new(),
            partitioning: SpatialPartitioning::new(),
        }
    }

    /// Grow the backing array to hold `n` particles, preserving every
    /// existing particle in place; new slots rest at the origin until the
    /// initialization stage reaches them. Shrinking never happens.
    pub fn ensure_capacity(&mut self, n: usize)
        requires
            store_wf(*old(self)),
            n <= COUNT_LIMIT,
        ensures
            store_wf(*final(self)),
            final(self).particles@.len() == if n > old(self).particles@.len() {
                n as int
            } else {
                old(self).particles@.len() as int
            },
            forall|i: int|
                0 <= i < old(self).particles@.len() ==> #[trigger] final(self).particles@[i]
                    == old(self).particles@[i],
            forall|i: int|
                old(self).particles@.len() <= i < final(self).particles@.len()
                    ==> #[trigger] final(self).particles@[i] == (Particle {
                    position: Vec2 { x: 0, y: 0 },
                    velocity: Vec2 { x: 0, y: 0 },
                    color: ColorId { id: 0 },
                }),
            final(self).initialized_particles == old(self).initialized_particles,
            final(self).waited == old(self).waited,
            final(self).partitioning == old(self).partitioning,
    {
        let ghost orig = self.particles@;
        while self.particles.len() < n
            invariant
                orig.len() <= self.particles@.len() <= if n > orig.len() {
                    n as int
                } else {
                    orig.len() as int
                },
                n <= COUNT_LIMIT,
                forall|i: int| 0 <= i < orig.len() ==> #[trigger] self.particles@[i] == orig[i],
                forall|i: int|
                    orig.len() <= i < self.particles@.len() ==> #[trigger] self.particles@[i]
                        == (Particle {
                        position: Vec2 { x: 0, y: 0 },
                        velocity: Vec2 { x: 0, y: 0 },
                        color: ColorId { id: 0 },
                    }),
                self.initialized_particles == old(self).initialized_particles,
                self.waited == old(self).waited,
                self.partitioning == old(self).partitioning,
                self.allocated_particles == old(self).allocated_particles,
            decreases n - self.particles@.len(),
        {
            self.particles.push(
                Particle::new(Vec2::new(0, 0), Vec2::new(0, 0), ColorId::new(0)),
            );
        }
        let len = self.particles.len();
        self.allocated_particles = len;
    }
}

/// Give every leading particle a fresh uniformly random position inside the
/// world box; velocities and colors stay.
fn randomize_positions_pass(particles: &mut Vec<Particle>, s: &GpuSettings, count: usize)
    requires
        s.wf(),
        count <= old(particles)@.len(),
    ensures
        final(particles)@.len() == old(particles)@.len(),
        forall|i: int|
            0 <= i < count ==> in_bounds(*s, #[trigger] final(particles)@[i]) && final(particles)@[i].velocity == old(particles)@[i].velocity && final(particles)@[i].color == old(particles)@[i].color,
        forall|i: int|
            count <= i < old(particles)@.len() ==> #[trigger] final(particles)@[i] == old(particles)@[i],
{
    let mut i: usize = 0;
    while i < count
        invariant
            s.wf(),
            count <= particles@.len(),
            particles@.len() == old(particles)@.len(),
            i <= count,
            forall|k: int|
                0 <= k < i ==> in_bounds(*s, #[trigger] particles@[k]) && particles@[k].velocity
                    == old(particles)@[k].velocity && particles@[k].color == old(particles)@[k].color,
            forall|k: int|
                i <= k < particles@.len() ==> #[trigger] particles@[k] == old(particles)@[k],
        decreases count - i,
    {
        let p = particles[i];
        let x = rand_i64_in(-s.bounds.x, s.bounds.x + 1);
        let y = rand_i64_in(-s.bounds.y, s.bounds.y + 1);
        particles.set(i, Particle::new(Vec2::new(x, y), p.velocity, p.color));
        i = i + 1;
    }
}

/// Give every leading particle a fresh uniformly random color among the
/// active ones; positions and velocities stay.
fn randomize_colors_pass(particles: &mut Vec<Particle>, s: &GpuSettings, count: usize)
    requires
        s.wf(),
        count <= old(particles)@.len(),
    ensures
        final(particles)@.len() == old(particles)@.len(),
        forall|i: int|
            0 <= i < count ==> (#[trigger] final(particles)@[i]).color.id < s.color_count
                && final(particles)@[i].position == old(particles)@[i].position && final(particles)@[i].velocity == old(particles)@[i].velocity,
        forall|i: int|
            count <= i < old(particles)@.len() ==> #[trigger] final(particles)@[i] == old(particles)@[i],
{
    let mut i: usize = 0;
    while i < count
        invariant
            s.wf(),
            count <= particles@.len(),
            particles@.len() == old(particles)@.len(),
            i <= count,
            forall|k: int|
                0 <= k < i ==> (#[trigger] particles@[k]).color.id < s.color_count
                    && particles@[k].position == old(particles)@[k].position
                    && particles@[k].velocity == old(particles)@[k].velocity,
            forall|k: int|
                i <= k < particles@.len() ==> #[trigger] particles@[k] == old(particles)@[k],
        decreases count - i,
    {
        let p = particles[i];
        let c = rand_u32_below(s.color_count);
        particles.set(i, Particle::new(p.position, p.velocity, ColorId::new(c)));
        i = i + 1;
    }
}

/// Initialization stage: every slot in `[start, end)` becomes a fresh
/// particle with a uniformly random in-bounds position, a uniformly random
/// active color, and zero velocity. Slots outside the range are untouched.
fn initialize_particles_pass(
    particles: &mut Vec<Particle>,
    s: &GpuSettings,
    start: usize,
    end: usize,
)
    requires
        s.wf(),
        start <= end,
        end <= old(particles)@.len(),
    ensures
        final(particles)@.len() == old(particles)@.len(),
        forall|i: int|
            start <= i < end ==> in_bounds(*s, #[trigger] final(particles)@[i]) && final(particles)@[i].color.id < s.color_count && final(particles)@[i].velocity == (Vec2 {
                x: 0,
                y: 0,
            }),
        forall|i: int|
            (0 <= i < start || end <= i < old(particles)@.len()) ==> #[trigger] final(particles)@[i] == old(particles)@[i],
{
    let mut i: usize = start;
    while i < end
        invariant
            s.wf(),
            start <= i <= end,
            end <= particles@.len(),
            particles@.len() == old(particles)@.len(),
            forall|k: int|
                start <= k < i ==> in_bounds(*s, #[trigger] particles@[k])
                    && particles@[k].color.id < s.color_count && particles@[k].velocity == (Vec2 {
                    x: 0,
                    y: 0,
                }),
            forall|k: int|
                (0 <= k < start || i <= k < particles@.len()) ==> #[trigger] particles@[k] == old(particles)@[k],
        decreases end - i,
    {
        let x = rand_i64_in(-s.bounds.x, s.bounds.x + 1);
        let y = rand_i64_in(-s.bounds.y, s.bounds.y + 1);
        let c = rand_u32_below(s.color_count);
        particles.set(i, Particle::new(Vec2::new(x, y), Vec2::new(0, 0), ColorId::new(c)));
        i = i + 1;
    }
}

/// Wrap every stored position into the current world box (a no-op for a
/// position already inside it), so every later stage sees in-bounds data
/// even right after the bounds settings changed.
fn normalize_positions_pass(particles: &mut Vec<Particle>, s: &GpuSettings)
    requires
        s.wf(),
    ensures
        final(particles)@.len() == old(particles)@.len(),
        forall|i: int|
            0 <= i < final(particles)@.len() ==> in_bounds(*s, #[trigger] final(particles)@[i])
                && final(particles)@[i].velocity == old(particles)@[i].velocity && final(particles)@[i].color == old(particles)@[i].color,
        forall|i: int|
            0 <= i < old(particles)@.len() ==> (in_bounds(*s, #[trigger] old(particles)@[i])
                ==> final(particles)@[i] == old(particles)@[i]),
{
    let mut i: usize = 0;
    let n = particles.len();
    while i < n
        invariant
            s.wf(),
            n == particles@.len(),
            particles@.len() == old(particles)@.len(),
            i <= n,
            forall|k: int|
                0 <= k < i ==> in_bounds(*s, #[trigger] particles@[k]) && particles@[k].velocity
                    == old(particles)@[k].velocity && particles@[k].color == old(particles)@[k].color,
            forall|k: int|
                0 <= k < i ==> (in_bounds(*s, #[trigger] old(particles)@[k]) ==> particles@[k]
                    == old(particles)@[k]),
            forall|k: int|
                i <= k < particles@.len() ==> #[trigger] particles@[k] == old(particles)@[k],
        decreases n - i,
    {
        let p = particles[i];
        let x = crate::fixed::wrap_coord(p.position.x, s.bounds.x);
        let y = crate::fixed::wrap_coord(p.position.y, s.bounds.y);
        particles.set(i, Particle::new(Vec2::new(x, y), p.velocity, p.color));
        i = i + 1;
    }
}

/// Count stage input: the grid cell index of each of the leading `count`
/// particles.
fn build_cells(particles: &Vec<Particle>, s: &GpuSettings, count: usize) -> (cells: Vec<u32>)
    requires
        s.wf(),
        count <= particles@.len(),
    ensures
        cells@.len() == count,
        forall|i: int|
            0 <= i < count ==> #[trigger] cells@[i] == cell_index_spec(
                *s,
                particles@[i].position,
            ) && cells@[i] < s.total_cells(),
{
    let mut cells: Vec<u32> = Vec::new();
    let mut i: usize = 0;
    while i < count
        invariant
            s.wf(),
            count <= particles@.len(),
            cells@.len() == i,
            i <= count,
            forall|k: int|
                0 <= k < i ==> #[trigger] cells@[k] == cell_index_spec(
                    *s,
                    particles@[k].position,
                ) && cells@[k] < s.total_cells(),
        decreases count - i,
    {
        let p = particles[i];
        cells.push(cell_index(s, p.position));
        i = i + 1;
    }
    cells
}

/// The number of grid cells of the snapshot, as the count pass needs it.
fn total_cells_u32(s: &GpuSettings) -> (r: u32)
    requires
        s.wf(),
    ensures
        r == s.total_cells(),
        4 <= r <= 0x1000_0000,
{
    proof {
        assert(4 <= s.cell_count.x as int * s.cell_count.y as int <= 0x1000_0000)
            by (nonlinear_arith)
            requires
                2 <= s.cell_count.x <= 4096,
                2 <= s.cell_count.y <= 4096,
        ;
    }
    s.cell_count.x * s.cell_count.y
}

/// Gather stage: the accumulated acceleration of each of the leading
/// `count` particles, read from the partitioned neighbor structure.
fn gather_forces(
    s: &GpuSettings,
    particles: &Vec<Particle>,
    sorted: &Vec<u32>,
    offsets: &Vec<u32>,
    count: usize,
) -> (accs: Vec<(i128, i128)>)
    requires
        stage_pre(*s, particles@, sorted@, offsets@),
        count <= particles@.len(),
        forall|i: int| 0 <= i < particles@.len() ==> in_bounds(*s, #[trigger] particles@[i]),
    ensures
        accs@.len() == count,
        forall|i: int|
            0 <= i < count ==> (#[trigger] accs@[i]).0 == crate::forces::accel_sum_spec(
                *s,
                particles@,
                sorted@,
                offsets@,
                particles@[i],
            ).0 && accs@[i].1 == crate::forces::accel_sum_spec(
                *s,
                particles@,
                sorted@,
                offsets@,
                particles@[i],
            ).1,
        forall|i: int|
            0 <= i < count ==> abs_spec((#[trigger] accs@[i]).0 as int) <= 9 * 0x4000_0000
                * crate::forces::ACCEL_LIMIT && abs_spec(accs@[i].1 as int) <= 9 * 0x4000_0000
                * crate::forces::ACCEL_LIMIT,
{
    let mut accs: Vec<(i128, i128)> = Vec::new();
    let mut i: usize = 0;
    proof {
        assert(9 * particles@.len() as int * crate::forces::ACCEL_LIMIT <= 9 * 0x4000_0000
            * crate::forces::ACCEL_LIMIT) by (nonlinear_arith)
            requires particles@.len() <= 0x4000_0000;
    }
    while i < count
        invariant
            stage_pre(*s, particles@, sorted@, offsets@),
            count <= particles@.len(),
            forall|k: int| 0 <= k < particles@.len() ==> in_bounds(*s, #[trigger] particles@[k]),
            accs@.len() == i,
            i <= count,
            9 * particles@.len() as int * crate::forces::ACCEL_LIMIT <= 9 * 0x4000_0000
                * crate::forces::ACCEL_LIMIT,
            forall|k: int|
                0 <= k < i ==> (#[trigger] accs@[k]).0 == crate::forces::accel_sum_spec(
                    *s,
                    particles@,
                    sorted@,
                    offsets@,
                    particles@[k],
                ).0 && accs@[k].1 == crate::forces::accel_sum_spec(
                    *s,
                    particles@,
                    sorted@,
                    offsets@,
                    particles@[k],
                ).1,
            forall|k: int|
                0 <= k < i ==> abs_spec((#[trigger] accs@[k]).0 as int) <= 9 * 0x4000_0000
                    * crate::forces::ACCEL_LIMIT && abs_spec(accs@[k].1 as int) <= 9 * 0x4000_0000
                    * crate::forces::ACCEL_LIMIT,
        decreases count - i,
    {
        let p = particles[i];
        let acc = accumulate_forces(s, particles, sorted, offsets, p);
        accs.push(acc);
        i = i + 1;
    }
    accs
}

/// Velocity stage: apply each particle's accumulated acceleration; only
/// velocities change.
fn velocity_pass(
    particles: &mut Vec<Particle>,
    s: &GpuSettings,
    accs: &Vec<(i128, i128)>,
    count: usize,
)
    requires
        s.wf(),
        count <= old(particles)@.len(),
        accs@.len() == count,
        forall|i: int|
            0 <= i < old(particles)@.len() ==> abs_spec(
                (#[trigger] old(particles)@[i]).velocity.x as int,
            ) <= SETTING_LIMIT && abs_spec(old(particles)@[i].velocity.y as int) <= SETTING_LIMIT,
        forall|i: int|
            0 <= i < count ==> abs_spec((#[trigger] accs@[i]).0 as int) <= 9 * 0x4000_0000
                * crate::forces::ACCEL_LIMIT && abs_spec(accs@[i].1 as int) <= 9 * 0x4000_0000
                * crate::forces::ACCEL_LIMIT,
    ensures
        final(particles)@.len() == old(particles)@.len(),
        forall|i: int|
            0 <= i < count ==> (#[trigger] final(particles)@[i]).position == old(particles)@[i].position && final(particles)@[i].color == old(particles)@[i].color,
        forall|i: int|
            0 <= i < count ==> (#[trigger] final(particles)@[i]).velocity.x
                == crate::forces::new_velocity_spec(
                *s,
                old(particles)@[i].velocity,
                (accs@[i].0 as int, accs@[i].1 as int),
            ).0 && final(particles)@[i].velocity.y == crate::forces::new_velocity_spec(
                *s,
                old(particles)@[i].velocity,
                (accs@[i].0 as int, accs@[i].1 as int),
            ).1,
        forall|i: int|
            0 <= i < count ==> abs_spec((#[trigger] final(particles)@[i]).velocity.x as int)
                <= s.max_velocity && abs_spec(final(particles)@[i].velocity.y as int)
                <= s.max_velocity,
        forall|i: int|
            count <= i < old(particles)@.len() ==> #[trigger] final(particles)@[i] == old(particles)@[i],
{
    let mut i: usize = 0;
    while i < count
        invariant
            s.wf(),
            count <= particles@.len(),
            particles@.len() == old(particles)@.len(),
            accs@.len() == count,
            i <= count,
            forall|k: int|
                0 <= k < particles@.len() ==> abs_spec(
                    (#[trigger] old(particles)@[k]).velocity.x as int,
                ) <= SETTING_LIMIT && abs_spec(old(particles)@[k].velocity.y as int)
                    <= SETTING_LIMIT,
            forall|k: int|
                0 <= k < count ==> abs_spec((#[trigger] accs@[k]).0 as int) <= 9 * 0x4000_0000
                    * crate::forces::ACCEL_LIMIT && abs_spec(accs@[k].1 as int) <= 9 * 0x4000_0000
                    * crate::forces::ACCEL_LIMIT,
            forall|k: int|
                0 <= k < i ==> (#[trigger] particles@[k]).position == old(particles)@[k].position
                    && particles@[k].color == old(particles)@[k].color,
            forall|k: int|
                0 <= k < i ==> (#[trigger] particles@[k]).velocity.x
                    == crate::forces::new_velocity_spec(
                    *s,
                    old(particles)@[k].velocity,
                    (accs@[k].0 as int, accs@[k].1 as int),
                ).0 && particles@[k].velocity.y == crate::forces::new_velocity_spec(
                    *s,
                    old(particles)@[k].velocity,
                    (accs@[k].0 as int, accs@[k].1 as int),
                ).1,
            forall|k: int|
                0 <= k < i ==> abs_spec((#[trigger] particles@[k]).velocity.x as int)
                    <= s.max_velocity && abs_spec(particles@[k].velocity.y as int)
                    <= s.max_velocity,
            forall|k: int|
                i <= k < particles@.len() ==> #[trigger] particles@[k] == old(particles)@[k],
        decreases count - i,
    {
        let p = particles[i];
        let acc = accs[i];
        let p2 = update_velocity(s, p, acc);
        particles.set(i, p2);
        i = i + 1;
    }
}

/// Position stage: one Euler step with toroidal wrap; only positions
/// change, and every touched particle ends inside the world box.
fn position_pass(particles: &mut Vec<Particle>, s: &GpuSettings, count: usize)
    requires
        s.wf(),
        count <= old(particles)@.len(),
        forall|i: int| 0 <= i < old(particles)@.len() ==> in_bounds(*s, #[trigger] old(particles)@[i]),
        forall|i: int|
            0 <= i < old(particles)@.len() ==> abs_spec(
                (#[trigger] old(particles)@[i]).velocity.x as int,
            ) <= SETTING_LIMIT && abs_spec(old(particles)@[i].velocity.y as int) <= SETTING_LIMIT,
    ensures
        final(particles)@.len() == old(particles)@.len(),
        forall|i: int| 0 <= i < final(particles)@.len() ==> in_bounds(*s, #[trigger] final(particles)@[i]),
        forall|i: int|
            0 <= i < count ==> (#[trigger] final(particles)@[i]).velocity == old(particles)@[i].velocity && final(particles)@[i].color == old(particles)@[i].color,
        forall|i: int|
            0 <= i < count ==> (#[trigger] final(particles)@[i]).position.x
                == crate::forces::new_position_spec(*s, old(particles)@[i]).0 && final(particles)@[i].position.y == crate::forces::new_position_spec(*s, old(particles)@[i]).1,
        forall|i: int|
            count <= i < old(particles)@.len() ==> #[trigger] final(particles)@[i] == old(particles)@[i],
{
    let mut i: usize = 0;
    while i < count
        invariant
            s.wf(),
            count <= particles@.len(),
            particles@.len() == old(particles)@.len(),
            i <= count,
            forall|k: int|
                0 <= k < particles@.len() ==> in_bounds(*s, #[trigger] particles@[k]),
            forall|k: int|
                0 <= k < particles@.len() ==> abs_spec(
                    (#[trigger] particles@[k]).velocity.x as int,
                ) <= SETTING_LIMIT && abs_spec(particles@[k].velocity.y as int) <= SETTING_LIMIT,
            forall|k: int|
                0 <= k < i ==> (#[trigger] particles@[k]).velocity == old(particles)@[k].velocity
                    && particles@[k].color == old(particles)@[k].color,
            forall|k: int|
                0 <= k < i ==> (#[trigger] particles@[k]).position.x
                    == crate::forces::new_position_spec(*s, old(particles)@[k]).0
                    && particles@[k].position.y == crate::forces::new_position_spec(
                    *s,
                    old(particles)@[k],
                ).1,
            forall|k: int|
                i <= k < particles@.len() ==> #[trigger] particles@[k] == old(particles)@[k],
        decreases count - i,
    {
        let p = particles[i];
        let p2 = update_position(s, p);
        particles.set(i, p2);
        i = i + 1;
    }
}

/// What one frame makes of particle `i`: the velocity update from its
/// accumulated neighbor forces, then one wrapped Euler position step.
pub open spec fn frame_result(
    s: GpuSettings,
    parts: Seq<Particle>,
    sorted: Seq<u32>,
    offsets: Seq<u32>,
    i: int,
) -> Particle {
    let p = parts[i];
    let acc = crate::forces::accel_sum_spec(s, parts, sorted, offsets, p);
    let v = crate::forces::new_velocity_spec(s, p.velocity, acc);
    let p1 = Particle {
        position: p.position,
        velocity: Vec2 { x: v.0 as i64, y: v.1 as i64 },
        color: p.color,
    };
    let q = crate::forces::new_position_spec(s, p1);
    Particle {
        position: Vec2 { x: q.0 as i64, y: q.1 as i64 },
        velocity: p1.velocity,
        color: p1.color,
    }
}

/// A steady frame: no pending one-shot command, no particle left to
/// initialize, enough slots allocated, and every stored position already
/// inside the configured world box. On such a frame the tick is a pure
/// function of the stored particles.
pub open spec fn steady_inputs(sim: Simulation, settings: SimulationSettings) -> bool {
    &&& !sim.todo.randomize_positions
    &&& !sim.todo.randomize_colors
    &&& sim.buffers.initialized_particles >= settings.particle_count
    &&& settings.particle_count <= sim.buffers.particles@.len()
    &&& forall|i: int|
        0 <= i < sim.buffers.particles@.len() ==> -(settings.bounds.x as int * SCALE) <= (
        #[trigger] sim.buffers.particles@[i]).position.x <= settings.bounds.x as int * SCALE
            && -(settings.bounds.y as int * SCALE) <= sim.buffers.particles@[i].position.y
            <= settings.bounds.y as int * SCALE
}

/// What a steady frame leaves behind: the partitioning buffers hold the
/// counting sort of the particles' cell indices, and every leading particle
/// is exactly the frame function of the particles the frame started from.
pub open spec fn steady_frame_post(
    snap: GpuSettings,
    before: Seq<Particle>,
    after: GpuBuffers,
    count: int,
) -> bool {
    let cells = Seq::new(count as nat, |i: int| cell_index_spec(snap, before[i].position) as u32);
    &&& after.partitioning.partitions(cells, snap.total_cells())
    &&& forall|i: int|
        0 <= i < count ==> #[trigger] after.particles@[i] == frame_result(
            snap,
            before,
            after.partitioning.sorted_indices@,
            after.partitioning.cell_offsets@,
            i,
        )
}

/// The whole simulation: the buffers, and the pending one-shot commands.
pub struct Simulation {
    pub buffers: GpuBuffers,
    pub todo: Todo,
}

impl Simulation {
    pub fn new() -> (r: Simulation)
        ensures
            store_wf(r.buffers),
            r.buffers.particles@.len() == 0,
            r.buffers.initialized_particles == 0,
            !r.todo.randomize_positions,
            !r.todo.randomize_colors,
    {
        Simulation { buffers: GpuBuffers::new(), todo: Todo::new() }
    }

    /// One frame of the pipeline, stages strictly ordered: grow the store
    /// if the configured particle count rose, apply (and clear) the pending
    /// one-shot commands, initialize every newly spawned particle, wrap all
    /// positions into the current world box, partition the particles into
    /// grid cells (count, prefix sum, scatter), then update every leading
    /// particle's velocity from its accumulated neighbor forces and finally
    /// its position.
    pub fn tick(&mut self, settings: &SimulationSettings, delta_time: i64, decay: i64)
        requires
            settings.wf(),
            0 <= delta_time <= SETTING_LIMIT,
            0 <= decay <= SCALE,
            store_wf(old(self).buffers),
        ensures
            store_wf(final(self).buffers),
            !final(self).todo.randomize_positions,
            !final(self).todo.randomize_colors,
            final(self).buffers.particles@.len() == if settings.particle_count > old(
                self,
            ).buffers.particles@.len() {
                settings.particle_count as int
            } else {
                old(self).buffers.particles@.len() as int
            },
            final(self).buffers.initialized_particles == if settings.particle_count as u32 > old(
                self,
            ).buffers.initialized_particles {
                settings.particle_count as u32
            } else {
                old(self).buffers.initialized_particles
            },
            forall|i: int|
                0 <= i < final(self).buffers.particles@.len() ==> -(settings.bounds.x as int
                    * SCALE) <= (#[trigger] final(self).buffers.particles@[i]).position.x
                    <= settings.bounds.x as int * SCALE && -(settings.bounds.y as int * SCALE)
                    <= final(self).buffers.particles@[i].position.y <= settings.bounds.y as int
                    * SCALE,
            forall|i: int|
                0 <= i < settings.particle_count ==> abs_spec(
                    (#[trigger] final(self).buffers.particles@[i]).velocity.x as int,
                ) <= settings.max_velocity && abs_spec(
                    final(self).buffers.particles@[i].velocity.y as int,
                ) <= settings.max_velocity,
            forall|i: int|
                settings.particle_count <= i < old(self).buffers.particles@.len()
                    ==> (#[trigger] final(self).buffers.particles@[i]).velocity == old(
                    self,
                ).buffers.particles@[i].velocity && final(self).buffers.particles@[i].color
                    == old(self).buffers.particles@[i].color,
            forall|i: int|
                !old(self).todo.randomize_colors && 0 <= i < settings.particle_count && i < old(
                    self,
                ).buffers.initialized_particles && i < old(self).buffers.particles@.len()
                    ==> (#[trigger] final(self).buffers.particles@[i]).color == old(
                    self,
                ).buffers.particles@[i].color,
            steady_inputs(*old(self), *settings) ==> exists|snap: GpuSettings|
                #[trigger] GpuSettings::snapshot_rel(
                    *settings,
                    delta_time,
                    decay,
                    old(self).buffers.initialized_particles,
                    snap,
                ) && steady_frame_post(
                    snap,
                    old(self).buffers.particles@,
                    final(self).buffers,
                    settings.particle_count as int,
                ),
    {
        let ghost steady = steady_inputs(*old(self), *settings);
        let ghost before = self.buffers.particles@;
        let snapshot = GpuSettings::snapshot(
            settings,
            delta_time,
            decay,
            self.buffers.initialized_particles,
        );
        let count = settings.particle_count;

        // Stage: grow the store, before anything reads it this frame.
        if self.buffers.allocated_particles < count {
            self.buffers.ensure_capacity(count);
            self.buffers.waited = 0;
        } else {
            if self.buffers.waited < u32::MAX {
                self.buffers.waited = self.buffers.waited + 1;
            }
        }

        // Stage: pending one-shot commands, applied and cleared at most
        // once per frame.
        if self.todo.randomize_positions() {
            randomize_positions_pass(&mut self.buffers.particles, &snapshot, count);
            self.todo.set_randomize_positions(false);
        }
        if self.todo.randomize_colors() {
            randomize_colors_pass(&mut self.buffers.particles, &snapshot, count);
            self.todo.set_randomize_colors(false);
        }

        // Stage: initialize every newly spawned particle, advancing the
        // initialized counter by exactly the batch size.
        let start0 = self.buffers.initialized_particles as usize;
        let start = if start0 < count {
            start0
        } else {
            count
        };
        initialize_particles_pass(&mut self.buffers.particles, &snapshot, start, count);
        if (self.buffers.initialized_particles as usize) < count {
            self.buffers.initialized_particles = count as u32;
        }

        // Stage: wrap every position into the current world box, so the
        // partitioner and the force stage see in-bounds data even right
        // after a bounds edit.
        normalize_positions_pass(&mut self.buffers.particles, &snapshot);

        let ghost mid = self.buffers.particles@;
        proof {
            if steady {
                assert(mid =~= before);
            }
        }

        // Stages: count, prefix sum, scatter.
        let cells = build_cells(&self.buffers.particles, &snapshot, count);
        let total = total_cells_u32(&snapshot);
        self.buffers.partitioning.run(&cells, total);

        // Stage: accumulate forces, all reads before any velocity write.
        proof {
            assert forall|c: int| 0 <= c <= total implies
                #[trigger] self.buffers.partitioning.cell_offsets@[c] <= cells@.len() by {
                crate::spatial::lemma_count_below_upto_bounds(cells@, c, cells@.len() as int);
            }
            assert forall|i: int| 0 <= i < self.buffers.particles@.len() implies (
            #[trigger] self.buffers.particles@[i]).color.id < 16 by {
            }
            assert forall|k: int| 0 <= k < self.buffers.partitioning.sorted_indices@.len()
                implies #[trigger] self.buffers.partitioning.sorted_indices@[k]
                < self.buffers.particles@.len() by {
            }
            assert(stage_pre(
                snapshot,
                self.buffers.particles@,
                self.buffers.partitioning.sorted_indices@,
                self.buffers.partitioning.cell_offsets@,
            ));
        }
        let accs = gather_forces(
            &snapshot,
            &self.buffers.particles,
            &self.buffers.partitioning.sorted_indices,
            &self.buffers.partitioning.cell_offsets,
            count,
        );

        // Stage: velocities, then positions.
        velocity_pass(&mut self.buffers.particles, &snapshot, &accs, count);
        position_pass(&mut self.buffers.particles, &snapshot, count);

        proof {
            if steady {
                let cseq = Seq::new(
                    count as nat,
                    |i: int| cell_index_spec(snapshot, before[i].position) as u32,
                );
                assert(cells@ =~= cseq);
                assert(self.buffers.partitioning.partitions(cseq, snapshot.total_cells()));
                assert forall|i: int| 0 <= i < count implies #[trigger] self.buffers.particles@[i]
                    == frame_result(
                    snapshot,
                    before,
                    self.buffers.partitioning.sorted_indices@,
                    self.buffers.partitioning.cell_offsets@,
                    i,
                ) by {
                    assert(mid[i] == before[i]);
                }
                assert(steady_frame_post(
                    snapshot,
                    before,
                    self.buffers,
                    count as int,
                ));
            }
        }
    }

    /// Queue a one-shot command; queuing is idempotent within a frame.
    pub fn apply_event(&mut self, event: ParticleEvent)
        ensures
            final(self).buffers == old(self).buffers,
            final(self).todo == apply_event_spec(old(self).todo, event),
    {
        match event {
            ParticleEvent::RandomizePositions => self.todo.set_randomize_positions(true),
            ParticleEvent::RandomizeColors => self.todo.set_randomize_colors(true),
        }
    }
}

/// The pending flags after queuing one command.
pub open spec fn apply_event_spec(todo: Todo, event: ParticleEvent) -> Todo {
    match event {
        ParticleEvent::RandomizePositions => Todo {
            randomize_positions: true,
            randomize_colors: todo.randomize_colors,
        },
        ParticleEvent::RandomizeColors => Todo {
            randomize_positions: todo.randomize_positions,
            randomize_colors: true,
        },
    }
}

/// Queuing the same one-shot command twice within a frame leaves exactly
/// the pending state that queuing it once leaves.
pub proof fn lemma_apply_event_idempotent(todo: Todo, event: ParticleEvent)
    ensures
        apply_event_spec(apply_event_spec(todo, event), event) == apply_event_spec(todo, event),
{
}

} // verus!
