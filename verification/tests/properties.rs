use particle_life::compute::{cell_index, ColorMatrix, GpuSettings};
use particle_life::data::{random_colors, ColorId, Particle, SimulationSettings};
use particle_life::engine::Simulation;
use particle_life::events::ParticleEvent;
use particle_life::fixed::{wrap_coord, UVec2, Vec2, SCALE};
use particle_life::forces::{
    acceleration, acceleration2, acceleration3, acceleration90_, acceleration_attr,
    accumulate_forces, planets,
};
use particle_life::spatial::{count_cells, prefix_sum_offsets, sort_particles, SpatialPartitioning};

fn small_world() -> SimulationSettings {
    let mut settings = SimulationSettings::default();
    settings.update_max_distance(50);
    settings.update_bounds(UVec2::new(100, 100));
    settings.min_distance = 0;
    settings
}

#[test]
fn color_matrix_set_get_all_lanes() {
    let mut matrix = ColorMatrix::empty();
    for lane in 0..4 {
        matrix.set(lane, 0, 100 + lane as i64);
    }
    matrix.set(15, 15, -7);
    for lane in 0..4 {
        assert_eq!(matrix.get(lane, 0), 100 + lane as i64);
    }
    assert_eq!(matrix.get(15, 15), -7);
    assert_eq!(matrix.get(0, 15), 0);
}

#[test]
fn toroidal_wrap_is_idempotent_inside() {
    assert_eq!(wrap_coord(500, 1000), 500);
    assert_eq!(wrap_coord(1000, 1000), 1000);
    assert_eq!(wrap_coord(-1000, 1000), -1000);
    assert_eq!(wrap_coord(0, 1000), 0);
}

#[test]
fn toroidal_wrap_just_outside() {
    assert_eq!(wrap_coord(1005, 1000), -995);
    assert_eq!(wrap_coord(-1005, 1000), 995);
    assert_eq!(wrap_coord(3005, 1000), -995);
}

#[test]
fn cell_geometry_scenario() {
    let settings = small_world();
    let cells = settings.cell_count();
    assert_eq!(cells.x, 4);
    assert_eq!(cells.y, 4);
    let snapshot = GpuSettings::snapshot(&settings, 0, SCALE, 0);
    let low = cell_index(&snapshot, Vec2::new(-99 * SCALE, -99 * SCALE));
    assert_eq!(low, 0);
    let high = cell_index(&snapshot, Vec2::new(99 * SCALE, 99 * SCALE));
    assert_eq!(high, 15);
}

#[test]
fn cell_index_always_in_range() {
    let settings = small_world();
    let snapshot = GpuSettings::snapshot(&settings, 0, SCALE, 0);
    let total = 16;
    for p in [
        Vec2::new(0, 0),
        Vec2::new(100 * SCALE, 100 * SCALE),
        Vec2::new(-100 * SCALE, 100 * SCALE),
        Vec2::new(-100 * SCALE + 1, -1),
        Vec2::new(99 * SCALE + 1023, -99 * SCALE - 1023),
    ] {
        assert!(cell_index(&snapshot, p) < total);
    }
}

#[test]
fn prefix_sum_of_empty_histogram() {
    let hist: Vec<u32> = Vec::new();
    let offsets = prefix_sum_offsets(&hist);
    assert_eq!(offsets, vec![0]);
}

#[test]
fn zero_particle_count_is_a_noop() {
    let mut settings = SimulationSettings::default();
    settings.particle_count = 0;
    let mut sim = Simulation::new();
    sim.tick(&settings, 17, 512);
    assert_eq!(sim.buffers.particles.len(), 0);
    assert_eq!(sim.buffers.initialized_particles, 0);
}

#[test]
fn prefix_sum_offsets_shape() {
    let hist: Vec<u32> = vec![3, 0, 2];
    let offsets = prefix_sum_offsets(&hist);
    assert_eq!(offsets, vec![0, 3, 3, 5]);
    for w in offsets.windows(2) {
        assert!(w[0] <= w[1]);
    }
    assert_eq!(offsets[2] + hist[2], 5);
}

#[test]
fn counting_sort_round_trip() {
    let cells: Vec<u32> = vec![2, 0, 2, 1];
    let hist = count_cells(&cells, 3);
    assert_eq!(hist, vec![1, 1, 2]);
    let offsets = prefix_sum_offsets(&hist);
    assert_eq!(offsets, vec![0, 1, 2, 4]);
    let sorted = sort_particles(&cells, &offsets, 3);
    assert_eq!(sorted.len(), cells.len());
    // Every slot of cell c's range holds a particle of cell c, and every
    // particle id appears exactly once.
    for c in 0..3usize {
        for k in offsets[c] as usize..offsets[c + 1] as usize {
            assert_eq!(cells[sorted[k] as usize], c as u32);
        }
    }
    let mut seen = [false; 4];
    for &id in &sorted {
        assert!(!seen[id as usize]);
        seen[id as usize] = true;
    }
    assert_eq!(sorted, vec![1, 3, 0, 2]);
}

#[test]
fn attracting_pair_accelerates_toward_each_other() {
    let mut settings = small_world();
    settings.matrix[0][0] = SCALE / 2;
    let snapshot = GpuSettings::snapshot(&settings, 17, 512, 2);

    let p0 = Particle::new(Vec2::new(0, 0), Vec2::new(0, 0), ColorId::new(0));
    let p1 = Particle::new(Vec2::new(25 * SCALE, 0), Vec2::new(0, 0), ColorId::new(0));
    let particles = vec![p0, p1];

    let mut cells: Vec<u32> = Vec::new();
    for p in &particles {
        cells.push(cell_index(&snapshot, p.position));
    }
    let mut partitioning = SpatialPartitioning::new();
    partitioning.run(&cells, 16);

    let acc0 = accumulate_forces(
        &snapshot,
        &particles,
        &partitioning.sorted_indices,
        &partitioning.cell_offsets,
        p0,
    );
    let acc1 = accumulate_forces(
        &snapshot,
        &particles,
        &partitioning.sorted_indices,
        &partitioning.cell_offsets,
        p1,
    );
    // Placed half a cutoff apart with coefficient one half and no minimum
    // distance, the first radial law gives exactly half a unit of force.
    assert_eq!(acc0, (512, 0));
    assert_eq!(acc1, (-512, 0));
    assert!(acc0.0 > 0 && acc1.0 < 0);
}

#[test]
fn r1_law_exact_value() {
    let accel = acceleration(0, Vec2::new(512, 0), SCALE / 2);
    assert_eq!(accel.x, 512);
    assert_eq!(accel.y, 0);
    let repel = acceleration(512, Vec2::new(256, 0), SCALE / 2);
    // Inside the relative minimum distance the law repels regardless of the
    // coefficient: dist/rmin - 1 is negative.
    assert!(repel.x < 0);
}

#[test]
fn law_family_exact_values() {
    let half = SCALE / 2;
    assert_eq!(acceleration2(0, Vec2::new(512, 0), half).x, 1024);
    assert_eq!(acceleration2(0, Vec2::new(512, 0), half).y, 0);
    assert_eq!(acceleration3(0, Vec2::new(512, 0), half).x, 2048);
    let deg = acceleration90_(0, Vec2::new(512, 0), half);
    assert_eq!((deg.x, deg.y), (0, 256));
    let attr = acceleration_attr(0, Vec2::new(512, 0), 0);
    assert_eq!((attr.x, attr.y), (512, 0));
    let grav = planets(0, Vec2::new(512, 0), half);
    assert_eq!((grav.x, grav.y), (40, 0));
}

#[test]
fn deterministic_attraction_step() {
    let mut settings = small_world();
    settings.matrix[0][0] = SCALE / 2;
    settings.particle_count = 2;

    let mut sim = Simulation::new();
    sim.buffers.particles = vec![
        Particle::new(Vec2::new(0, 0), Vec2::new(0, 0), ColorId::new(0)),
        Particle::new(Vec2::new(25 * SCALE, 0), Vec2::new(0, 0), ColorId::new(0)),
    ];
    sim.buffers.allocated_particles = 2;
    sim.buffers.initialized_particles = 2;

    // One full second with no velocity decay: each particle accelerates to
    // 25 units/s toward the other and steps onto its partner's old spot.
    sim.tick(&settings, SCALE, SCALE);
    assert_eq!(sim.buffers.particles[0].velocity, Vec2::new(25 * SCALE, 0));
    assert_eq!(sim.buffers.particles[1].velocity, Vec2::new(-25 * SCALE, 0));
    assert_eq!(sim.buffers.particles[0].position, Vec2::new(25 * SCALE, 0));
    assert_eq!(sim.buffers.particles[1].position, Vec2::new(0, 0));
}

#[test]
fn growth_initializes_exactly_the_new_particles() {
    let mut settings = SimulationSettings::default();
    settings.particle_count = 100;
    let mut sim = Simulation::new();
    sim.tick(&settings, 17, 512);
    assert_eq!(sim.buffers.initialized_particles, 100);

    settings.particle_count = 1000;
    sim.tick(&settings, 17, 512);
    assert_eq!(sim.buffers.initialized_particles, 1000);
    assert_eq!(sim.buffers.particles.len(), 1000);
    let bx = settings.bounds().x as i64 * SCALE;
    let by = settings.bounds().y as i64 * SCALE;
    for p in &sim.buffers.particles {
        assert!(-bx <= p.position.x && p.position.x <= bx);
        assert!(-by <= p.position.y && p.position.y <= by);
    }
}

#[test]
fn randomize_positions_coalesces() {
    let mut settings = SimulationSettings::default();
    settings.particle_count = 10;
    let mut sim = Simulation::new();
    sim.apply_event(ParticleEvent::RandomizePositions);
    sim.apply_event(ParticleEvent::RandomizePositions);
    // Queuing twice leaves exactly one pending application.
    assert!(sim.todo.randomize_positions());
    assert!(!sim.todo.randomize_colors());
    sim.tick(&settings, 17, 512);
    assert!(!sim.todo.randomize_positions());
}

#[test]
fn settings_round_trip_and_rejection() {
    let mut settings = SimulationSettings::default();
    settings.randomize_attractions();
    for row in &settings.matrix {
        for &v in row {
            assert!(-SCALE <= v && v < SCALE);
        }
    }
    let portable = settings.serialize();
    assert_eq!(portable.color_count, 4);
    assert_eq!(portable.matrix.len(), 4);
    assert_eq!(portable.color_order.len(), 4);

    let restored = SimulationSettings::deserialize(&portable).expect("well-formed form");
    assert_eq!(restored.color_count, 4);
    assert_eq!(restored.color_order.len(), 16);
    assert_eq!(restored.matrix.len(), 16);
    for i in 0..4 {
        for j in 0..4 {
            assert_eq!(restored.matrix[i][j], settings.matrix[i][j]);
        }
    }
    for i in 0..16 {
        for j in 0..16 {
            if i >= 4 || j >= 4 {
                assert_eq!(restored.matrix[i][j], 0);
            }
        }
    }

    let mut bad = settings.serialize();
    bad.color_count = 0;
    assert!(SimulationSettings::deserialize(&bad).is_none());
    let mut bad2 = settings.serialize();
    bad2.matrix.pop();
    assert!(SimulationSettings::deserialize(&bad2).is_none());
    let mut bad3 = settings.serialize();
    bad3.matrix[1].push(0);
    assert!(SimulationSettings::deserialize(&bad3).is_none());
    let mut bad4 = settings.serialize();
    bad4.color_order.pop();
    assert!(SimulationSettings::deserialize(&bad4).is_none());
    let mut bad5 = settings.serialize();
    bad5.color_order[0] = particle_life::data::ColorId::new(0);
    bad5.color_order[1] = particle_life::data::ColorId::new(0);
    // A duplicated palette entry cannot pad back to the full palette.
    assert!(SimulationSettings::deserialize(&bad5).is_none());
}

#[test]
fn bounds_snap_to_cutoff_multiples() {
    let settings = SimulationSettings::default();
    // The preferred 3600x2100 half-extents snap to multiples of 250.
    assert_eq!(settings.bounds(), UVec2::new(3500, 2000));
    let mut settings = SimulationSettings::default();
    settings.update_max_distance(50);
    settings.update_bounds(UVec2::new(130, 160));
    assert_eq!(settings.bounds(), UVec2::new(150, 150));
    assert_eq!(settings.cell_count(), UVec2::new(6, 6));
}

#[test]
fn random_colors_len() {
    assert_eq!(random_colors(5).len(), 5);
    assert_eq!(random_colors(30).len(), 16);
    assert_eq!(random_colors(0).len(), 0);
}

#[test]
fn randomize_colors_keeps_palette() {
    let mut settings = SimulationSettings::default();
    settings.randomize_colors();
    let mut seen = [false; 16];
    for c in &settings.color_order {
        assert!(c.id < 16);
        assert!(!seen[c.id as usize]);
        seen[c.id as usize] = true;
    }
}
