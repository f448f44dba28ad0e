use particle_life::compute::{surrounding_cells, cell_index, ColorMatrix, GpuSettings};
use particle_life::data::SimulationSettings;
use particle_life::fixed::{UVec2, Vec2, SCALE};

#[test]
fn test_color_matrix() {
    let mut array: Vec<Vec<i64>> = Vec::new();
    for i in 0..16 {
        let mut row: Vec<i64> = Vec::new();
        for j in 0..16 {
            row.push((i * 16 + j) as i64);
        }
        array.push(row);
    }
    let matrix = ColorMatrix::from_array(&array);
    println!("{:?}", matrix);
}

#[test]
fn test_cell_index() {
    let settings = SimulationSettings::default();
    let bounds = settings.bounds();
    let max_distance = settings.max_distance() as i64;
    let position = Vec2::new(
        -(bounds.x as i64) * SCALE + max_distance * SCALE * 3 / 2,
        -(bounds.y as i64) * SCALE + max_distance * SCALE,
    );
    let snapshot = GpuSettings::snapshot(&settings, 0, SCALE, 0);
    let cell_index = cell_index(&snapshot, position);
    println!("{}", cell_index);
}

#[test]
fn test_surrounding_cells() {
    let cells = UVec2::new(3, 3);
    let cell = UVec2::new(2, 2);
    let surrounding = surrounding_cells(cell, cells);
    println!("{:?}", surrounding);
}

#[test]
fn test_manual_rem_euclid() {
    fn rem_euclid(a: i32, b: i32) -> i32 {
        (a % b + b) % b
    }
    assert_eq!(rem_euclid(0, 1), 0);
    assert_eq!(rem_euclid(1, 1), 0);
    assert_eq!(rem_euclid(-1, 1), 0);
    assert_eq!(rem_euclid(2, 1), 0);
    assert_eq!(rem_euclid(-2, 1), 0);

    assert_eq!(rem_euclid(0, 2), 0);
    assert_eq!(rem_euclid(1, 2), 1);
    assert_eq!(rem_euclid(-4, 3), 2);
    assert_eq!(rem_euclid(2, 2), 0);
    assert_eq!(rem_euclid(-2, 2), 0);
}
