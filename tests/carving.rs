use seam_carve::carve::Carver;
use seam_carve::grid::EnergyGrid;
use seam_carve::raster::{ErrorKind, Image, Rgba};

fn px(r: u8, g: u8, b: u8, a: u8) -> Rgba {
    Rgba { r, g, b, a }
}

fn uniform(w: usize, h: usize) -> Image {
    let rows = (0..h).map(|_| vec![px(10, 20, 30, 255); w]).collect();
    Image::from_rows(rows)
}

fn gradient(w: usize, h: usize) -> Image {
    let rows = (0..h)
        .map(|y| (0..w).map(|x| px((x * 40) as u8, (y * 30) as u8, ((x * y) % 256) as u8, 255)).collect())
        .collect();
    Image::from_rows(rows)
}

#[test]
fn uniform_image_has_zero_energy_and_leftmost_seam() {
    let img = uniform(3, 3);
    let grid = EnergyGrid::from_image(&img).unwrap();
    for y in 0..3 {
        for x in 0..3 {
            assert_eq!(grid.energy(x, y), 0);
        }
    }
    assert_eq!(grid.find_path(), vec![(0, 0), (0, 1), (0, 2)]);
}

#[test]
fn energy_exact_values() {
    let black = px(0, 0, 0, 0);
    let white = px(255, 255, 255, 255);
    let img = Image::from_rows(vec![vec![black, white, black]]);
    let grid = EnergyGrid::from_image(&img).unwrap();
    assert_eq!(grid.energy(0, 0), 1020);
    assert_eq!(grid.energy(1, 0), 0);
    assert_eq!(grid.energy(2, 0), 1020);
    assert_eq!(grid.find_path(), vec![(1, 0)]);
}

#[test]
fn path_energy_accumulates_least_neighbour() {
    let a = px(0, 0, 0, 0);
    let b = px(100, 0, 0, 0);
    // energies of row 0: [100, 0, 100]; row 1 likewise, plus vertical terms of zero
    let img = Image::from_rows(vec![vec![a, b, a], vec![a, b, a]]);
    let grid = EnergyGrid::from_image(&img).unwrap();
    assert_eq!(grid.energy(0, 0), 100);
    assert_eq!(grid.energy(1, 0), 0);
    assert_eq!(grid.path_energy(0, 1), 100);
    assert_eq!(grid.path_energy(1, 1), 0);
    assert_eq!(grid.path_energy(2, 1), 100);
    assert_eq!(grid.find_path(), vec![(1, 0), (1, 1)]);
}

#[test]
fn seam_cost_is_least_of_bottom_row() {
    let img = gradient(6, 5);
    let grid = EnergyGrid::from_image(&img).unwrap();
    let path = grid.find_path();
    assert_eq!(path.len(), 5);
    let cost: u128 = path.iter().map(|&(x, y)| grid.energy(x, y) as u128).sum();
    let least = (0..6).map(|x| grid.path_energy(x, 4)).min().unwrap();
    assert_eq!(cost, least);
    for y in 1..5 {
        assert_eq!(path[y].1, y);
        assert!(path[y].0 < 6);
        assert!((path[y].0 as isize - path[y - 1].0 as isize).abs() <= 1);
    }
}

#[test]
fn remove_least_seam_narrows_by_one() {
    let img = gradient(5, 4);
    let mut grid = EnergyGrid::from_image(&img).unwrap();
    let path = grid.find_path();
    assert_eq!(grid.remove_seam(&path), Ok(()));
    assert_eq!(grid.width(), 4);
    assert_eq!(grid.height(), 4);
}

#[test]
fn add_least_seam_widens_by_one_with_mean_pixel() {
    let a = px(0, 0, 0, 0);
    let b = px(10, 20, 30, 41);
    let img = Image::from_rows(vec![vec![a, b]]);
    let mut grid = EnergyGrid::from_image(&img).unwrap();
    assert_eq!(grid.add_seam(&vec![(0, 0)]), Ok(()));
    assert_eq!(grid.width(), 3);
    assert_eq!(grid.height(), 1);
    assert_eq!(grid.pixels().pixel(1, 0), px(5, 10, 15, 20));
    assert_eq!(grid.pixels().pixel(2, 0), b);
}

#[test]
fn remove_seam_errors() {
    let mut narrow = EnergyGrid::from_image(&uniform(1, 2)).unwrap();
    assert_eq!(narrow.remove_seam(&vec![(0, 0), (0, 1)]), Err(ErrorKind::DimensionExhausted));
    let mut grid = EnergyGrid::from_image(&uniform(3, 2)).unwrap();
    assert_eq!(grid.remove_seam(&vec![(0, 0), (2, 1)]), Err(ErrorKind::InvalidSeam));
    assert_eq!(grid.remove_seam(&vec![(0, 0)]), Err(ErrorKind::InvalidSeam));
    assert_eq!(grid.add_seam(&vec![(3, 0), (2, 1)]), Err(ErrorKind::InvalidSeam));
    assert_eq!(grid.width(), 3);
}

#[test]
fn empty_image_is_refused() {
    assert!(matches!(EnergyGrid::from_image(&Image::from_rows(vec![])), Err(ErrorKind::EmptyImage)));
    assert!(matches!(
        EnergyGrid::from_image(&Image::from_rows(vec![vec![], vec![]])),
        Err(ErrorKind::EmptyImage)
    ));
    assert!(matches!(Carver::new(Image::from_rows(vec![])), Err(ErrorKind::EmptyImage)));
    assert!(Image::from_rows(vec![vec![]]).is_empty());
    assert!(!uniform(1, 1).is_empty());
}

#[test]
fn rotation_turns_and_returns() {
    let img = gradient(3, 2);
    let mut turned = img.duplicate();
    turned.rotate_clockwise();
    assert_eq!(turned.width(), 2);
    assert_eq!(turned.height(), 3);
    assert_eq!(turned.pixel(0, 0), img.pixel(0, 1));
    assert_eq!(turned.pixel(1, 0), img.pixel(0, 0));
    turned.rotate_counterclockwise();
    assert_eq!(turned.into_rows(), img.into_rows());
}

#[test]
fn resize_horizontal_shrinks_five_by_three() {
    let mut carver = Carver::new(gradient(5, 3)).unwrap();
    assert_eq!(carver.resize_horizontal(-2), Ok(()));
    assert_eq!(carver.width(), 3);
    assert_eq!(carver.height(), 3);
}

#[test]
fn resize_horizontal_grows_five_by_three() {
    let mut carver = Carver::new(gradient(5, 3)).unwrap();
    assert_eq!(carver.resize_horizontal(3), Ok(()));
    assert_eq!(carver.width(), 8);
    assert_eq!(carver.height(), 3);
    assert_eq!(carver.grid().width(), 8);
}

#[test]
fn resize_vertical_shrinks_four_by_six() {
    let mut carver = Carver::new(gradient(4, 6)).unwrap();
    assert_eq!(carver.resize_vertical(-2), Ok(()));
    assert_eq!(carver.width(), 4);
    assert_eq!(carver.height(), 4);
}

#[test]
fn resize_vertical_grows_by_distance() {
    let mut carver = Carver::new(gradient(4, 3)).unwrap();
    assert_eq!(carver.resize_vertical(2), Ok(()));
    assert_eq!(carver.width(), 4);
    assert_eq!(carver.height(), 5);
}

#[test]
fn resize_round_trip_restores_width() {
    let mut carver = Carver::new(gradient(5, 3)).unwrap();
    assert_eq!(carver.resize_horizontal(2), Ok(()));
    assert_eq!(carver.resize_horizontal(-2), Ok(()));
    assert_eq!(carver.width(), 5);
    assert_eq!(carver.height(), 3);
}

#[test]
fn resize_that_exhausts_width_fails_unchanged() {
    let mut carver = Carver::new(gradient(3, 2)).unwrap();
    assert_eq!(carver.resize_horizontal(-3), Err(ErrorKind::DimensionExhausted));
    assert_eq!(carver.width(), 3);
    assert_eq!(carver.resize_vertical(-2), Err(ErrorKind::DimensionExhausted));
    assert_eq!(carver.height(), 2);
    let rows = carver.into_image().into_rows();
    assert_eq!(rows, gradient(3, 2).into_rows());
}

#[test]
fn image_and_grid_stay_in_step() {
    let mut carver = Carver::new(gradient(6, 4)).unwrap();
    assert_eq!(carver.resize_horizontal(-2), Ok(()));
    assert_eq!(carver.resize_vertical(1), Ok(()));
    let image = carver.image().duplicate();
    let grid = carver.grid();
    for y in 0..image.height() {
        for x in 0..image.width() {
            assert_eq!(image.pixel(x, y), grid.pixels().pixel(x, y));
        }
    }
}

#[test]
fn energy_image_clamps_to_grey() {
    let black = px(0, 0, 0, 0);
    let dim = px(20, 0, 0, 0);
    let white = px(255, 255, 255, 255);
    let img = Image::from_rows(vec![vec![black, white, dim]]);
    let grid = EnergyGrid::from_image(&img).unwrap();
    assert_eq!(grid.energy(1, 0), 20);
    let picture = grid.energy_image();
    assert_eq!(picture.width(), 3);
    assert_eq!(picture.height(), 1);
    assert_eq!(picture.pixel(0, 0), px(255, 255, 255, 255));
    assert_eq!(picture.pixel(1, 0), px(20, 20, 20, 255));
}
