use grid_visibility::builder::LumaImage;
use grid_visibility::bundle::{grid_json, json_from_decoded, visibility_bundle, visibility_json};
use grid_visibility::error::VisibilityError;
use grid_visibility::grid::OccupancyGrid;
use grid_visibility::sight::checked_is_visible;
use std::collections::BTreeMap;

fn grid_with_blocked(width: u32, height: u32, blocked: &[(i32, i32)]) -> OccupancyGrid {
    let mut cells = vec![true; (width * height) as usize];
    for &(x, y) in blocked {
        cells[(y as u32 * width + x as u32) as usize] = false;
    }
    OccupancyGrid::from_cells(width, height, cells).unwrap()
}

fn png_of(width: u32, height: u32, pixels: Vec<u8>) -> Vec<u8> {
    let img = image::GrayImage::from_raw(width, height, pixels).unwrap();
    let mut out = std::io::Cursor::new(Vec::new());
    image::DynamicImage::ImageLuma8(img)
        .write_to(&mut out, image::ImageOutputFormat::Png)
        .unwrap();
    out.into_inner()
}

#[test]
fn checked_sight_answers_inside_the_grid() {
    let g = grid_with_blocked(3, 3, &[(1, 0)]);
    assert_eq!(checked_is_visible((0, 0), (2, 0), &g), Ok(false));
    assert_eq!(checked_is_visible((0, 1), (2, 1), &g), Ok(true));
    assert_eq!(checked_is_visible((1, 0), (1, 0), &g), Ok(true));
}

#[test]
fn checked_sight_refuses_cells_outside_the_grid() {
    let g = grid_with_blocked(3, 3, &[]);
    assert_eq!(
        checked_is_visible((0, 0), (3, 0), &g),
        Err(VisibilityError::OutOfBoundsCoordinate)
    );
    assert_eq!(
        checked_is_visible((0, -1), (2, 2), &g),
        Err(VisibilityError::OutOfBoundsCoordinate)
    );
    assert_eq!(checked_is_visible((7, 7), (7, 7), &g), Ok(true));
}

#[test]
fn centre_of_the_open_grid_end_to_end() {
    let g = grid_with_blocked(3, 3, &[]);
    let b = visibility_bundle(&g, &vec![(1, 1)], 2).unwrap();
    assert_eq!(b.len(), 3);
    assert_eq!(
        b.get("(1, 1)").unwrap(),
        &vec![(0, 0), (1, 0), (2, 0), (0, 1), (1, 1), (2, 1), (0, 2), (1, 2), (2, 2)]
    );
    assert_eq!(b.get("blocked").unwrap(), &Vec::<(i32, i32)>::new());
}

#[test]
fn blocked_cell_end_to_end() {
    let g = grid_with_blocked(3, 3, &[(1, 0)]);
    let b = visibility_bundle(&g, &vec![(0, 0)], 2).unwrap();
    let seen = b.get("(0, 0)").unwrap();
    assert!(!seen.contains(&(2, 0)));
    assert!(!seen.contains(&(1, 0)));
    // the walk from (0, 0) to (2, 1) passes through (1, 0)
    assert!(!seen.contains(&(2, 1)));
    assert_eq!(seen, &vec![(0, 0), (0, 1), (1, 1), (0, 2), (1, 2), (2, 2)]);
    assert_eq!(b.get("blocked").unwrap(), &vec![(1, 0)]);
}

#[test]
fn without_points_every_cell_is_a_query() {
    let g = grid_with_blocked(3, 2, &[(1, 1)]);
    let b = visibility_bundle(&g, &vec![], 2).unwrap();
    assert_eq!(b.len(), 8);
    for (x, y) in g.all_cells() {
        assert!(b.get(&format!("({}, {})", x, y)).is_some());
    }
    assert_eq!(b.get("(1, 1)").unwrap(), &Vec::<(i32, i32)>::new());
    assert_eq!(b.get("(0, 0)").unwrap(), &vec![(0, 0), (1, 0), (2, 0), (0, 1), (2, 1)]);
    // the walk from (2, 1) to (0, 0) passes through (1, 1)
    assert_eq!(b.get("(2, 1)").unwrap(), &vec![(1, 0), (2, 0), (2, 1)]);
}

#[test]
fn candidates_are_the_passable_cells() {
    let g = grid_with_blocked(2, 2, &[(0, 0), (1, 1)]);
    let b = visibility_bundle(&g, &vec![(1, 0), (0, 0)], 2).unwrap();
    assert_eq!(b.get("(1, 0)").unwrap(), &vec![(1, 0), (0, 1)]);
    assert_eq!(b.get("(0, 0)").unwrap(), &Vec::<(i32, i32)>::new());
}

#[test]
fn point_outside_the_grid_is_refused() {
    let g = grid_with_blocked(2, 2, &[]);
    assert_eq!(
        visibility_bundle(&g, &vec![(0, 0), (2, 2)], 2).err(),
        Some(VisibilityError::OutOfBoundsCoordinate)
    );
}

#[test]
fn image_to_json() {
    let bytes = png_of(2, 1, vec![255, 0]);
    assert_eq!(
        visibility_json(&bytes, 2, 1, &vec![(0, 0)], 1).unwrap(),
        "{\"(0, 0)\":[[0,0]],\"all\":[[0,0],[1,0]],\"blocked\":[[1,0]]}"
    );
    assert_eq!(
        visibility_json(&bytes, 2, 1, &vec![], 0).unwrap(),
        "{\"(0, 0)\":[[0,0]],\"(1, 0)\":[],\"all\":[[0,0],[1,0]],\"blocked\":[[1,0]]}"
    );
}

#[test]
fn image_to_json_and_back() {
    let pixels: Vec<u8> = (0..20u32).map(|i| if i % 4 == 1 { 20 } else { 230 }).collect();
    let bytes = png_of(5, 4, pixels);
    let text = visibility_json(&bytes, 5, 4, &vec![], 3).unwrap();
    let parsed: BTreeMap<String, Vec<(i32, i32)>> = serde_json::from_str(&text).unwrap();
    assert_eq!(parsed.len(), 22);
    assert_eq!(parsed["all"].len(), 20);
    assert_eq!(parsed["blocked"], vec![(1, 0), (0, 1), (4, 1), (3, 2), (2, 3)]);
    let passable: Vec<(i32, i32)> =
        parsed["all"].iter().copied().filter(|c| !parsed["blocked"].contains(c)).collect();
    for (label, list) in &parsed {
        if label != "all" && label != "blocked" {
            let mut rest = passable.iter();
            assert!(list.iter().all(|c| rest.any(|p| p == c)));
        }
    }
}

#[test]
fn image_to_json_reports_each_failure() {
    let bytes = png_of(2, 2, vec![255; 4]);
    assert_eq!(
        visibility_json(&bytes, 0, 2, &vec![], 1).err(),
        Some(VisibilityError::InvalidDimensions)
    );
    assert_eq!(
        visibility_json(b"no image", 2, 2, &vec![], 1).err(),
        Some(VisibilityError::ImageLoadError)
    );
    assert_eq!(
        visibility_json(&bytes, 2, 2, &vec![(2, 0)], 1).err(),
        Some(VisibilityError::OutOfBoundsCoordinate)
    );
}

#[test]
fn grid_to_json() {
    let g = grid_with_blocked(2, 1, &[(1, 0)]);
    assert_eq!(
        grid_json(&g, &vec![(0, 0)], 1),
        Ok("{\"(0, 0)\":[[0,0]],\"all\":[[0,0],[1,0]],\"blocked\":[[1,0]]}".to_string())
    );
    assert_eq!(grid_json(&g, &vec![(0, 1)], 1), Err(VisibilityError::OutOfBoundsCoordinate));
}

#[test]
fn decoded_raster_to_json() {
    let luma = LumaImage { width: 2, height: 1, pixels: vec![255, 0] };
    assert_eq!(
        json_from_decoded(&luma, 2, 1, &vec![], 2),
        Ok("{\"(0, 0)\":[[0,0]],\"(1, 0)\":[],\"all\":[[0,0],[1,0]],\"blocked\":[[1,0]]}"
            .to_string())
    );
}

#[test]
fn decoded_raster_to_json_reports_each_failure_in_turn() {
    let luma = LumaImage { width: 2, height: 2, pixels: vec![255; 4] };
    let short = LumaImage { width: 2, height: 2, pixels: vec![255; 3] };
    assert_eq!(
        json_from_decoded(&short, 0, 2, &vec![(9, 9)], 1),
        Err(VisibilityError::InvalidDimensions)
    );
    assert_eq!(
        json_from_decoded(&short, 2, 2, &vec![(9, 9)], 1),
        Err(VisibilityError::ImageLoadError)
    );
    assert_eq!(
        json_from_decoded(&luma, 2, 2, &vec![(9, 9)], 1),
        Err(VisibilityError::OutOfBoundsCoordinate)
    );
    assert!(json_from_decoded(&luma, 2, 2, &vec![(1, 1)], 1).is_ok());
}
