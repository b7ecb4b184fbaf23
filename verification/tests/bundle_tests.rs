use grid_visibility::bundle::{assemble, ResultBundle};
use grid_visibility::grid::OccupancyGrid;
use grid_visibility::keys::coordinate_key;
use grid_visibility::visibility::{compute_visibility, VisibilityMap};
use std::collections::BTreeMap;

fn grid_with_blocked(width: u32, height: u32, blocked: &[(i32, i32)]) -> OccupancyGrid {
    let mut cells = vec![true; (width * height) as usize];
    for &(x, y) in blocked {
        cells[(y as u32 * width + x as u32) as usize] = false;
    }
    OccupancyGrid::from_cells(width, height, cells).unwrap()
}

fn bundle_for(g: &OccupancyGrid, queries: &Vec<(i32, i32)>) -> ResultBundle {
    let m = compute_visibility(queries, &g.passable_cells(), g).unwrap();
    assemble(g, m)
}

#[test]
fn key_is_bracketed_with_comma_and_space() {
    assert_eq!(coordinate_key((0, 0)), "(0, 0)");
    assert_eq!(coordinate_key((12, 305)), "(12, 305)");
    assert_eq!(coordinate_key((-12, 7)), "(-12, 7)");
    assert_eq!(coordinate_key((10, -100)), "(10, -100)");
    assert_eq!(coordinate_key((9, 10)), "(9, 10)");
}

#[test]
fn key_of_the_extreme_coordinates() {
    assert_eq!(coordinate_key((i32::MAX, i32::MIN)), "(2147483647, -2147483648)");
}

#[test]
fn key_is_what_formatting_gives() {
    for &(x, y) in &[(0, 1), (-1, 0), (99, 100), (-1000, 1001), (123456789, -987654321)] {
        assert_eq!(coordinate_key((x, y)), format!("({}, {})", x, y));
    }
}

#[test]
fn bundle_holds_the_lists_and_the_two_reserved_entries() {
    let g = grid_with_blocked(2, 2, &[(1, 0)]);
    let b = bundle_for(&g, &vec![(0, 0), (1, 1)]);
    assert_eq!(b.len(), 4);
    assert_eq!(b.get("all").unwrap(), &vec![(0, 0), (1, 0), (0, 1), (1, 1)]);
    assert_eq!(b.get("blocked").unwrap(), &vec![(1, 0)]);
    assert_eq!(b.get("(0, 0)").unwrap(), &vec![(0, 0), (0, 1), (1, 1)]);
    assert_eq!(b.get("(1, 1)").unwrap(), &vec![(0, 0), (0, 1), (1, 1)]);
    assert!(b.get("(1, 0)").is_none());
    assert!(b.get("(0,0)").is_none());
    assert!(b.get("passable").is_none());
}

#[test]
fn bundle_of_an_empty_map_holds_the_reserved_entries() {
    let g = grid_with_blocked(3, 1, &[]);
    let b = assemble(&g, VisibilityMap::new());
    assert_eq!(b.len(), 2);
    assert_eq!(b.get("blocked").unwrap(), &Vec::<(i32, i32)>::new());
    assert_eq!(b.get("all").unwrap(), &vec![(0, 0), (1, 0), (2, 0)]);
}

#[test]
fn bundle_keeps_every_entry_of_the_map() {
    let g = grid_with_blocked(4, 3, &[(1, 1), (2, 0)]);
    let queries = g.all_cells();
    let m = compute_visibility(&queries, &g.passable_cells(), &g).unwrap();
    let lists: Vec<((i32, i32), Vec<(i32, i32)>)> =
        (0..m.len()).map(|i| (m.key_at(i), m.list_at(i).clone())).collect();
    let b = assemble(&g, m);
    assert_eq!(b.len(), lists.len() + 2);
    for (q, list) in lists {
        assert_eq!(b.get(&format!("({}, {})", q.0, q.1)).unwrap(), &list);
    }
}

#[test]
fn bundle_all_and_blocked_sizes() {
    let g = grid_with_blocked(5, 4, &[(0, 0), (4, 3), (2, 2)]);
    let b = bundle_for(&g, &vec![]);
    let all = b.get("all").unwrap();
    let blocked = b.get("blocked").unwrap();
    assert_eq!(all.len(), 20);
    let passable = all.iter().filter(|c| g.is_passable(**c)).count();
    assert_eq!(blocked.len() + passable, all.len());
    for c in blocked {
        assert!(g.is_blocked(*c));
    }
}

#[test]
fn bundle_entries_can_be_walked() {
    let g = grid_with_blocked(2, 1, &[(1, 0)]);
    let b = bundle_for(&g, &vec![(0, 0)]);
    let mut labels: Vec<String> = (0..b.len()).map(|i| b.label_at(i).clone()).collect();
    labels.sort();
    assert_eq!(labels, vec!["(0, 0)", "all", "blocked"]);
    for i in 0..b.len() {
        assert_eq!(b.get(b.label_at(i)).unwrap(), b.list_at(i));
    }
}

#[test]
fn keys_outside_the_grid_are_kept_apart() {
    let g = grid_with_blocked(1, 1, &[]);
    let mut m = VisibilityMap::new();
    m.insert((-1, 5), vec![(0, 0)]);
    m.insert((1, -5), vec![]);
    m.insert((-15, 0), vec![(0, 0), (0, 0)]);
    let b = assemble(&g, m);
    assert_eq!(b.len(), 5);
    assert_eq!(b.get("(-1, 5)").unwrap(), &vec![(0, 0)]);
    assert_eq!(b.get("(1, -5)").unwrap(), &Vec::<(i32, i32)>::new());
    assert_eq!(b.get("(-15, 0)").unwrap(), &vec![(0, 0), (0, 0)]);
}

#[test]
fn json_is_one_object_of_pair_arrays() {
    let g = grid_with_blocked(2, 1, &[(1, 0)]);
    let b = bundle_for(&g, &vec![(0, 0)]);
    assert_eq!(
        b.to_json(),
        "{\"(0, 0)\":[[0,0]],\"all\":[[0,0],[1,0]],\"blocked\":[[1,0]]}"
    );
}

#[test]
fn json_of_the_open_three_by_three_grid_centre() {
    let g = grid_with_blocked(3, 3, &[]);
    let b = bundle_for(&g, &vec![(1, 1)]);
    let cells = "[[0,0],[1,0],[2,0],[0,1],[1,1],[2,1],[0,2],[1,2],[2,2]]";
    assert_eq!(
        b.to_json(),
        format!("{{\"(1, 1)\":{},\"all\":{},\"blocked\":[]}}", cells, cells)
    );
}

#[test]
fn json_round_trip_recovers_keys_and_lists() {
    let g = grid_with_blocked(4, 3, &[(1, 1), (2, 0), (3, 2)]);
    let b = bundle_for(&g, &g.all_cells());
    let text = b.to_json();
    let parsed: BTreeMap<String, Vec<(i32, i32)>> = serde_json::from_str(&text).unwrap();
    assert_eq!(parsed.len(), b.len());
    for i in 0..b.len() {
        assert_eq!(parsed.get(b.label_at(i)).unwrap(), b.list_at(i));
    }
    for (label, list) in &parsed {
        assert_eq!(b.get(label).unwrap(), list);
    }
}

#[test]
fn json_round_trip_keeps_negative_coordinates() {
    let g = grid_with_blocked(1, 1, &[(0, 0)]);
    let mut m = VisibilityMap::new();
    m.insert((-7, 3), vec![(2, -9), (-2147483648, 2147483647)]);
    let b = assemble(&g, m);
    let text = b.to_json();
    assert_eq!(
        text,
        "{\"(-7, 3)\":[[2,-9],[-2147483648,2147483647]],\"all\":[[0,0]],\"blocked\":[[0,0]]}"
    );
    let parsed: BTreeMap<String, Vec<(i32, i32)>> = serde_json::from_str(&text).unwrap();
    assert_eq!(parsed.get("(-7, 3)").unwrap(), &vec![(2, -9), (-2147483648, 2147483647)]);
}
