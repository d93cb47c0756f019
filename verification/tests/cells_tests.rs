use geo_index_service::cells::{
    assemble_ring, cells_in_reach, extend_ring, neighbors_of, search_cells, MAX_CELL_LENGTH,
    WIDEST_RING,
};
use geo_index_service::text::text_precedes;

fn strings(items: &[&str]) -> Vec<String> {
    items.iter().map(|s| s.to_string()).collect()
}

#[test]
fn neighbours_come_from_the_codec() {
    let around = neighbors_of("9q60y60rhs").unwrap();
    assert_eq!(
        around,
        strings(&[
            "9q60y60rht",
            "9q60y60rhv",
            "9q60y60rhu",
            "9q60y60rhg",
            "9q60y60rhe",
            "9q60y60rh7",
            "9q60y60rhk",
            "9q60y60rhm",
        ])
    );
}

#[test]
fn identifiers_that_the_codec_refuses_have_no_neighbours() {
    assert_eq!(MAX_CELL_LENGTH, 12);
    assert!(neighbors_of("").is_none());
    assert!(neighbors_of("9q60y60rhs9q6").is_none());
    assert!(neighbors_of("9q60a").is_none());
    assert!(neighbors_of("ünï").is_none());
    assert!(neighbors_of("9q60y60rhs9q").is_some());
    assert!(neighbors_of("9").is_some());
}

#[test]
fn the_ring_is_the_centre_and_its_neighbours() {
    let ring = search_cells("9q60y60rhs");
    assert_eq!(
        ring,
        strings(&[
            "9q60y60rhs",
            "9q60y60rht",
            "9q60y60rhv",
            "9q60y60rhu",
            "9q60y60rhg",
            "9q60y60rhe",
            "9q60y60rh7",
            "9q60y60rhk",
            "9q60y60rhm",
        ])
    );
    assert_eq!(search_cells(""), strings(&[""]));
    assert_eq!(search_cells("not a cell"), strings(&["not a cell"]));
}

#[test]
fn a_ring_names_no_cell_twice() {
    let ring = assemble_ring("c", Some(strings(&["a", "c", "b", "a", "d", "b"])));
    assert_eq!(ring, strings(&["c", "a", "b", "d"]));
    assert_eq!(assemble_ring("c", None), strings(&["c"]));
    assert_eq!(assemble_ring("c", Some(Vec::new())), strings(&["c"]));
    let mut ring = strings(&["x", "y"]);
    extend_ring(&mut ring, &strings(&["y", "z", "x", "z", "w"]));
    assert_eq!(ring, strings(&["x", "y", "z", "w"]));
}

#[test]
fn every_step_widens_the_ring_by_one_cell() {
    assert_eq!(WIDEST_RING, 8);
    assert_eq!(cells_in_reach("9q60y60", 0), strings(&["9q60y60"]));
    let mut one = cells_in_reach("9q60y60", 1);
    let mut ring = search_cells("9q60y60");
    one.sort();
    ring.sort();
    assert_eq!(one, ring);
    for reach in 0..=4usize {
        let mut cells = cells_in_reach("9q60y60", reach);
        assert_eq!(cells.len(), (2 * reach + 1) * (2 * reach + 1));
        cells.sort();
        cells.dedup();
        assert_eq!(cells.len(), (2 * reach + 1) * (2 * reach + 1));
    }
    assert_eq!(cells_in_reach("", 3), strings(&[""]));
}

#[test]
fn texts_are_ordered_by_their_bytes() {
    assert!(text_precedes("", ""));
    assert!(text_precedes("", "a"));
    assert!(!text_precedes("a", ""));
    assert!(text_precedes("a", "a"));
    assert!(text_precedes("a", "ab"));
    assert!(!text_precedes("ab", "a"));
    assert!(text_precedes("ab", "b"));
    assert!(text_precedes("B", "a"));
    assert!(!text_precedes("a", "B"));
    assert!(text_precedes("d10", "d2"));
    assert!(text_precedes("z", "é"));
    assert!(!text_precedes("é", "z"));
    for a in ["", "a", "ab", "b", "B", "é", "日本", "d1", "d10"] {
        for b in ["", "a", "ab", "b", "B", "é", "日本", "d1", "d10"] {
            assert_eq!(text_precedes(a, b), a <= b);
        }
    }
}
