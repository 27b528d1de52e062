use ev_charging_gaps::geom::{BoundingBox, TrialPoint};

// Bounding box of the continental United States, in microdegrees.
fn us_bounding_box() -> BoundingBox {
    BoundingBox {
        lat_min: 24_524_300,
        lon_min: -124_758_000,
        lat_max: 49_175_600,
        lon_max: -66_947_200,
    }
}

#[test]
fn chunkify_correct_number_of_chunks() {
    for chunks in [4, 6, 8, 10, 12] {
        assert_eq!(us_bounding_box().chunkify(chunks).len(), chunks)
    }
}

#[test]
fn chunkify_correct_width() {
    for n_chunks in [4, 6, 8, 10, 12] {
        let width = us_bounding_box().width() / (n_chunks / 2) as i64;
        let chunks = us_bounding_box().chunkify(n_chunks);
        for chunk in chunks {
            assert_eq!(chunk.width(), width);
        }
    }
}

#[test]
fn chunkify_correct_height() {
    for n_chunks in [4, 6, 8, 10, 12] {
        let height = us_bounding_box().height();
        let chunks = us_bounding_box().chunkify(n_chunks);
        for chunk in chunks {
            assert_eq!(chunk.height(), height);
        }
    }
}

#[test]
fn chunks_end_in_correct_places() {
    for n_chunks in [4, 6, 8, 10, 12] {
        let chunks = us_bounding_box().chunkify(n_chunks);

        let first = chunks.first().unwrap();
        assert_eq!(first.lat_min, us_bounding_box().lat_min);
        assert_eq!(first.lon_min, us_bounding_box().lon_min);
        assert_eq!(first.lon_max, us_bounding_box().lon_max);

        let last = chunks.last().unwrap();
        assert_eq!(last.lat_max, us_bounding_box().lat_max);
        assert_eq!(last.lon_min, us_bounding_box().lon_min);
        assert_eq!(last.lon_max, us_bounding_box().lon_max);
    }
}

#[test]
fn chunks_cover_the_region() {
    for n_chunks in [2, 4, 5, 6, 12] {
        let region = us_bounding_box();
        let chunks = region.chunkify(n_chunks);
        // Sorted by southern edge, consecutive bands overlap or touch, so
        // the union covers the whole latitude extent.
        let mut edges: Vec<(i64, i64)> = chunks.iter().map(|c| (c.lat_min, c.lat_max)).collect();
        edges.sort();
        assert_eq!(edges.first().unwrap().0, region.lat_min);
        assert_eq!(edges.last().unwrap().1, region.lat_max);
        let mut covered_to = region.lat_min;
        for (lo, hi) in edges {
            assert!(lo <= covered_to, "gap below {lo}");
            if hi > covered_to {
                covered_to = hi;
            }
        }
        assert_eq!(covered_to, region.lat_max);
    }
}

#[test]
fn grid_covers_the_lattice_in_row_major_order() {
    let region = BoundingBox {
        lat_min: 10,
        lat_max: 15,
        lon_min: 100,
        lon_max: 103,
    };
    let grid = region.generate_grid(1);
    assert_eq!(grid.len(), 15);
    assert_eq!(grid[0], TrialPoint { latitude: 10, longitude: 100 });
    assert_eq!(grid[1], TrialPoint { latitude: 10, longitude: 101 });
    assert_eq!(grid[2], TrialPoint { latitude: 10, longitude: 102 });
    assert_eq!(grid[3], TrialPoint { latitude: 11, longitude: 100 });
    assert_eq!(grid[14], TrialPoint { latitude: 14, longitude: 102 });
}

#[test]
fn grid_resolution_floors_the_cell_counts() {
    let region = BoundingBox {
        lat_min: 0,
        lat_max: 5,
        lon_min: 0,
        lon_max: 3,
    };
    let grid = region.generate_grid(2);
    // floor(5 / 2) = 2 rows, floor(3 / 2) = 1 column.
    assert_eq!(grid.len(), 2);
    assert_eq!(grid[0], TrialPoint { latitude: 0, longitude: 0 });
    assert_eq!(grid[1], TrialPoint { latitude: 2, longitude: 0 });
}
