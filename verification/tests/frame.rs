use raytracer::frame::Frame;
use raytracer::scheduler::tiles;
use raytracer::scheduler::Tile;

#[test]
fn new_frame_is_filled() {
    let frame = Frame::new(4, 3, 7u8);
    assert_eq!(frame.width(), 4);
    assert_eq!(frame.height(), 3);
    assert_eq!(frame.buffer().len(), 12);
    assert!(frame.buffer().iter().all(|p| *p == 7));
}

#[test]
fn frame_without_pixels() {
    let frame = Frame::new(0, 5, 1u8);
    assert_eq!(frame.buffer().len(), 0);
    let other = Frame::new(5, 0, 1u8);
    assert_eq!(other.buffer().len(), 0);
}

#[test]
fn index_is_row_major() {
    let frame = Frame::new(103, 64, 0u8);
    assert_eq!(frame.index(0, 0), 0);
    assert_eq!(frame.index(102, 0), 102);
    assert_eq!(frame.index(0, 1), 103);
    assert_eq!(frame.index(5, 2), 211);
    assert_eq!(frame.index(102, 63), 6591);
}

#[test]
fn position_undoes_index() {
    let frame = Frame::new(103, 64, 0u8);
    assert_eq!(frame.pos_from_index(0), (0, 0));
    assert_eq!(frame.pos_from_index(102), (102, 0));
    assert_eq!(frame.pos_from_index(103), (0, 1));
    assert_eq!(frame.pos_from_index(211), (5, 2));
    for y in 0..64 {
        for x in 0..103 {
            assert_eq!(frame.pos_from_index(frame.index(x, y)), (x, y));
        }
    }
    for i in 0..103 * 64 {
        let (x, y) = frame.pos_from_index(i);
        assert_eq!(frame.index(x, y), i);
    }
}

#[test]
fn set_changes_one_pixel() {
    let mut frame = Frame::new(3, 2, 0u32);
    frame.set(1, 1, 9);
    assert_eq!(frame.get(1, 1), 9);
    assert_eq!(frame.buffer().clone(), vec![0, 0, 0, 0, 9, 0]);
    frame.set(2, 0, 5);
    frame.set(1, 1, 4);
    assert_eq!(frame.buffer().clone(), vec![0, 0, 5, 0, 4, 0]);
    assert_eq!(frame.get(0, 0), 0);
    assert_eq!(frame.get(2, 0), 5);
}

#[test]
fn column_beyond_the_row_wraps_into_the_next() {
    let mut frame = Frame::new(3, 2, 0u32);
    frame.set(4, 0, 8);
    assert_eq!(frame.get(1, 1), 8);
}

#[test]
fn tile_is_stored_column_by_column() {
    let mut frame = Frame::new(4, 3, 0u32);
    let tile = Tile { min_x: 1, min_y: 0, max_x: 3, max_y: 2 };
    frame.store_tile(&tile, &vec![1, 2, 3, 4]);
    assert_eq!(frame.buffer().clone(), vec![0, 1, 3, 0, 0, 2, 4, 0, 0, 0, 0, 0]);
    assert_eq!(frame.get(1, 0), 1);
    assert_eq!(frame.get(1, 1), 2);
    assert_eq!(frame.get(2, 0), 3);
    assert_eq!(frame.get(2, 1), 4);
}

#[test]
fn empty_tile_stores_nothing() {
    let mut frame = Frame::new(2, 2, 3u32);
    frame.store_tile(&Tile { min_x: 1, min_y: 1, max_x: 1, max_y: 2 }, &Vec::new());
    assert_eq!(frame.buffer().clone(), vec![3, 3, 3, 3]);
}

#[test]
fn tiles_may_be_stored_in_any_order() {
    let grid = tiles(7, 5, 2);
    let colors: Vec<Vec<u32>> = (0..grid.len())
        .map(|k| {
            let t = grid[k];
            (0..(t.max_x - t.min_x) * (t.max_y - t.min_y)).map(|i| (100 * (k + 1) + i) as u32).collect()
        })
        .collect();
    let mut forward = Frame::new(7, 5, 0u32);
    for k in 0..grid.len() {
        forward.store_tile(&grid[k], &colors[k]);
    }
    let mut backward = Frame::new(7, 5, 0u32);
    for k in (0..grid.len()).rev() {
        backward.store_tile(&grid[k], &colors[k]);
    }
    let mut shuffled = Frame::new(7, 5, 0u32);
    for k in [2usize, 0, 3, 1] {
        shuffled.store_tile(&grid[k], &colors[k]);
    }
    assert_eq!(forward.buffer(), backward.buffer());
    assert_eq!(forward.buffer(), shuffled.buffer());
    assert_eq!(forward.get(0, 0), 100);
    assert_eq!(forward.get(2, 1), 100 + 2 * 2 + 1);
    assert_eq!(forward.get(6, 4), 400 + 3 * 3 + 2);
    assert!(forward.buffer().iter().all(|p| *p >= 100));
}

#[test]
fn background_stays_background() {
    let grid = tiles(9, 6, 3);
    let mut frame = Frame::new(9, 6, 0u32);
    for tile in &grid {
        let area = (tile.max_x - tile.min_x) * (tile.max_y - tile.min_y);
        frame.store_tile(tile, &vec![0u32; area]);
    }
    assert!(frame.buffer().iter().all(|p| *p == 0));
}
