use pathtracer::tile::Tile;
use pathtracer::tile::TileGrid;

#[test]
fn grid_counts_round_up() {
    let g = TileGrid::new(480, 360, 16, 16);
    assert_eq!(g.tiles_x(), 30);
    assert_eq!(g.tiles_y(), 23);
    let g2 = TileGrid::new(32, 32, 16, 16);
    assert_eq!(g2.tiles_x(), 2);
    assert_eq!(g2.tiles_y(), 2);
    let g3 = TileGrid::new(1, 1, 16, 16);
    assert_eq!(g3.tiles_x(), 1);
    assert_eq!(g3.tiles_y(), 1);
}

#[test]
fn empty_image_has_no_tiles() {
    let g = TileGrid::new(0, 0, 16, 16);
    assert_eq!(g.tiles_x(), 0);
    assert_eq!(g.tiles_y(), 0);
}

#[test]
fn tile_of_pixel_matches_grid() {
    let g = TileGrid::new(480, 360, 16, 16);
    assert_eq!(g.tile_of_pixel(0, 0), (0, 0));
    assert_eq!(g.tile_of_pixel(15, 15), (0, 0));
    assert_eq!(g.tile_of_pixel(16, 15), (1, 0));
    assert_eq!(g.tile_of_pixel(479, 359), (29, 22));
}

#[test]
fn pixel_index_is_row_major() {
    let g = TileGrid::new(480, 360, 16, 16);
    assert_eq!(g.pixel_index(0, 0), 0);
    assert_eq!(g.pixel_index(479, 0), 479);
    assert_eq!(g.pixel_index(0, 1), 480);
    assert_eq!(g.pixel_index(479, 359), 480 * 360 - 1);
}

#[test]
fn composite_writes_one_tile_and_nothing_else() {
    let g = TileGrid::new(4, 2, 2, 2);
    let mut buffer: Vec<u32> = vec![0; 8];
    let tile: Vec<u32> = vec![1, 2, 3, 4];
    g.composite(&mut buffer, 1, 0, &tile);
    assert_eq!(buffer, vec![0, 0, 1, 2, 0, 0, 3, 4]);
}

#[test]
fn composite_clips_at_image_border() {
    // 5 wide with 4-wide tiles: the second tile column is one pixel wide
    let g = TileGrid::new(5, 2, 4, 2);
    let mut buffer: Vec<u32> = vec![0; 10];
    let tile: Vec<u32> = vec![1, 2, 3, 4, 5, 6, 7, 8];
    g.composite(&mut buffer, 1, 0, &tile);
    assert_eq!(buffer, vec![0, 0, 0, 0, 1, 0, 0, 0, 0, 5]);
}

#[test]
fn compositing_every_tile_writes_every_pixel_exactly_once() {
    let g = TileGrid::new(33, 17, 8, 8);
    let iw = 33usize;
    let ih = 17usize;
    let tw = 8usize;
    let th = 8usize;
    let mut writes: Vec<u32> = vec![0; iw * ih];
    for ty in 0..g.tiles_y() {
        for tx in 0..g.tiles_x() {
            // a tile whose every pixel adds one write mark
            let tile: Vec<u32> = vec![1; tw * th];
            let mut scratch: Vec<u32> = vec![0; iw * ih];
            g.composite(&mut scratch, tx, ty, &tile);
            for i in 0..iw * ih {
                writes[i] += scratch[i];
            }
        }
    }
    assert!(writes.iter().all(|&w| w == 1));
}

#[test]
fn tiles_cover_disjoint_pixel_sets() {
    let g = TileGrid::new(20, 10, 6, 4);
    for py in 0..10usize {
        for px in 0..20usize {
            let (tx, ty) = g.tile_of_pixel(px, py);
            assert!(tx < g.tiles_x() && ty < g.tiles_y());
            assert!(tx * 6 <= px && px < tx * 6 + 6);
            assert!(ty * 4 <= py && py < ty * 4 + 4);
        }
    }
}

#[test]
fn tile_keeps_its_fields() {
    let t = Tile::new(3, 5, vec![9u8, 8, 7]);
    assert_eq!(t.x, 3);
    assert_eq!(t.y, 5);
    assert_eq!(t.data, vec![9, 8, 7]);
}

#[test]
fn composite_order_does_not_matter() {
    let g = TileGrid::new(6, 4, 2, 2);
    let tile_a: Vec<u32> = vec![1, 1, 1, 1];
    let tile_b: Vec<u32> = vec![2, 2, 2, 2];

    let mut first_then_second: Vec<u32> = vec![0; 24];
    g.composite(&mut first_then_second, 0, 0, &tile_a);
    g.composite(&mut first_then_second, 2, 1, &tile_b);

    let mut second_then_first: Vec<u32> = vec![0; 24];
    g.composite(&mut second_then_first, 2, 1, &tile_b);
    g.composite(&mut second_then_first, 0, 0, &tile_a);

    assert_eq!(first_then_second, second_then_first);
}
