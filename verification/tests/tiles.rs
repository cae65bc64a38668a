use tiled::tile::{convert_to_tile, csv_numbers, csv_rows, LayerTile};

fn gids(row: &[LayerTile]) -> Vec<u32> {
    row.iter().map(|t| t.gid).collect()
}

fn packed(tile: &LayerTile) -> u32 {
    tile.gid
        | if tile.flip_h { 0x8000_0000 } else { 0 }
        | if tile.flip_v { 0x4000_0000 } else { 0 }
        | if tile.flip_d { 0x2000_0000 } else { 0 }
}

#[test]
fn flip_bits_are_split_from_the_gid() {
    let tile = LayerTile::new(0x8000_0001);
    assert_eq!(tile, LayerTile { gid: 1, flip_h: true, flip_v: false, flip_d: false });
    let tile = LayerTile::new(0x6000_0007);
    assert_eq!(tile, LayerTile { gid: 7, flip_h: false, flip_v: true, flip_d: true });
    let tile = LayerTile::new(0xFFFF_FFFF);
    assert_eq!(tile, LayerTile { gid: 0x1FFF_FFFF, flip_h: true, flip_v: true, flip_d: true });
    let tile = LayerTile::new(0);
    assert_eq!(tile, LayerTile { gid: 0, flip_h: false, flip_v: false, flip_d: false });
}

#[test]
fn gid_and_flags_give_the_identifier_back() {
    let samples: [u32; 10] = [
        0,
        1,
        0x1FFF_FFFF,
        0x2000_0000,
        0x4000_0000,
        0x8000_0000,
        0xE000_0000,
        0xDEAD_BEEF,
        0x7FFF_FFFF,
        0xFFFF_FFFF,
    ];
    for raw in samples {
        let tile = LayerTile::new(raw);
        assert_eq!(tile.gid & 0xE000_0000, 0);
        assert_eq!(packed(&tile), raw);
        assert_eq!(tile.flip_h, raw & 0x8000_0000 != 0);
        assert_eq!(tile.flip_v, raw & 0x4000_0000 != 0);
        assert_eq!(tile.flip_d, raw & 0x2000_0000 != 0);
    }
}

#[test]
fn bytes_make_rows_of_the_given_width() {
    let bytes: Vec<u8> = vec![1, 0, 0, 0, 2, 0, 0, 0, 3, 0, 0, 0, 4, 0, 0, 128];
    let grid = convert_to_tile(&bytes, 2);
    assert_eq!(grid.len(), 2);
    assert_eq!(gids(&grid[0]), vec![1, 2]);
    assert_eq!(grid[1][0].gid, 3);
    assert_eq!(grid[1][1], LayerTile { gid: 4, flip_h: true, flip_v: false, flip_d: false });
}

#[test]
fn bytes_are_read_least_significant_first() {
    let bytes: Vec<u8> = vec![0x78, 0x56, 0x34, 0x12];
    let grid = convert_to_tile(&bytes, 1);
    assert_eq!(grid.len(), 1);
    assert_eq!(grid[0][0].gid, 0x1234_5678);
    assert!(!grid[0][0].flip_h && !grid[0][0].flip_v && !grid[0][0].flip_d);
}

#[test]
fn bytes_behind_the_last_full_row_are_left_out() {
    let bytes: Vec<u8> = vec![1, 0, 0, 0, 2, 0, 0, 0, 3, 0, 0, 0, 4, 0];
    let grid = convert_to_tile(&bytes, 2);
    assert_eq!(grid.len(), 1);
    assert_eq!(gids(&grid[0]), vec![1, 2]);
    let grid = convert_to_tile(&bytes, 4);
    assert_eq!(grid.len(), 0);
}

#[test]
fn a_width_of_zero_gives_no_row() {
    let bytes: Vec<u8> = vec![1, 0, 0, 0, 2, 0, 0, 0];
    assert_eq!(convert_to_tile(&bytes, 0).len(), 0);
    assert_eq!(convert_to_tile(&Vec::new(), 0).len(), 0);
    assert_eq!(convert_to_tile(&Vec::new(), 3).len(), 0);
    assert_eq!(csv_rows(&vec![1, 2, 3], 0).len(), 0);
}

#[test]
fn csv_keeps_a_short_last_row() {
    let text: Vec<char> = "1,2,3,4,5,6,7".chars().collect();
    let values = csv_numbers(&text).unwrap();
    assert_eq!(values, vec![1, 2, 3, 4, 5, 6, 7]);
    let grid = csv_rows(&values, 4);
    assert_eq!(grid.len(), 2);
    assert_eq!(gids(&grid[0]), vec![1, 2, 3, 4]);
    assert_eq!(gids(&grid[1]), vec![5, 6, 7]);
}

#[test]
fn csv_fills_rows_exactly() {
    let grid = csv_rows(&vec![1, 2, 3, 4, 5, 6], 3);
    assert_eq!(grid.len(), 2);
    assert_eq!(gids(&grid[0]), vec![1, 2, 3]);
    assert_eq!(gids(&grid[1]), vec![4, 5, 6]);
    let grid = csv_rows(&vec![9], 3);
    assert_eq!(grid.len(), 1);
    assert_eq!(gids(&grid[0]), vec![9]);
    assert_eq!(csv_rows(&Vec::new(), 3).len(), 0);
}

#[test]
fn csv_splits_at_commas_and_line_ends() {
    let text: Vec<char> = "\n1,2,\r\n3,4,\n\n5\n".chars().collect();
    assert_eq!(csv_numbers(&text), Some(vec![1, 2, 3, 4, 5]));
    let text: Vec<char> = "".chars().collect();
    assert_eq!(csv_numbers(&text), Some(vec![]));
    let text: Vec<char> = " ,\t, ".chars().collect();
    assert_eq!(csv_numbers(&text), Some(vec![]));
    let text: Vec<char> = "4294967295,+7,007".chars().collect();
    assert_eq!(csv_numbers(&text), Some(vec![4294967295, 7, 7]));
}

#[test]
fn csv_refuses_what_is_no_number() {
    for bad in ["1,x,3", "1, 2", "4294967296", "-1", "1.5", "1;2", "+"] {
        let text: Vec<char> = bad.chars().collect();
        assert_eq!(csv_numbers(&text), None, "{}", bad);
    }
}

#[test]
fn csv_tiles_carry_their_flip_bits() {
    let grid = csv_rows(&vec![0x8000_0001, 0x4000_0002, 0x2000_0003, 4], 4);
    assert_eq!(grid.len(), 1);
    assert_eq!(grid[0][0], LayerTile { gid: 1, flip_h: true, flip_v: false, flip_d: false });
    assert_eq!(grid[0][1], LayerTile { gid: 2, flip_h: false, flip_v: true, flip_d: false });
    assert_eq!(grid[0][2], LayerTile { gid: 3, flip_h: false, flip_v: false, flip_d: true });
    assert_eq!(grid[0][3], LayerTile { gid: 4, flip_h: false, flip_v: false, flip_d: false });
}
