use pyxel_engine::canvas::Canvas;
use pyxel_engine::rectarea::RectArea;
use pyxel_engine::tilemap::ImageHandle;
use pyxel_engine::tilemap::Tile;
use pyxel_engine::tilemap::Tilemap;
use pyxel_engine::tilemap::TilemapError;

fn tile(x: u8, y: u8) -> Tile {
    Tile { tile_x: x, tile_y: y }
}

fn image() -> ImageHandle {
    ImageHandle { id: 1 }
}

fn get(t: &Tilemap, x: i32, y: i32) -> Tile {
    t.try_value(x, y).unwrap()
}

#[test]
fn new_tilemap_is_zeroed() {
    let t = Tilemap::new(3, 2, image());
    assert_eq!(t.width(), 3);
    assert_eq!(t.height(), 2);
    for y in 0..2 {
        for x in 0..3 {
            assert_eq!(get(&t, x, y), tile(0, 0));
        }
    }
    assert_eq!(t.image, image());
}

#[test]
fn try_value_out_of_range() {
    let t = Tilemap::new(3, 2, image());
    assert_eq!(t.try_value(3, 0), Err(TilemapError::OutOfRange));
    assert_eq!(t.try_value(0, 2), Err(TilemapError::OutOfRange));
    assert_eq!(t.try_value(-1, 0), Err(TilemapError::OutOfRange));
}

#[test]
fn try_set_value_roundtrip_and_out_of_range() {
    let mut t = Tilemap::new(3, 2, image());
    assert_eq!(t.try_set_value(2, 1, tile(4, 5)), Ok(()));
    assert_eq!(get(&t, 2, 1), tile(4, 5));
    assert_eq!(t.try_set_value(0, -1, tile(1, 1)), Err(TilemapError::OutOfRange));
    assert_eq!(get(&t, 0, 0), tile(0, 0));
}

#[test]
fn set_clip_narrows_to_overlap() {
    let mut t = Tilemap::new(8, 8, image());
    t.set_clip(RectArea::new(2, 3, 100, 100));
    assert_eq!(t._clip_rect(), RectArea::new(2, 3, 6, 5));
}

#[test]
fn bulk_decode_two_by_two() {
    // Each 4-digit group encodes one tile via (value >> 16) & 0xff and
    // value & 0xff.
    let mut t = Tilemap::new(2, 2, image());
    let rows = ["00000001", "00020003"];
    assert_eq!(t.set(0, 0, &rows), Ok(()));
    assert_eq!(get(&t, 0, 0), tile(0, 0));
    assert_eq!(get(&t, 1, 0), tile(0, 1));
    assert_eq!(get(&t, 0, 1), tile(0, 2));
    assert_eq!(get(&t, 1, 1), tile(0, 3));
}

#[test]
fn bulk_decode_masks_high_nibbles() {
    // "ab12" = 0xab12: tile_x = (0xab12 >> 16) & 0xff = 0, tile_y = 0x12.
    let mut t = Tilemap::new(1, 1, image());
    assert_eq!(t.set(0, 0, &["ab12"]), Ok(()));
    assert_eq!(get(&t, 0, 0), tile(0, 0x12));
}

#[test]
fn bulk_decode_accepts_mixed_case_hex() {
    let mut t = Tilemap::new(2, 1, image());
    assert_eq!(t.set(0, 0, &["00Ff00aB"]), Ok(()));
    assert_eq!(get(&t, 0, 0), tile(0, 0xff));
    assert_eq!(get(&t, 1, 0), tile(0, 0xab));
}

#[test]
fn bulk_decode_strips_blanks() {
    let mut t = Tilemap::new(2, 1, image());
    assert_eq!(t.set(0, 0, &[" 00 01\t0002\r\n"]), Ok(()));
    assert_eq!(get(&t, 0, 0), tile(0, 1));
    assert_eq!(get(&t, 1, 0), tile(0, 2));
}

#[test]
fn malformed_row_fails_and_leaves_target_untouched() {
    let mut t = Tilemap::new(2, 2, image());
    t.try_set_value(0, 0, tile(9, 9)).unwrap();
    t.try_set_value(1, 1, tile(8, 8)).unwrap();
    let rows = ["0000", "00gg"];
    assert_eq!(t.set(0, 0, &rows), Err(TilemapError::InvalidData));
    assert_eq!(get(&t, 0, 0), tile(9, 9));
    assert_eq!(get(&t, 1, 0), tile(0, 0));
    assert_eq!(get(&t, 0, 1), tile(0, 0));
    assert_eq!(get(&t, 1, 1), tile(8, 8));
}

#[test]
fn ragged_rows_fail() {
    let mut t = Tilemap::new(2, 2, image());
    assert_eq!(t.set(0, 0, &["00000001", "0002"]), Err(TilemapError::InvalidData));
}

#[test]
fn row_length_not_multiple_of_four_fails() {
    let mut t = Tilemap::new(2, 2, image());
    assert_eq!(t.set(0, 0, &["00001"]), Err(TilemapError::InvalidData));
}

#[test]
fn empty_rows_are_a_no_op() {
    let mut t = Tilemap::new(2, 2, image());
    t.try_set_value(1, 0, tile(3, 3)).unwrap();
    let rows: [&str; 0] = [];
    assert_eq!(t.set(0, 0, &rows), Ok(()));
    assert_eq!(get(&t, 1, 0), tile(3, 3));
}

#[test]
fn bulk_set_clips_at_negative_offset() {
    let mut t = Tilemap::new(1, 1, image());
    assert_eq!(t.set(-1, 0, &["00010002"]), Ok(()));
    // Only the second group lands on the surface.
    assert_eq!(get(&t, 0, 0), tile(0, 2));
}

#[test]
fn zero_sized_tilemap_has_no_cells() {
    let t = Tilemap::new(0, 0, image());
    assert_eq!(t.width(), 0);
    assert_eq!(t.height(), 0);
    assert_eq!(t.try_value(0, 0), Err(TilemapError::OutOfRange));
}

#[test]
fn bulk_set_oversized_is_truncated() {
    let mut t = Tilemap::new(2, 1, image());
    assert_eq!(t.set(0, 0, &["000100020003", "000400050006"]), Ok(()));
    assert_eq!(get(&t, 0, 0), tile(0, 1));
    assert_eq!(get(&t, 1, 0), tile(0, 2));
}
