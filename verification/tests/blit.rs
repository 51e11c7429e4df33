use pyxel_engine::canvas::Canvas;
use pyxel_engine::rectarea::RectArea;
use pyxel_engine::tilemap::ImageHandle;
use pyxel_engine::tilemap::Tile;
use pyxel_engine::tilemap::Tilemap;

fn tile(x: u8, y: u8) -> Tile {
    Tile { tile_x: x, tile_y: y }
}

fn image() -> ImageHandle {
    ImageHandle { id: 2 }
}

fn get(t: &Tilemap, x: i32, y: i32) -> Tile {
    t.try_value(x, y).unwrap()
}

/// A 3x2 map whose cell (x, y) holds the tile (x, y + 1), so every cell is
/// distinct and none is the zero tile.
fn pattern() -> Tilemap {
    let mut t = Tilemap::new(3, 2, image());
    for y in 0..2 {
        for x in 0..3 {
            t.try_set_value(x, y, tile(x as u8, y as u8 + 1)).unwrap();
        }
    }
    t
}

#[test]
fn full_self_blit_is_identity() {
    let mut t = pattern();
    t.blt_self(0, 0, 0, 0, 3, 2, false, false, None);
    for y in 0..2 {
        for x in 0..3 {
            assert_eq!(get(&t, x, y), tile(x as u8, y as u8 + 1));
        }
    }
}

#[test]
fn blit_copies_region_between_maps() {
    let src = pattern();
    let mut dst = Tilemap::new(3, 2, image());
    dst.blt(1, 0, &src, 0, 0, 2, 2, false, false, None);
    assert_eq!(get(&dst, 0, 0), tile(0, 0));
    assert_eq!(get(&dst, 1, 0), tile(0, 1));
    assert_eq!(get(&dst, 2, 0), tile(1, 1));
    assert_eq!(get(&dst, 1, 1), tile(0, 2));
    assert_eq!(get(&dst, 2, 1), tile(1, 2));
}

#[test]
fn blit_outside_clip_rect_leaves_sentinels() {
    let src = pattern();
    let mut dst = Tilemap::new(3, 2, image());
    for y in 0..2 {
        for x in 0..3 {
            dst.try_set_value(x, y, tile(9, 9)).unwrap();
        }
    }
    dst.set_clip(RectArea::new(1, 0, 1, 2));
    dst.blt(0, 0, &src, 0, 0, 3, 2, false, false, None);
    for y in 0..2 {
        for x in 0..3 {
            if x == 1 {
                assert_eq!(get(&dst, x, y), tile(x as u8, y as u8 + 1));
            } else {
                assert_eq!(get(&dst, x, y), tile(9, 9));
            }
        }
    }
}

#[test]
fn blit_transparent_key_skips_matching_cells() {
    let mut src = Tilemap::new(3, 1, image());
    src.try_set_value(0, 0, tile(5, 5)).unwrap();
    src.try_set_value(1, 0, tile(0, 0)).unwrap();
    src.try_set_value(2, 0, tile(6, 6)).unwrap();
    let mut dst = Tilemap::new(3, 1, image());
    for x in 0..3 {
        dst.try_set_value(x, 0, tile(9, 9)).unwrap();
    }
    dst.blt(0, 0, &src, 0, 0, 3, 1, false, false, Some(tile(0, 0)));
    assert_eq!(get(&dst, 0, 0), tile(5, 5));
    assert_eq!(get(&dst, 1, 0), tile(9, 9));
    assert_eq!(get(&dst, 2, 0), tile(6, 6));
}

#[test]
fn horizontal_flip_mirrors_columns() {
    let src = pattern();
    let mut dst = Tilemap::new(3, 2, image());
    dst.blt(0, 0, &src, 0, 0, 3, 2, true, false, None);
    for y in 0..2 {
        for x in 0..3 {
            assert_eq!(get(&dst, x, y), tile(2 - x as u8, y as u8 + 1));
        }
    }
}

#[test]
fn vertical_flip_mirrors_rows() {
    let src = pattern();
    let mut dst = Tilemap::new(3, 2, image());
    dst.blt(0, 0, &src, 0, 0, 3, 2, false, true, None);
    for y in 0..2 {
        for x in 0..3 {
            assert_eq!(get(&dst, x, y), tile(x as u8, 2 - y as u8));
        }
    }
}

#[test]
fn out_of_range_blit_request_degrades_to_overlap() {
    let src = pattern();
    let mut dst = Tilemap::new(3, 2, image());
    dst.blt(-1, -1, &src, 0, 0, 3, 2, false, false, None);
    // Only the part of the request that overlaps the surface is written.
    assert_eq!(get(&dst, 0, 0), tile(1, 2));
    assert_eq!(get(&dst, 1, 0), tile(2, 2));
    assert_eq!(get(&dst, 2, 0), tile(0, 0));
    assert_eq!(get(&dst, 0, 1), tile(0, 0));
}

#[test]
fn fully_disjoint_blit_is_a_no_op() {
    let src = pattern();
    let mut dst = Tilemap::new(3, 2, image());
    dst.blt(10, 10, &src, 0, 0, 3, 2, false, false, None);
    for y in 0..2 {
        for x in 0..3 {
            assert_eq!(get(&dst, x, y), tile(0, 0));
        }
    }
}

#[test]
fn overlapping_self_blit_reads_before_writing() {
    // Shift every row down by one within the same grid: source rows 0 and 1
    // land on rows 1 and 2, and row 1 must be read before it is overwritten.
    let mut t = Tilemap::new(3, 3, image());
    for y in 0..3 {
        for x in 0..3 {
            t.try_set_value(x, y, tile(x as u8, y as u8 + 1)).unwrap();
        }
    }
    // The reference outcome: copy the whole grid to a separate buffer first,
    // then write each destination cell from the buffer.
    let mut expected: Vec<Vec<Tile>> = Vec::new();
    for y in 0..3 {
        let mut row = Vec::new();
        for x in 0..3 {
            row.push(get(&t, x, y));
        }
        expected.push(row);
    }
    for y in (1..3).rev() {
        for x in 0..3 {
            expected[y][x] = expected[y - 1][x];
        }
    }
    t.blt_self(0, 1, 0, 0, 3, 3, false, false, None);
    for y in 0..3 {
        for x in 0..3 {
            assert_eq!(get(&t, x as i32, y as i32), expected[y][x]);
        }
    }
    // Spelled out: row 0 kept, rows 1 and 2 hold the old rows 0 and 1.
    assert_eq!(get(&t, 0, 0), tile(0, 1));
    assert_eq!(get(&t, 0, 1), tile(0, 1));
    assert_eq!(get(&t, 0, 2), tile(0, 2));
}

#[test]
fn self_blit_with_flip_and_offset() {
    let mut t = Tilemap::new(3, 2, image());
    for y in 0..2 {
        for x in 0..3 {
            t.try_set_value(x, y, tile(x as u8, y as u8 + 1)).unwrap();
        }
    }
    t.blt_self(0, 0, 0, 0, 3, 2, true, false, None);
    for y in 0..2 {
        for x in 0..3 {
            assert_eq!(get(&t, x, y), tile(2 - x as u8, y as u8 + 1));
        }
    }
}

#[test]
fn blit_keeps_image_handle() {
    let src = pattern();
    let mut dst = Tilemap::new(3, 2, ImageHandle { id: 77 });
    dst.blt(0, 0, &src, 0, 0, 3, 2, false, false, None);
    assert_eq!(dst.image, ImageHandle { id: 77 });
}
