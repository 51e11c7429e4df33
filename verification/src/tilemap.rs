//! A tile-grid surface: a fixed-size grid of tile references implementing
//! the [`Canvas`] contract, with bulk population from rows of hexadecimal
//! text.

use vstd::pervasive::VecAdditionalExecFns;
use vstd::prelude::*;

use crate::canvas;
use crate::canvas::blit_result;
use crate::canvas::full_rect;
use crate::canvas::rows_view;
use crate::canvas::Canvas;
use crate::canvas::CellEq;
use crate::rectarea::RectArea;
use crate::utility::all_hex;
use crate::utility::is_hex_digit;
use crate::utility::group_value;
use crate::utility::parse_hex_group;
use crate::utility::simplify_string;
use crate::utility::strip_blanks;

verus! {

/// One cell of a tilemap: the `(tile_x, tile_y)` position of a tile within
/// the referenced image's tile grid.
#[derive(Clone, Copy, PartialEq, Eq, Structural, Debug)]
pub struct Tile {
    pub tile_x: u8,
    pub tile_y: u8,
}

/// The zero tile, the initial value of every cell.
pub open spec fn zero_tile() -> Tile {
    Tile { tile_x: 0, tile_y: 0 }
}

impl CellEq for Tile {
    fn same(a: Tile, b: Tile) -> (r: bool) {
        a.tile_x == b.tile_x && a.tile_y == b.tile_y
    }
}

/// The tile encoded by the 4-digit hexadecimal group `s`, per the packed
/// encoding `tile_x = (value >> 16) & 0xff`, `tile_y = value & 0xff`.
pub open spec fn tile_of_group(s: Seq<char>) -> Tile {
    let v = group_value(s);
    Tile { tile_x: ((v >> 16u32) & 0xffu32) as u8, tile_y: (v & 0xffu32) as u8 }
}

/// The views of a sequence of text rows, character by character.
pub open spec fn str_rows_view(rows: Seq<&str>) -> Seq<Seq<char>> {
    Seq::new(rows.len(), |i: int| rows[i]@)
}

/// How many tiles one row encodes: a quarter of the first row's length
/// after blank stripping.
pub open spec fn decode_cols(rows: Seq<Seq<char>>) -> int {
    strip_blanks(rows[0]).len() as int / 4
}

/// Whether the text rows are valid bulk tile data: after blank stripping,
/// the first row's length is a multiple of four, every row has that same
/// length, and every character is a hexadecimal digit. An empty sequence of
/// rows is trivially valid.
pub open spec fn decode_ok(rows: Seq<Seq<char>>) -> bool {
    rows.len() == 0 || {
        let w = strip_blanks(rows[0]).len() as int;
        &&& w % 4 == 0
        &&& forall|i: int|
            0 <= i < rows.len() ==> (#[trigger] strip_blanks(rows[i])).len() == w
        &&& forall|i: int| 0 <= i < rows.len() ==> all_hex(#[trigger] strip_blanks(rows[i]))
    }
}

/// The tile grid encoded by the text rows, one grid row per text row.
pub open spec fn decoded_cells(rows: Seq<Seq<char>>) -> Seq<Seq<Tile>> {
    Seq::new(
        rows.len(),
        |i: int|
            Seq::new(
                decode_cols(rows) as nat,
                |j: int| tile_of_group(strip_blanks(rows[i]).subrange(4 * j, 4 * j + 4)),
            ),
    )
}

/// A handle naming a shared image resource. The tilemap only carries it for
/// renderers to resolve; nothing in this crate reads or mutates the image
/// itself, so the handle is a plain identifier. Callers that share the real
/// image behind a reference-counted lock map such handles to it.
#[derive(Clone, Copy, PartialEq, Eq, Structural, Debug)]
pub struct ImageHandle {
    pub id: u64,
}

/// The errors a tilemap reports: a coordinate outside the surface handed to
/// a checked accessor, or bulk text that is not valid tile data.
#[derive(Clone, Copy, PartialEq, Eq, Structural, Debug)]
pub enum TilemapError {
    /// A coordinate lies outside the surface.
    OutOfRange,
    /// A row of bulk text is ragged or holds a non-hexadecimal group.
    InvalidData,
}

/// A fixed-size grid of [`Tile`] cells with clip-region semantics, owning
/// its backing buffer and referencing a shared image resource it never
/// mutates.
pub struct Tilemap {
    width: u32,
    height: u32,
    self_rect: RectArea,
    clip_rect: RectArea,
    data: Vec<Vec<Tile>>,
    /// The image resource this tilemap's cells refer into.
    pub image: ImageHandle,
}

impl Canvas<Tile> for Tilemap {
    closed spec fn spec_width(&self) -> int {
        self.width as int
    }

    closed spec fn spec_height(&self) -> int {
        self.height as int
    }

    closed spec fn cells(&self) -> Seq<Seq<Tile>> {
        rows_view(self.data@)
    }

    closed spec fn clip(&self) -> RectArea {
        self.clip_rect
    }

    closed spec fn inv(&self) -> bool {
        &&& self.width <= i32::MAX as u32
        &&& self.height <= i32::MAX as u32
        &&& self.self_rect == full_rect(self.width as int, self.height as int)
        &&& forall|x: int, y: int|
            self.clip_rect.spec_contains(x, y) ==> 0 <= x < self.width && 0 <= y < self.height
        &&& self.data@.len() == self.height
        &&& forall|yy: int| 0 <= yy < self.height ==> (#[trigger] self.data@[yy])@.len()
            == self.width
    }

    closed spec fn same_except_cells(&self, other: &Self) -> bool {
        &&& self.width == other.width
        &&& self.height == other.height
        &&& self.self_rect == other.self_rect
        &&& self.clip_rect == other.clip_rect
        &&& self.image == other.image
    }

    proof fn lemma_inv(&self) {
    }

    proof fn lemma_same_except_cells(a: &Self, b: &Self, c: &Self) {
    }

    fn width(&self) -> u32 {
        self.width
    }

    fn height(&self) -> u32 {
        self.height
    }

    fn _self_rect(&self) -> RectArea {
        self.self_rect
    }

    fn _clip_rect(&self) -> RectArea {
        self.clip_rect
    }

    fn set_clip_rect(&mut self, r: RectArea) {
        let full = RectArea::new(0, 0, self.width, self.height);
        self.clip_rect = full.intersect(r);
    }

    fn _value(&self, x: i32, y: i32) -> Tile {
        let row = &self.data[y as usize];
        row[x as usize]
    }

    fn _set_value(&mut self, x: i32, y: i32, value: Tile) {
        let ghost oldc = self.cells();
        let row = &mut self.data[y as usize];
        row.set(x as usize, value);
        proof {
            assert(self.cells() =~= oldc.update(
                y as int,
                oldc[y as int].update(x as int, value),
            ));
        }
    }
}

impl Tilemap {
    /// The handle of the image resource this tilemap refers into.
    pub closed spec fn spec_image(&self) -> ImageHandle {
        self.image
    }

    /// Builds a `width x height` tilemap referencing `image`, every cell the
    /// zero tile `(0, 0)`, the clip rectangle covering the whole surface.
    pub fn new(width: u32, height: u32, image: ImageHandle) -> (t: Tilemap)
        requires
            width <= i32::MAX as u32,
            height <= i32::MAX as u32,
        ensures
            t.inv(),
            t.spec_width() == width as int,
            t.spec_height() == height as int,
            t.clip() == full_rect(width as int, height as int),
            t.spec_image() == image,
            t.cells().len() == height as int,
            forall|yy: int| 0 <= yy < height ==> (#[trigger] t.cells()[yy]).len() == width as int,
            forall|xx: int, yy: int|
                0 <= xx < width && 0 <= yy < height ==> #[trigger] t.cells()[yy][xx] == zero_tile(),
    {
        let mut data: Vec<Vec<Tile>> = Vec::new();
        let mut yy: u32 = 0;
        while yy < height
            invariant
                yy <= height,
                data@.len() == yy as int,
                forall|q: int| 0 <= q < yy ==> (#[trigger] data@[q])@.len() == width as int,
                forall|q: int, p: int|
                    0 <= q < yy && 0 <= p < width ==> #[trigger] data@[q]@[p] == zero_tile(),
            decreases height - yy,
        {
            let mut row: Vec<Tile> = Vec::new();
            let mut xx: u32 = 0;
            while xx < width
                invariant
                    xx <= width,
                    row@.len() == xx as int,
                    forall|p: int| 0 <= p < xx ==> #[trigger] row@[p] == zero_tile(),
                decreases width - xx,
            {
                row.push(Tile { tile_x: 0, tile_y: 0 });
                xx = xx + 1;
            }
            data.push(row);
            yy = yy + 1;
        }
        Tilemap {
            width,
            height,
            self_rect: RectArea::new(0, 0, width, height),
            clip_rect: RectArea::new(0, 0, width, height),
            data,
            image,
        }
    }

    /// Reads one cell, rejecting out-of-range coordinates with a domain
    /// error instead of assuming them in bounds.
    pub fn try_value(&self, x: i32, y: i32) -> (r: Result<Tile, TilemapError>)
        requires
            self.inv(),
        ensures
            r is Ok <==> 0 <= x < self.spec_width() && 0 <= y < self.spec_height(),
            r is Ok ==> r.unwrap() == self.cells()[y as int][x as int],
            r is Err ==> r == Result::<Tile, TilemapError>::Err(TilemapError::OutOfRange),
    {
        if 0 <= x && 0 <= y && (x as u32) < self.width && (y as u32) < self.height {
            Result::Ok(self._value(x, y))
        } else {
            Result::Err(TilemapError::OutOfRange)
        }
    }

    /// Writes one cell, rejecting out-of-range coordinates with a domain
    /// error and leaving the surface untouched in that case.
    pub fn try_set_value(&mut self, x: i32, y: i32, value: Tile) -> (r: Result<
        (),
        TilemapError,
    >)
        requires
            old(self).inv(),
        ensures
            final(self).inv(),
            r is Ok <==> 0 <= x < old(self).spec_width() && 0 <= y < old(self).spec_height(),
            r is Ok ==> final(self).cells() == old(self).cells().update(
                y as int,
                old(self).cells()[y as int].update(x as int, value),
            ),
            r is Ok ==> final(self).same_except_cells(old(self)),
            r is Ok ==> final(self).spec_width() == old(self).spec_width(),
            r is Ok ==> final(self).spec_height() == old(self).spec_height(),
            r is Ok ==> final(self).clip() == old(self).clip(),
            r is Err ==> r == Result::<(), TilemapError>::Err(TilemapError::OutOfRange),
            r is Err ==> *final(self) == *old(self),
    {
        if 0 <= x && 0 <= y && (x as u32) < self.width && (y as u32) < self.height {
            self._set_value(x, y, value);
            Result::Ok(())
        } else {
            Result::Err(TilemapError::OutOfRange)
        }
    }

    /// Copies a region of another tilemap onto this one; see
    /// [`canvas::blt`]. The image handle is untouched.
    pub fn blt(
        &mut self,
        x: i32,
        y: i32,
        src: &Tilemap,
        u: i32,
        v: i32,
        w: u32,
        h: u32,
        hflip: bool,
        vflip: bool,
        colkey: Option<Tile>,
    )
        requires
            old(self).inv(),
            src.inv(),
        ensures
            final(self).inv(),
            final(self).spec_width() == old(self).spec_width(),
            final(self).spec_height() == old(self).spec_height(),
            final(self).clip() == old(self).clip(),
            final(self).spec_image() == old(self).spec_image(),
            final(self).cells() == blit_result(
                old(self).cells(),
                old(self).spec_width(),
                old(self).spec_height(),
                old(self).clip(),
                src.cells(),
                src.spec_width(),
                src.spec_height(),
                x as int,
                y as int,
                u as int,
                v as int,
                w as int,
                h as int,
                hflip,
                vflip,
                colkey,
            ),
    {
        canvas::blt(self, x, y, src, u, v, w, h, hflip, vflip, colkey);
    }

    /// Copies a region of this tilemap onto itself, reading the whole source
    /// region before the first write; see [`canvas::blt_self`]. The result
    /// equals a copy from a snapshot of the surface taken before the call.
    pub fn blt_self(
        &mut self,
        x: i32,
        y: i32,
        u: i32,
        v: i32,
        w: u32,
        h: u32,
        hflip: bool,
        vflip: bool,
        colkey: Option<Tile>,
    )
        requires
            old(self).inv(),
        ensures
            final(self).inv(),
            final(self).spec_width() == old(self).spec_width(),
            final(self).spec_height() == old(self).spec_height(),
            final(self).clip() == old(self).clip(),
            final(self).spec_image() == old(self).spec_image(),
            final(self).cells() == blit_result(
                old(self).cells(),
                old(self).spec_width(),
                old(self).spec_height(),
                old(self).clip(),
                old(self).cells(),
                old(self).spec_width(),
                old(self).spec_height(),
                x as int,
                y as int,
                u as int,
                v as int,
                w as int,
                h as int,
                hflip,
                vflip,
                colkey,
            ),
    {
        canvas::blt_self(self, x, y, u, v, w, h, hflip, vflip, colkey);
    }

    /// Narrows the clip rectangle to its overlap with `r`, touching nothing
    /// else; see [`Canvas::set_clip_rect`].
    pub fn set_clip(&mut self, r: RectArea)
        requires
            old(self).inv(),
        ensures
            final(self).inv(),
            final(self).spec_width() == old(self).spec_width(),
            final(self).spec_height() == old(self).spec_height(),
            final(self).cells() == old(self).cells(),
            final(self).spec_image() == old(self).spec_image(),
            final(self).clip() == RectArea::spec_intersect(
                full_rect(old(self).spec_width(), old(self).spec_height()),
                r,
            ),
    {
        let full = RectArea::new(0, 0, self.width, self.height);
        self.clip_rect = full.intersect(r);
    }

    /// Bulk-populates from rows of hexadecimal text: each row, after blank
    /// stripping, is a run of 4-digit groups, each group one tile per
    /// [`tile_of_group`]. The rows are decoded into a temporary tilemap of
    /// exactly the derived size, which is then blitted onto this one at
    /// `(x, y)` with no flips and no transparent key, so an oversized or
    /// offset insert is safely truncated by the ordinary clipping rules.
    ///
    /// A ragged row or a non-hexadecimal group is a data error: the call
    /// fails and this tilemap is left completely unchanged.
    #[verifier::loop_isolation(false)]
    pub fn set(&mut self, x: i32, y: i32, data_str: &[&str]) -> (res: Result<(), TilemapError>)
        requires
            old(self).inv(),
            data_str@.len() <= i32::MAX as int,
            forall|i: int|
                0 <= i < data_str@.len() ==> (#[trigger] data_str@[i])@.len() <= i32::MAX as int,
        ensures
            final(self).inv(),
            final(self).spec_width() == old(self).spec_width(),
            final(self).spec_height() == old(self).spec_height(),
            final(self).clip() == old(self).clip(),
            final(self).spec_image() == old(self).spec_image(),
            res is Ok <==> decode_ok(str_rows_view(data_str@)),
            res is Err ==> res == Result::<(), TilemapError>::Err(TilemapError::InvalidData)
                && *final(self) == *old(self),
            data_str@.len() == 0 ==> *final(self) == *old(self),
            res is Ok && data_str@.len() > 0 ==> final(self).cells() == blit_result(
                old(self).cells(),
                old(self).spec_width(),
                old(self).spec_height(),
                old(self).clip(),
                decoded_cells(str_rows_view(data_str@)),
                decode_cols(str_rows_view(data_str@)),
                data_str@.len() as int,
                x as int,
                y as int,
                0,
                0,
                decode_cols(str_rows_view(data_str@)),
                data_str@.len() as int,
                false,
                false,
                Option::None,
            ),
    {
        let n: usize = data_str.len();
        if n == 0 {
            return Result::Ok(());
        }
        let ghost rows = str_rows_view(data_str@);
        let row0: Vec<char> = simplify_string(data_str[0]);
        proof {
            crate::utility::lemma_strip_blanks_len(data_str@[0]@);
        }
        if row0.len() % 4 != 0 {
            return Result::Err(TilemapError::InvalidData);
        }
        let cols: usize = row0.len() / 4;
        let mut tm = Tilemap::new(cols as u32, n as u32, self.image);
        let ghost dec = decoded_cells(rows);
        proof {
            assert(decode_cols(rows) == cols as int);
        }
        let mut i: usize = 0;
        while i < n
            invariant
                i <= n,
                tm.inv(),
                tm.spec_width() == cols as int,
                tm.spec_height() == n as int,
                forall|ii: int|
                    0 <= ii < i ==> (#[trigger] strip_blanks(rows[ii])).len() == 4 * cols,
                forall|ii: int| 0 <= ii < i ==> all_hex(#[trigger] strip_blanks(rows[ii])),
                tm.cells().len() == n as int,
                forall|q: int| 0 <= q < n ==> (#[trigger] tm.cells()[q]).len() == cols as int,
                forall|q: int, p: int|
                    0 <= q < n && 0 <= p < cols ==> #[trigger] tm.cells()[q][p] == (if q < i {
                        dec[q][p]
                    } else {
                        zero_tile()
                    }),
            decreases n - i,
        {
            let rowc: Vec<char> = simplify_string(data_str[i]);
            if rowc.len() != 4 * cols {
                proof {
                    assert(rows[0] == data_str@[0]@);
                    assert(rows[i as int] == data_str@[i as int]@);
                    assert(strip_blanks(rows[0]).len() == 4 * cols);
                    assert(strip_blanks(rows[i as int]).len() != 4 * cols);
                }
                return Result::Err(TilemapError::InvalidData);
            }
            let mut j: usize = 0;
            while j < cols
                invariant
                    j <= cols,
                    i < n,
                    rowc@ == strip_blanks(rows[i as int]),
                    rowc@.len() == 4 * cols,
                    forall|k: int| 0 <= k < 4 * j ==> is_hex_digit(#[trigger] rowc@[k]),
                    tm.inv(),
                    tm.spec_width() == cols as int,
                    tm.spec_height() == n as int,
                    tm.cells().len() == n as int,
                    forall|q: int| 0 <= q < n ==> (#[trigger] tm.cells()[q]).len() == cols as int,
                    forall|q: int, p: int|
                        0 <= q < n && 0 <= p < cols ==> #[trigger] tm.cells()[q][p] == (if q < i
                            || (q == i && p < j) {
                            dec[q][p]
                        } else {
                            zero_tile()
                        }),
                decreases cols - j,
            {
                match parse_hex_group(&rowc, 4 * j) {
                    Option::Some(value) => {
                        let tile = Tile {
                            tile_x: ((value >> 16u32) & 0xffu32) as u8,
                            tile_y: (value & 0xffu32) as u8,
                        };
                        tm._set_value(j as i32, i as i32, tile);
                        proof {
                            let grp = rowc@.subrange(4 * (j as int), 4 * (j as int) + 4);
                            assert(tile == tile_of_group(grp));
                            assert forall|k: int| 0 <= k < 4 * (j + 1) implies is_hex_digit(
                                #[trigger] rowc@[k],
                            ) by {
                                if k >= 4 * j {
                                    assert(grp[k - 4 * (j as int)] == rowc@[k]);
                                }
                            }
                        }
                    },
                    Option::None => {
                        proof {
                            let grp = rowc@.subrange(4 * (j as int), 4 * (j as int) + 4);
                            assert(!all_hex(grp));
                            let k = choose|k: int| 0 <= k < grp.len() && !is_hex_digit(grp[k]);
                            assert(strip_blanks(rows[i as int])[4 * (j as int) + k] == grp[k]);
                            assert(!all_hex(strip_blanks(rows[i as int])));
                        }
                        return Result::Err(TilemapError::InvalidData);
                    },
                }
                j = j + 1;
            }
            i = i + 1;
        }
        canvas::blt(self, x, y, &tm, 0, 0, cols as u32, n as u32, false, false, Option::None);
        proof {
            assert forall|q: int| 0 <= q < n implies tm.cells()[q] =~= dec[q] by {
                assert(forall|p: int| 0 <= p < cols ==> tm.cells()[q][p] == #[trigger] dec[q][p]);
            }
            assert(tm.cells() =~~= dec);
        }
        Result::Ok(())
    }
}

} // verus!
