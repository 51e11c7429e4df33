//! The shared surface contract and the generic clipped blit algorithm.
//!
//! Any fixed-size 2D grid of copyable cells can implement [`Canvas`]; the
//! blit functions [`blt`] and [`blt_self`] are written once against that
//! contract. A blit copies a rectangular region between two surfaces (or
//! within one), clipped to the destination's clip rectangle and to both
//! surfaces' bounds, with optional horizontal/vertical flips and an optional
//! transparent key value whose cells are skipped.

use vstd::prelude::*;

use crate::rectarea::RectArea;

verus! {

/// A cell value: copyable, with an executable equality test that agrees with
/// mathematical equality. The transparent-key comparison of the blit
/// algorithm runs through this.
pub trait CellEq: Copy + Sized {
    /// Decides whether two cell values are equal.
    fn same(a: Self, b: Self) -> (r: bool)
        ensures
            r == (a == b),
    ;
}

/// A rectangle of mathematical integers, used to describe clipped copy
/// regions without any concern for machine-integer ranges.
pub ghost struct Span {
    pub left: int,
    pub top: int,
    pub width: int,
    pub height: int,
}

/// The mathematical view of a row-major buffer: one sequence per row.
pub open spec fn rows_view<T>(data: Seq<Vec<T>>) -> Seq<Seq<T>> {
    Seq::new(data.len(), |i: int| data[i]@)
}

/// The span covering the same points as a rectangle.
pub open spec fn span_of(r: RectArea) -> Span {
    Span { left: r.left as int, top: r.top as int, width: r.width as int, height: r.height as int }
}

/// Whether `(x, y)` lies inside the span; a span of non-positive width or
/// height contains nothing.
pub open spec fn span_contains(s: Span, x: int, y: int) -> bool {
    &&& s.left <= x
    &&& x < s.left + s.width
    &&& s.top <= y
    &&& y < s.top + s.height
}

/// The overlap of two spans; the result covers exactly the points covered by
/// both.
pub open spec fn span_inter(a: Span, b: Span) -> Span {
    let l = if a.left >= b.left {
        a.left
    } else {
        b.left
    };
    let t = if a.top >= b.top {
        a.top
    } else {
        b.top
    };
    let r = if a.left + a.width <= b.left + b.width {
        a.left + a.width
    } else {
        b.left + b.width
    };
    let m = if a.top + a.height <= b.top + b.height {
        a.top + a.height
    } else {
        b.top + b.height
    };
    Span { left: l, top: t, width: r - l, height: m - t }
}

/// The span moved by `(dx, dy)`.
pub open spec fn span_shift(s: Span, dx: int, dy: int) -> Span {
    Span { left: s.left + dx, top: s.top + dy, width: s.width, height: s.height }
}

/// The full rectangle `(0, 0, w, h)` of a surface of the given size.
pub open spec fn full_rect(w: int, h: int) -> RectArea {
    RectArea { left: 0, top: 0, width: w as u32, height: h as u32 }
}

/// The rectangle requested by a caller, from integer coordinates.
pub open spec fn rect_at(x: int, y: int, w: int, h: int) -> RectArea {
    RectArea { left: x as i32, top: y as i32, width: w as u32, height: h as u32 }
}

/// The source-side region a blit finally copies from: the requested source
/// rectangle clipped to the source's bounds, further restricted to stay in
/// 1:1 correspondence with the destination's write region (the requested
/// destination rectangle clipped to the destination's clip rectangle and
/// bounds).
pub open spec fn blit_src_span(
    dw: int,
    dh: int,
    dclip: RectArea,
    sw: int,
    sh: int,
    x: int,
    y: int,
    u: int,
    v: int,
    w: int,
    h: int,
) -> Span {
    let d1 = RectArea::spec_intersect(
        RectArea::spec_intersect(dclip, full_rect(dw, dh)),
        rect_at(x, y, w, h),
    );
    let s1 = RectArea::spec_intersect(full_rect(sw, sh), rect_at(u, v, w, h));
    span_inter(span_of(s1), span_shift(span_of(d1), u - x, v - y))
}

/// The destination-side region a blit finally writes to: the source-side
/// region mapped back through the copy offset.
pub open spec fn blit_dst_span(
    dw: int,
    dh: int,
    dclip: RectArea,
    sw: int,
    sh: int,
    x: int,
    y: int,
    u: int,
    v: int,
    w: int,
    h: int,
) -> Span {
    span_shift(blit_src_span(dw, dh, dclip, sw, sh, x, y, u, v, w, h), x - u, y - v)
}

/// The source cell a destination cell `(px, py)` of the final region reads
/// from: its offset within the final region, reflected around the region's
/// span per flip flag, mapped into the final source region.
pub open spec fn blit_source_value<T>(
    src_cells: Seq<Seq<T>>,
    fd: Span,
    fs: Span,
    hflip: bool,
    vflip: bool,
    px: int,
    py: int,
) -> T {
    let i = px - fd.left;
    let j = py - fd.top;
    let si = if hflip {
        fd.width - 1 - i
    } else {
        i
    };
    let sj = if vflip {
        fd.height - 1 - j
    } else {
        j
    };
    src_cells[fs.top + sj][fs.left + si]
}

/// What a destination cell holds after a blit: inside the final region the
/// corresponding source value, unless a transparent key is set and the
/// source value equals it; outside the final region the old value.
pub open spec fn blit_cell<T>(
    dst_cells: Seq<Seq<T>>,
    src_cells: Seq<Seq<T>>,
    fd: Span,
    fs: Span,
    hflip: bool,
    vflip: bool,
    colkey: Option<T>,
    px: int,
    py: int,
) -> T {
    if span_contains(fd, px, py) {
        let sval = blit_source_value(src_cells, fd, fs, hflip, vflip, px, py);
        match colkey {
            Option::Some(k) => if sval == k {
                dst_cells[py][px]
            } else {
                sval
            },
            Option::None => sval,
        }
    } else {
        dst_cells[py][px]
    }
}

/// The whole destination grid after a blit, cell by cell.
pub open spec fn blit_result<T>(
    dst_cells: Seq<Seq<T>>,
    dw: int,
    dh: int,
    dclip: RectArea,
    src_cells: Seq<Seq<T>>,
    sw: int,
    sh: int,
    x: int,
    y: int,
    u: int,
    v: int,
    w: int,
    h: int,
    hflip: bool,
    vflip: bool,
    colkey: Option<T>,
) -> Seq<Seq<T>> {
    let fs = blit_src_span(dw, dh, dclip, sw, sh, x, y, u, v, w, h);
    let fd = blit_dst_span(dw, dh, dclip, sw, sh, x, y, u, v, w, h);
    Seq::new(
        dh as nat,
        |py: int|
            Seq::new(
                dw as nat,
                |px: int| blit_cell(dst_cells, src_cells, fd, fs, hflip, vflip, colkey, px, py),
            ),
    )
}

/// A grid equal to the blit outcome cell by cell equals `blit_result` as a
/// whole.
pub proof fn lemma_blit_result_pointwise<T>(
    dst_cells: Seq<Seq<T>>,
    dw: int,
    dh: int,
    dclip: RectArea,
    src_cells: Seq<Seq<T>>,
    sw: int,
    sh: int,
    x: int,
    y: int,
    u: int,
    v: int,
    w: int,
    h: int,
    hflip: bool,
    vflip: bool,
    colkey: Option<T>,
    actual: Seq<Seq<T>>,
)
    requires
        actual.len() == dh,
        forall|py: int| 0 <= py < dh ==> (#[trigger] actual[py]).len() == dw,
        forall|px: int, py: int|
            0 <= px < dw && 0 <= py < dh ==> #[trigger] actual[py][px] == blit_cell(
                dst_cells,
                src_cells,
                blit_dst_span(dw, dh, dclip, sw, sh, x, y, u, v, w, h),
                blit_src_span(dw, dh, dclip, sw, sh, x, y, u, v, w, h),
                hflip,
                vflip,
                colkey,
                px,
                py,
            ),
    ensures
        actual == blit_result(
            dst_cells,
            dw,
            dh,
            dclip,
            src_cells,
            sw,
            sh,
            x,
            y,
            u,
            v,
            w,
            h,
            hflip,
            vflip,
            colkey,
        ),
{
    let res = blit_result(
        dst_cells,
        dw,
        dh,
        dclip,
        src_cells,
        sw,
        sh,
        x,
        y,
        u,
        v,
        w,
        h,
        hflip,
        vflip,
        colkey,
    );
    assert forall|py: int| 0 <= py < dh implies actual[py] =~= res[py] by {
        assert(forall|px: int| 0 <= px < dw ==> actual[py][px] == #[trigger] res[py][px]);
    }
    assert(actual =~~= res);
}

/// Blit idempotence: copying a surface onto itself at offset `(0, 0)`, at
/// full size, with no flips and no transparent key, leaves every cell
/// unchanged, whatever the clip rectangle.
pub proof fn lemma_blit_identity<T>(cells: Seq<Seq<T>>, w: int, h: int, clip: RectArea)
    requires
        0 <= w <= u32::MAX as int,
        0 <= h <= u32::MAX as int,
        cells.len() == h,
        forall|yy: int| 0 <= yy < h ==> (#[trigger] cells[yy]).len() == w,
    ensures
        blit_result(
            cells,
            w,
            h,
            clip,
            cells,
            w,
            h,
            0,
            0,
            0,
            0,
            w,
            h,
            false,
            false,
            Option::<T>::None,
        ) == cells,
{
    lemma_blit_result_pointwise(
        cells,
        w,
        h,
        clip,
        cells,
        w,
        h,
        0,
        0,
        0,
        0,
        w,
        h,
        false,
        false,
        Option::<T>::None,
        cells,
    );
}

/// Blit clipping: a cell outside the destination's clip rectangle is never
/// changed by a blit, whatever region, flips or key were requested.
pub proof fn lemma_blit_respects_clip<T>(
    dst_cells: Seq<Seq<T>>,
    dw: int,
    dh: int,
    dclip: RectArea,
    src_cells: Seq<Seq<T>>,
    sw: int,
    sh: int,
    x: int,
    y: int,
    u: int,
    v: int,
    w: int,
    h: int,
    hflip: bool,
    vflip: bool,
    colkey: Option<T>,
    px: int,
    py: int,
)
    requires
        0 <= px < dw,
        0 <= py < dh,
        !dclip.spec_contains(px, py),
    ensures
        blit_result(
            dst_cells,
            dw,
            dh,
            dclip,
            src_cells,
            sw,
            sh,
            x,
            y,
            u,
            v,
            w,
            h,
            hflip,
            vflip,
            colkey,
        )[py][px] == dst_cells[py][px],
{
    let d1a = RectArea::spec_intersect(dclip, full_rect(dw, dh));
    let d1 = RectArea::spec_intersect(d1a, rect_at(x, y, w, h));
    crate::rectarea::lemma_intersect_contained(dclip, full_rect(dw, dh), px, py);
    crate::rectarea::lemma_intersect_contained(d1a, rect_at(x, y, w, h), px, py);
    assert(!d1.spec_contains(px, py));
}

/// Blit transparency: inside the final copy region, a destination cell whose
/// corresponding source value equals the transparent key keeps its old
/// value, and every other cell takes the source value; outside the region
/// nothing changes.
pub proof fn lemma_blit_transparency<T>(
    dst_cells: Seq<Seq<T>>,
    dw: int,
    dh: int,
    dclip: RectArea,
    src_cells: Seq<Seq<T>>,
    sw: int,
    sh: int,
    x: int,
    y: int,
    u: int,
    v: int,
    w: int,
    h: int,
    hflip: bool,
    vflip: bool,
    key: T,
    px: int,
    py: int,
)
    requires
        0 <= px < dw,
        0 <= py < dh,
    ensures
        ({
            let fd = blit_dst_span(dw, dh, dclip, sw, sh, x, y, u, v, w, h);
            let fs = blit_src_span(dw, dh, dclip, sw, sh, x, y, u, v, w, h);
            let r = blit_result(
                dst_cells,
                dw,
                dh,
                dclip,
                src_cells,
                sw,
                sh,
                x,
                y,
                u,
                v,
                w,
                h,
                hflip,
                vflip,
                Option::Some(key),
            )[py][px];
            if span_contains(fd, px, py) {
                r == (if blit_source_value(src_cells, fd, fs, hflip, vflip, px, py) == key {
                    dst_cells[py][px]
                } else {
                    blit_source_value(src_cells, fd, fs, hflip, vflip, px, py)
                })
            } else {
                r == dst_cells[py][px]
            }
        }),
{
}

/// Flip correctness, horizontal: a full-surface copy with `hflip` set and an
/// unnarrowed clip rectangle mirrors the column order and keeps every row in
/// place.
pub proof fn lemma_blit_hflip_full<T>(
    dst_cells: Seq<Seq<T>>,
    src_cells: Seq<Seq<T>>,
    w: int,
    h: int,
    px: int,
    py: int,
)
    requires
        0 <= w <= u32::MAX as int,
        0 <= h <= u32::MAX as int,
        0 <= px < w,
        0 <= py < h,
    ensures
        blit_result(
            dst_cells,
            w,
            h,
            full_rect(w, h),
            src_cells,
            w,
            h,
            0,
            0,
            0,
            0,
            w,
            h,
            true,
            false,
            Option::<T>::None,
        )[py][px] == src_cells[py][w - 1 - px],
{
}

/// Flip correctness, vertical: a full-surface copy with `vflip` set and an
/// unnarrowed clip rectangle mirrors the row order and keeps every column in
/// place.
pub proof fn lemma_blit_vflip_full<T>(
    dst_cells: Seq<Seq<T>>,
    src_cells: Seq<Seq<T>>,
    w: int,
    h: int,
    px: int,
    py: int,
)
    requires
        0 <= w <= u32::MAX as int,
        0 <= h <= u32::MAX as int,
        0 <= px < w,
        0 <= py < h,
    ensures
        blit_result(
            dst_cells,
            w,
            h,
            full_rect(w, h),
            src_cells,
            w,
            h,
            0,
            0,
            0,
            0,
            w,
            h,
            false,
            true,
            Option::<T>::None,
        )[py][px] == src_cells[h - 1 - py][px],
{
}

/// The contract every fixed-size grid surface satisfies.
///
/// A surface is modelled by its cell grid (`cells`, row-major), its fixed
/// size, and its clip rectangle, which is always contained in the surface's
/// own bounds. The raw accessors `_value` and `_set_value` are meant for the
/// shared algorithms, which pre-clip every coordinate; direct callers must
/// establish the bounds themselves (a standalone surface offers checked
/// accessors for external use).
pub trait Canvas<T: CellEq>: Sized {
    /// Number of columns, fixed for the surface's lifetime.
    spec fn spec_width(&self) -> int;

    /// Number of rows, fixed for the surface's lifetime.
    spec fn spec_height(&self) -> int;

    /// The grid contents: one sequence per row, top to bottom.
    spec fn cells(&self) -> Seq<Seq<T>>;

    /// The active clip rectangle.
    spec fn clip(&self) -> RectArea;

    /// Well-formedness: dimensions in range, grid sized `height x width`,
    /// clip rectangle inside the surface.
    spec fn inv(&self) -> bool;

    /// All surface state apart from the cell grid is the same in `self` and
    /// `other` (for a tile grid: size, rectangles, the image handle).
    spec fn same_except_cells(&self, other: &Self) -> bool;

    /// What `inv` guarantees about the model.
    proof fn lemma_inv(&self)
        requires
            self.inv(),
        ensures
            0 <= self.spec_width() <= i32::MAX as int,
            0 <= self.spec_height() <= i32::MAX as int,
            self.cells().len() == self.spec_height(),
            forall|yy: int|
                0 <= yy < self.spec_height() ==> (#[trigger] self.cells()[yy]).len()
                    == self.spec_width(),
            forall|x: int, y: int|
                self.clip().spec_contains(x, y) ==> 0 <= x < self.spec_width() && 0 <= y
                    < self.spec_height(),
    ;

    /// `same_except_cells` is reflexive and transitive, so it can be carried
    /// through a chain of cell writes.
    proof fn lemma_same_except_cells(a: &Self, b: &Self, c: &Self)
        ensures
            a.same_except_cells(a),
            a.same_except_cells(b) && b.same_except_cells(c) ==> a.same_except_cells(c),
    ;

    /// Number of columns.
    fn width(&self) -> (r: u32)
        requires
            self.inv(),
        ensures
            r == self.spec_width(),
    ;

    /// Number of rows.
    fn height(&self) -> (r: u32)
        requires
            self.inv(),
        ensures
            r == self.spec_height(),
    ;

    /// The full-extent rectangle `(0, 0, width, height)` of the surface.
    fn _self_rect(&self) -> (r: RectArea)
        requires
            self.inv(),
        ensures
            r == full_rect(self.spec_width(), self.spec_height()),
    ;

    /// The active clip rectangle.
    fn _clip_rect(&self) -> (r: RectArea)
        requires
            self.inv(),
        ensures
            r == self.clip(),
    ;

    /// Narrows the clip rectangle to its overlap with `r`. Narrowing never
    /// touches previously written cells; it only restricts future writes
    /// made through the shared algorithms.
    fn set_clip_rect(&mut self, r: RectArea)
        requires
            old(self).inv(),
        ensures
            final(self).inv(),
            final(self).spec_width() == old(self).spec_width(),
            final(self).spec_height() == old(self).spec_height(),
            final(self).cells() == old(self).cells(),
            final(self).clip() == RectArea::spec_intersect(
                full_rect(old(self).spec_width(), old(self).spec_height()),
                r,
            ),
    ;

    /// Raw cell read; the caller establishes that `(x, y)` is in bounds.
    fn _value(&self, x: i32, y: i32) -> (r: T)
        requires
            self.inv(),
            0 <= x < self.spec_width(),
            0 <= y < self.spec_height(),
        ensures
            r == self.cells()[y as int][x as int],
    ;

    /// Raw cell write; the caller establishes that `(x, y)` is in bounds.
    fn _set_value(&mut self, x: i32, y: i32, value: T)
        requires
            old(self).inv(),
            0 <= x < old(self).spec_width(),
            0 <= y < old(self).spec_height(),
        ensures
            final(self).inv(),
            final(self).spec_width() == old(self).spec_width(),
            final(self).spec_height() == old(self).spec_height(),
            final(self).clip() == old(self).clip(),
            final(self).same_except_cells(old(self)),
            final(self).cells() == old(self).cells().update(
                y as int,
                old(self).cells()[y as int].update(x as int, value),
            ),
    ;
}

/// Copies the `(w, h)` region at `(u, v)` of `src` onto `dst` with top-left
/// corner `(x, y)`, optionally flipped and with an optional transparent key.
///
/// The write region is the requested destination rectangle clipped to the
/// destination's clip rectangle and bounds; the read region is the requested
/// source rectangle clipped to the source's bounds; both are further
/// restricted to their 1:1 overlap. Requests partly or wholly out of range
/// degrade to the clipped overlap — possibly a no-op, never an error.
#[verifier::loop_isolation(false)]
#[verifier::rlimit(100)]
pub fn blt<T: CellEq, D: Canvas<T>, S: Canvas<T>>(
    dst: &mut D,
    x: i32,
    y: i32,
    src: &S,
    u: i32,
    v: i32,
    w: u32,
    h: u32,
    hflip: bool,
    vflip: bool,
    colkey: Option<T>,
)
    requires
        old(dst).inv(),
        src.inv(),
    ensures
        final(dst).inv(),
        final(dst).spec_width() == old(dst).spec_width(),
        final(dst).spec_height() == old(dst).spec_height(),
        final(dst).clip() == old(dst).clip(),
        final(dst).same_except_cells(old(dst)),
        final(dst).cells() == blit_result(
            old(dst).cells(),
            old(dst).spec_width(),
            old(dst).spec_height(),
            old(dst).clip(),
            src.cells(),
            src.spec_width(),
            src.spec_height(),
            x as int,
            y as int,
            u as int,
            v as int,
            w as int,
            h as int,
            hflip,
            vflip,
            colkey,
        ),
{
    proof {
        dst.lemma_inv();
        src.lemma_inv();
        D::lemma_same_except_cells(dst, dst, dst);
    }
    let dw = dst.width();
    let dh = dst.height();
    let sw = src.width();
    let sh = src.height();
    let d1 = dst._clip_rect().intersect(dst._self_rect()).intersect(RectArea::new(x, y, w, h));
    let s1 = src._self_rect().intersect(RectArea::new(u, v, w, h));
    let ghost fsg = blit_src_span(
        dw as int,
        dh as int,
        old(dst).clip(),
        sw as int,
        sh as int,
        x as int,
        y as int,
        u as int,
        v as int,
        w as int,
        h as int,
    );
    let ghost fdg = blit_dst_span(
        dw as int,
        dh as int,
        old(dst).clip(),
        sw as int,
        sh as int,
        x as int,
        y as int,
        u as int,
        v as int,
        w as int,
        h as int,
    );
    let ghost old_cells = old(dst).cells();
    let ghost src_cells = src.cells();
    let ghost res = blit_result(
        old(dst).cells(),
        old(dst).spec_width(),
        old(dst).spec_height(),
        old(dst).clip(),
        src.cells(),
        src.spec_width(),
        src.spec_height(),
        x as int,
        y as int,
        u as int,
        v as int,
        w as int,
        h as int,
        hflip,
        vflip,
        colkey,
    );
    let dxo: i64 = u as i64 - x as i64;
    let dyo: i64 = v as i64 - y as i64;
    let fl: i64 = if s1.left as i64 >= d1.left as i64 + dxo {
        s1.left as i64
    } else {
        d1.left as i64 + dxo
    };
    let ft: i64 = if s1.top as i64 >= d1.top as i64 + dyo {
        s1.top as i64
    } else {
        d1.top as i64 + dyo
    };
    let fr: i64 = if s1.left as i64 + s1.width as i64 <= d1.left as i64 + d1.width as i64 + dxo {
        s1.left as i64 + s1.width as i64
    } else {
        d1.left as i64 + d1.width as i64 + dxo
    };
    let fm: i64 = if s1.top as i64 + s1.height as i64 <= d1.top as i64 + d1.height as i64 + dyo {
        s1.top as i64 + s1.height as i64
    } else {
        d1.top as i64 + d1.height as i64 + dyo
    };
    proof {
        assert(fl == fsg.left && ft == fsg.top && fr == fsg.left + fsg.width && fm == fsg.top
            + fsg.height);
    }
    if fr - fl <= 0 || fm - ft <= 0 {
        proof {
            assert forall|py: int| 0 <= py < dh implies dst.cells()[py] =~= res[py] by {
                assert(forall|px: int|
                    0 <= px < dw ==> dst.cells()[py][px] == #[trigger] res[py][px]);
            }
            assert(dst.cells() =~~= res);
        }
        return ;
    }
    proof {
        assert(s1.spec_contains(fl as int, ft as int));
        assert(s1.spec_contains(fr - 1, fm - 1));
        assert(d1.spec_contains(fl - dxo, ft - dyo));
        assert(d1.spec_contains(fr - dxo - 1, fm - dyo - 1));
        assert(0 <= fl && fr <= sw as int && 0 <= ft && fm <= sh as int);
        assert(0 <= fl - dxo && fr - dxo <= dw as int && 0 <= ft - dyo && fm - dyo <= dh as int);
    }
    let fw: u32 = (fr - fl) as u32;
    let fh: u32 = (fm - ft) as u32;
    let fsl: i32 = fl as i32;
    let fst: i32 = ft as i32;
    let fdl: i32 = (fl - dxo) as i32;
    let fdt: i32 = (ft - dyo) as i32;
    let mut j: u32 = 0;
    while j < fh
        invariant
            j <= fh,
            dst.inv(),
            dst.spec_width() == dw as int,
            dst.spec_height() == dh as int,
            dst.clip() == old(dst).clip(),
            dst.same_except_cells(old(dst)),
            dst.cells().len() == dh as int,
            forall|yy: int| 0 <= yy < dh ==> (#[trigger] dst.cells()[yy]).len() == dw as int,
            forall|px: int, py: int|
                0 <= px < dw && 0 <= py < dh ==> #[trigger] dst.cells()[py][px] == (
                if span_contains(fdg, px, py) && py < fdg.top + j {
                    blit_cell(old_cells, src_cells, fdg, fsg, hflip, vflip, colkey, px, py)
                } else {
                    old_cells[py][px]
                }),
        decreases fh - j,
    {
        let mut i: u32 = 0;
        while i < fw
            invariant
                i <= fw,
                j < fh,
                dst.inv(),
                dst.spec_width() == dw as int,
                dst.spec_height() == dh as int,
                dst.clip() == old(dst).clip(),
                dst.same_except_cells(old(dst)),
                dst.cells().len() == dh as int,
                forall|yy: int| 0 <= yy < dh ==> (#[trigger] dst.cells()[yy]).len() == dw as int,
                forall|px: int, py: int|
                    0 <= px < dw && 0 <= py < dh ==> #[trigger] dst.cells()[py][px] == (
                    if span_contains(fdg, px, py) && (py < fdg.top + j || (py == fdg.top + j && px
                        < fdg.left + i)) {
                        blit_cell(old_cells, src_cells, fdg, fsg, hflip, vflip, colkey, px, py)
                    } else {
                        old_cells[py][px]
                    }),
            decreases fw - i,
        {
            let cx: i32 = fdl + i as i32;
            let cy: i32 = fdt + j as i32;
            let si: u32 = if hflip {
                fw - 1 - i
            } else {
                i
            };
            let sj: u32 = if vflip {
                fh - 1 - j
            } else {
                j
            };
            let sx: i32 = fsl + si as i32;
            let sy: i32 = fst + sj as i32;
            let val = src._value(sx, sy);
            let ghost prev = *dst;
            let skip = match colkey {
                Option::Some(k) => CellEq::same(val, k),
                Option::None => false,
            };
            if !skip {
                dst._set_value(cx, cy, val);
                proof {
                    D::lemma_same_except_cells(dst, &prev, old(dst));
                }
            }
            proof {
                assert(val == blit_source_value(src_cells, fdg, fsg, hflip, vflip, cx as int, cy as int));
            }
            i = i + 1;
        }
        j = j + 1;
    }
    proof {
        assert forall|py: int| 0 <= py < dh implies dst.cells()[py] =~= res[py] by {
            assert(forall|px: int| 0 <= px < dw ==> dst.cells()[py][px] == #[trigger] res[py][px]);
        }
        assert(dst.cells() =~~= res);
    }
}

/// Reads the `(fw, fh)` region of `src` at `(fsl, fst)` into a fresh
/// row-major buffer, without touching `src`.
#[verifier::loop_isolation(false)]
fn read_region<T: CellEq, C: Canvas<T>>(src: &C, fsl: i32, fst: i32, fw: u32, fh: u32) -> (buf: Vec<
    Vec<T>,
>)
    requires
        src.inv(),
        0 <= fsl,
        fsl + fw <= src.spec_width(),
        0 <= fst,
        fst + fh <= src.spec_height(),
    ensures
        buf@.len() == fh as int,
        forall|jj: int| 0 <= jj < fh ==> (#[trigger] buf@[jj]).len() == fw as int,
        forall|jj: int, ii: int|
            0 <= jj < fh && 0 <= ii < fw ==> #[trigger] buf@[jj][ii] == src.cells()[fst + jj][fsl
                + ii],
{
    proof {
        src.lemma_inv();
    }
    let mut buf: Vec<Vec<T>> = Vec::new();
    let mut bj: u32 = 0;
    while bj < fh
        invariant
            bj <= fh,
            buf@.len() == bj as int,
            forall|jj: int| 0 <= jj < bj ==> (#[trigger] buf@[jj]).len() == fw as int,
            forall|jj: int, ii: int|
                0 <= jj < bj && 0 <= ii < fw ==> #[trigger] buf@[jj][ii] == src.cells()[fst
                    + jj][fsl + ii],
        decreases fh - bj,
    {
        let mut row: Vec<T> = Vec::new();
        let mut bi: u32 = 0;
        while bi < fw
            invariant
                bi <= fw,
                bj < fh,
                row@.len() == bi as int,
                forall|ii: int|
                    0 <= ii < bi ==> #[trigger] row@[ii] == src.cells()[fst + bj][fsl + ii],
            decreases fw - bi,
        {
            let cell = src._value(fsl + bi as i32, fst + bj as i32);
            row.push(cell);
            bi = bi + 1;
        }
        buf.push(row);
        bj = bj + 1;
    }
    buf
}

/// Copies a region of a surface onto the same surface, as [`blt`] does for
/// two distinct surfaces.
///
/// The needed source region is read into a separate buffer before any cell is
/// written, so no cell is ever read after this same call has overwritten it:
/// the result equals a copy from a snapshot of the surface taken before the
/// call, exactly as if the source had first been copied out in full. Callers
/// sharing a surface behind one lock acquire it once and call this, instead
/// of locking the same surface twice for [`blt`].
#[verifier::loop_isolation(false)]
#[verifier::rlimit(100)]
pub fn blt_self<T: CellEq, C: Canvas<T>>(
    dst: &mut C,
    x: i32,
    y: i32,
    u: i32,
    v: i32,
    w: u32,
    h: u32,
    hflip: bool,
    vflip: bool,
    colkey: Option<T>,
)
    requires
        old(dst).inv(),
    ensures
        final(dst).inv(),
        final(dst).spec_width() == old(dst).spec_width(),
        final(dst).spec_height() == old(dst).spec_height(),
        final(dst).clip() == old(dst).clip(),
        final(dst).same_except_cells(old(dst)),
        final(dst).cells() == blit_result(
            old(dst).cells(),
            old(dst).spec_width(),
            old(dst).spec_height(),
            old(dst).clip(),
            old(dst).cells(),
            old(dst).spec_width(),
            old(dst).spec_height(),
            x as int,
            y as int,
            u as int,
            v as int,
            w as int,
            h as int,
            hflip,
            vflip,
            colkey,
        ),
{
    proof {
        dst.lemma_inv();
        C::lemma_same_except_cells(dst, dst, dst);
    }
    let dw = dst.width();
    let dh = dst.height();
    let d1 = dst._clip_rect().intersect(dst._self_rect()).intersect(RectArea::new(x, y, w, h));
    let s1 = dst._self_rect().intersect(RectArea::new(u, v, w, h));
    let ghost fsg = blit_src_span(
        dw as int,
        dh as int,
        old(dst).clip(),
        dw as int,
        dh as int,
        x as int,
        y as int,
        u as int,
        v as int,
        w as int,
        h as int,
    );
    let ghost fdg = blit_dst_span(
        dw as int,
        dh as int,
        old(dst).clip(),
        dw as int,
        dh as int,
        x as int,
        y as int,
        u as int,
        v as int,
        w as int,
        h as int,
    );
    let ghost old_cells = old(dst).cells();
    let ghost res = blit_result(
        old(dst).cells(),
        old(dst).spec_width(),
        old(dst).spec_height(),
        old(dst).clip(),
        old(dst).cells(),
        old(dst).spec_width(),
        old(dst).spec_height(),
        x as int,
        y as int,
        u as int,
        v as int,
        w as int,
        h as int,
        hflip,
        vflip,
        colkey,
    );
    let dxo: i64 = u as i64 - x as i64;
    let dyo: i64 = v as i64 - y as i64;
    let fl: i64 = if s1.left as i64 >= d1.left as i64 + dxo {
        s1.left as i64
    } else {
        d1.left as i64 + dxo
    };
    let ft: i64 = if s1.top as i64 >= d1.top as i64 + dyo {
        s1.top as i64
    } else {
        d1.top as i64 + dyo
    };
    let fr: i64 = if s1.left as i64 + s1.width as i64 <= d1.left as i64 + d1.width as i64 + dxo {
        s1.left as i64 + s1.width as i64
    } else {
        d1.left as i64 + d1.width as i64 + dxo
    };
    let fm: i64 = if s1.top as i64 + s1.height as i64 <= d1.top as i64 + d1.height as i64 + dyo {
        s1.top as i64 + s1.height as i64
    } else {
        d1.top as i64 + d1.height as i64 + dyo
    };
    proof {
        assert(fl == fsg.left && ft == fsg.top && fr == fsg.left + fsg.width && fm == fsg.top
            + fsg.height);
    }
    if fr - fl <= 0 || fm - ft <= 0 {
        proof {
            lemma_blit_result_pointwise(
                old_cells,
                dw as int,
                dh as int,
                old(dst).clip(),
                old_cells,
                dw as int,
                dh as int,
                x as int,
                y as int,
                u as int,
                v as int,
                w as int,
                h as int,
                hflip,
                vflip,
                colkey,
                dst.cells(),
            );
        }
        return ;
    }
    proof {
        assert(s1.spec_contains(fl as int, ft as int));
        assert(s1.spec_contains(fr - 1, fm - 1));
        assert(d1.spec_contains(fl - dxo, ft - dyo));
        assert(d1.spec_contains(fr - dxo - 1, fm - dyo - 1));
        assert(0 <= fl && fr <= dw as int && 0 <= ft && fm <= dh as int);
        assert(0 <= fl - dxo && fr - dxo <= dw as int && 0 <= ft - dyo && fm - dyo <= dh as int);
    }
    let fw: u32 = (fr - fl) as u32;
    let fh: u32 = (fm - ft) as u32;
    let fsl: i32 = fl as i32;
    let fst: i32 = ft as i32;
    let fdl: i32 = (fl - dxo) as i32;
    let fdt: i32 = (ft - dyo) as i32;
    let buf: Vec<Vec<T>> = read_region(dst, fsl, fst, fw, fh);
    write_region(
        dst,
        &buf,
        fdl,
        fdt,
        fw,
        fh,
        hflip,
        vflip,
        colkey,
        Ghost(fdg),
        Ghost(fsg),
        Ghost(old_cells),
    );
    proof {
        dst.lemma_inv();
        lemma_blit_result_pointwise(
            old_cells,
            dw as int,
            dh as int,
            old(dst).clip(),
            old_cells,
            dw as int,
            dh as int,
            x as int,
            y as int,
            u as int,
            v as int,
            w as int,
            h as int,
            hflip,
            vflip,
            colkey,
            dst.cells(),
        );
    }
}

/// Writes a buffered source region into the `(fw, fh)` region of `dst` at
/// `(fdl, fdt)`, applying flips and the transparent key. The buffer holds
/// the final source region row by row, so the write order cannot disturb
/// what is still to be read.
#[verifier::loop_isolation(false)]
#[verifier::rlimit(100)]
fn write_region<T: CellEq, C: Canvas<T>>(
    dst: &mut C,
    buf: &Vec<Vec<T>>,
    fdl: i32,
    fdt: i32,
    fw: u32,
    fh: u32,
    hflip: bool,
    vflip: bool,
    colkey: Option<T>,
    Ghost(fdg): Ghost<Span>,
    Ghost(fsg): Ghost<Span>,
    Ghost(src_cells): Ghost<Seq<Seq<T>>>,
)
    requires
        old(dst).inv(),
        fdg == (Span { left: fdl as int, top: fdt as int, width: fw as int, height: fh as int }),
        fsg.width == fw as int,
        fsg.height == fh as int,
        0 <= fdl,
        fdl + fw <= old(dst).spec_width(),
        0 <= fdt,
        fdt + fh <= old(dst).spec_height(),
        buf@.len() == fh as int,
        forall|jj: int| 0 <= jj < fh ==> (#[trigger] buf@[jj]).len() == fw as int,
        forall|jj: int, ii: int|
            0 <= jj < fh && 0 <= ii < fw ==> #[trigger] buf@[jj][ii] == src_cells[fsg.top
                + jj][fsg.left + ii],
    ensures
        final(dst).inv(),
        final(dst).spec_width() == old(dst).spec_width(),
        final(dst).spec_height() == old(dst).spec_height(),
        final(dst).clip() == old(dst).clip(),
        final(dst).same_except_cells(old(dst)),
        final(dst).cells().len() == old(dst).cells().len(),
        forall|px: int, py: int|
            0 <= px < old(dst).spec_width() && 0 <= py < old(dst).spec_height()
                ==> #[trigger] final(dst).cells()[py][px] == (if span_contains(fdg, px, py) {
                blit_cell(old(dst).cells(), src_cells, fdg, fsg, hflip, vflip, colkey, px, py)
            } else {
                old(dst).cells()[py][px]
            }),
{
    proof {
        dst.lemma_inv();
        C::lemma_same_except_cells(dst, dst, dst);
    }
    let dw = dst.width();
    let dh = dst.height();
    let ghost old_cells = old(dst).cells();
    let mut j: u32 = 0;
    while j < fh
        invariant
            j <= fh,
            dst.inv(),
            dst.spec_width() == dw as int,
            dst.spec_height() == dh as int,
            dst.clip() == old(dst).clip(),
            dst.same_except_cells(old(dst)),
            dst.cells().len() == dh as int,
            forall|yy: int| 0 <= yy < dh ==> (#[trigger] dst.cells()[yy]).len() == dw as int,
            forall|px: int, py: int|
                0 <= px < dw && 0 <= py < dh ==> #[trigger] dst.cells()[py][px] == (
                if span_contains(fdg, px, py) && py < fdg.top + j {
                    blit_cell(old_cells, src_cells, fdg, fsg, hflip, vflip, colkey, px, py)
                } else {
                    old_cells[py][px]
                }),
        decreases fh - j,
    {
        let mut i: u32 = 0;
        while i < fw
            invariant
                i <= fw,
                j < fh,
                dst.inv(),
                dst.spec_width() == dw as int,
                dst.spec_height() == dh as int,
                dst.clip() == old(dst).clip(),
                dst.same_except_cells(old(dst)),
                dst.cells().len() == dh as int,
                forall|yy: int| 0 <= yy < dh ==> (#[trigger] dst.cells()[yy]).len() == dw as int,
                forall|px: int, py: int|
                    0 <= px < dw && 0 <= py < dh ==> #[trigger] dst.cells()[py][px] == (
                    if span_contains(fdg, px, py) && (py < fdg.top + j || (py == fdg.top + j && px
                        < fdg.left + i)) {
                        blit_cell(old_cells, src_cells, fdg, fsg, hflip, vflip, colkey, px, py)
                    } else {
                        old_cells[py][px]
                    }),
            decreases fw - i,
        {
            let cx: i32 = fdl + i as i32;
            let cy: i32 = fdt + j as i32;
            let si: u32 = if hflip {
                fw - 1 - i
            } else {
                i
            };
            let sj: u32 = if vflip {
                fh - 1 - j
            } else {
                j
            };
            let val = buf[sj as usize][si as usize];
            let ghost prev = *dst;
            let skip = match colkey {
                Option::Some(k) => CellEq::same(val, k),
                Option::None => false,
            };
            if !skip {
                dst._set_value(cx, cy, val);
                proof {
                    C::lemma_same_except_cells(dst, &prev, old(dst));
                }
            }
            proof {
                assert(val == blit_source_value(
                    src_cells,
                    fdg,
                    fsg,
                    hflip,
                    vflip,
                    cx as int,
                    cy as int,
                ));
            }
            i = i + 1;
        }
        j = j + 1;
    }
}

} // verus!
