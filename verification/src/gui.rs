//! Box drawing: a layer of rectangles rendered with Unicode box-drawing
//! characters, where touching edges are joined into corners, tees and
//! crosses.

use vstd::prelude::*;
use crate::text::{cursor_to, dec_chars, is_ascii_seq, lemma_dec_ascii, push_char, push_cursor_to};

verus! {

/// One rectangle of the layer: its top-left corner and its size, in
/// terminal cells.
#[derive(Clone, Copy, Debug)]
pub struct GraphicBox {
    pub x: u16,
    pub y: u16,
    pub w: u16,
    pub h: u16,
}

/// A layer of rectangles, drawn in the order they were added.
pub struct Graphics {
    box_layer: Vec<GraphicBox>,
}

impl View for Graphics {
    type V = Seq<GraphicBox>;

    closed spec fn view(&self) -> Seq<GraphicBox> {
        self.box_layer@
    }
}

// ---------------------------------------------------------------------------
// The bounding box of a layer.

pub open spec fn min_int(a: int, b: int) -> int {
    if a <= b { a } else { b }
}

pub open spec fn max_int(a: int, b: int) -> int {
    if a >= b { a } else { b }
}

/// Smallest `y` among the first `k` boxes (`k >= 1`).
pub open spec fn top_upto(bs: Seq<GraphicBox>, k: int) -> int
    decreases k,
{
    if k <= 1 { bs[0].y as int } else { min_int(top_upto(bs, k - 1), bs[k - 1].y as int) }
}

/// Smallest `x` among the first `k` boxes (`k >= 1`).
pub open spec fn left_upto(bs: Seq<GraphicBox>, k: int) -> int
    decreases k,
{
    if k <= 1 { bs[0].x as int } else { min_int(left_upto(bs, k - 1), bs[k - 1].x as int) }
}

/// Largest `y + h` among the first `k` boxes (`k >= 1`).
pub open spec fn bottom_upto(bs: Seq<GraphicBox>, k: int) -> int
    decreases k,
{
    if k <= 1 {
        bs[0].y + bs[0].h
    } else {
        max_int(bottom_upto(bs, k - 1), bs[k - 1].y + bs[k - 1].h)
    }
}

/// Largest `x + w` among the first `k` boxes (`k >= 1`).
pub open spec fn right_upto(bs: Seq<GraphicBox>, k: int) -> int
    decreases k,
{
    if k <= 1 {
        bs[0].x + bs[0].w
    } else {
        max_int(right_upto(bs, k - 1), bs[k - 1].x + bs[k - 1].w)
    }
}

/// Row of the top edge of the drawing.
pub open spec fn layer_top(bs: Seq<GraphicBox>) -> int {
    top_upto(bs, bs.len() as int)
}

/// Column of the left edge of the drawing.
pub open spec fn layer_left(bs: Seq<GraphicBox>) -> int {
    left_upto(bs, bs.len() as int)
}

/// One past the last row of the drawing.
pub open spec fn layer_bottom(bs: Seq<GraphicBox>) -> int {
    bottom_upto(bs, bs.len() as int)
}

/// One past the last column of the drawing.
pub open spec fn layer_right(bs: Seq<GraphicBox>) -> int {
    right_upto(bs, bs.len() as int)
}

/// Number of rows of the drawing.
pub open spec fn layer_height(bs: Seq<GraphicBox>) -> int {
    layer_bottom(bs) - layer_top(bs)
}

/// Number of columns of the drawing.
pub open spec fn layer_width(bs: Seq<GraphicBox>) -> int {
    layer_right(bs) - layer_left(bs)
}

/// The layers that `generate` draws without failing: at least one box, no
/// coordinate sum beyond `u16`, every box with an inside row at least two
/// columns wide, and an empty box at row 0 only where the drawing spans at
/// most one row.
pub open spec fn drawable(bs: Seq<GraphicBox>) -> bool {
    &&& bs.len() > 0
    &&& forall|k: int|
        #![trigger bs[k]]
        0 <= k < bs.len() ==> {
            &&& bs[k].x + bs[k].w <= u16::MAX
            &&& bs[k].y + bs[k].h <= u16::MAX
            &&& bs[k].h >= 3 ==> bs[k].w >= 2
            &&& (bs[k].y == 0 && bs[k].h == 0) ==> layer_bottom(bs) <= 1
        }
}

// ---------------------------------------------------------------------------
// Cell codes. A drawn cell is the last byte of the UTF-8 encoding of a
// box-drawing character; 32 is an empty cell.

pub open spec fn horizontal(d: bool) -> u8 {
    if d { 144 } else { 128 }
}

pub open spec fn vertical(d: bool) -> u8 {
    if d { 145 } else { 130 }
}

pub open spec fn pick(d: bool, double: u8, single: u8) -> u8 {
    if d { double } else { single }
}

/// The effect of drawing box `b` on the cell at absolute `(row, col)` that
/// holds `cur`: its top and bottom rows become horizontal lines, the two
/// side columns of its inside rows vertical lines; a vertical line already
/// there is kept.
pub open spec fn paint_step(b: GraphicBox, row: int, col: int, d: bool, cur: u8) -> u8 {
    if row == b.y || row == b.y + b.h - 1 {
        if b.x <= col < b.x + b.w && cur != 145 && cur != 130 {
            horizontal(d)
        } else {
            cur
        }
    } else if b.y < row < b.y + b.h - 1 {
        if (col == b.x || col == b.x + b.w - 1) && cur != 145 && cur != 130 {
            vertical(d)
        } else {
            cur
        }
    } else {
        cur
    }
}

/// The cell at absolute `(row, col)` after drawing the first `k` boxes.
pub open spec fn paint_upto(bs: Seq<GraphicBox>, k: int, row: int, col: int, d: bool) -> u8
    decreases k,
{
    if k <= 0 {
        32
    } else {
        paint_step(bs[k - 1], row, col, d, paint_upto(bs, k - 1, row, col, d))
    }
}

/// The plain cell at `(i, j)` of the drawing: all boxes drawn as lines.
pub open spec fn plain_cell(bs: Seq<GraphicBox>, d: bool, i: int, j: int) -> u8 {
    paint_upto(bs, bs.len() as int, layer_top(bs) + i, layer_left(bs) + j, d)
}

/// Whether the plain cell at `(i, j)` is drawn (inside the drawing and not
/// empty).
pub open spec fn drawn(bs: Seq<GraphicBox>, d: bool, i: int, j: int) -> bool {
    0 <= i < layer_height(bs) && 0 <= j < layer_width(bs) && plain_cell(bs, d, i, j) != 32
}

/// Where the line cell `c` at `(i, j)` meets lines above and below: a
/// vertical line between two drawn cells.
pub open spec fn join_through(c: u8, d: bool, i: int, hgt: int, up: bool, down: bool) -> u8 {
    if 0 < i < hgt - 1 && up && down { vertical(d) } else { c }
}

/// A horizontal line with a line below turns down.
pub open spec fn join_down(c: u8, d: bool, i: int, hgt: int, down: bool) -> u8 {
    if i < hgt - 1 && down && (c == 144 || c == 128) { pick(d, 166, 172) } else { c }
}

/// A line with a line above turns up, or becomes a vertical meeting.
pub open spec fn join_up(c: u8, d: bool, i: int, up: bool) -> u8 {
    if i > 0 && up {
        if c == 144 || c == 128 {
            pick(d, 169, 180)
        } else if c == 166 || (c == 172 && !d) {
            pick(d, 172, 188)
        } else {
            c
        }
    } else {
        c
    }
}

/// Joins with the cell on the right.
pub open spec fn join_right(c: u8, d: bool, j: int, wid: int, right: bool) -> u8 {
    if j < wid - 1 {
        if right {
            if c == 145 || c == 130 { pick(d, 160, 156) } else { c }
        } else {
            if c == 166 || (c == 172 && !d) {
                pick(d, 151, 144)
            } else if c == 169 || c == 180 {
                pick(d, 157, 152)
            } else {
                c
            }
        }
    } else {
        c
    }
}

/// Joins with the cell on the left.
pub open spec fn join_left(c: u8, d: bool, j: int, left: bool) -> u8 {
    if j > 0 {
        if left {
            if c == 145 || c == 130 {
                pick(d, 163, 164)
            } else if c == 160 || c == 156 {
                pick(d, 172, 188)
            } else {
                c
            }
        } else {
            if c == 166 || (c == 172 && !d) {
                pick(d, 148, 140)
            } else if c == 169 || c == 180 {
                pick(d, 154, 148)
            } else {
                c
            }
        }
    } else {
        c
    }
}

/// Corners on the first and the last column of the drawing, both decided
/// by the cell as it was before this step; on a drawing one column wide the
/// last column wins.
pub open spec fn join_border(
    c: u8,
    d: bool,
    i: int,
    j: int,
    hgt: int,
    wid: int,
    up: bool,
    down: bool,
) -> u8 {
    let top_open = (i > 0 && !up) || i == 0;
    let bottom_open = (i < hgt - 1 && !down) || i == hgt - 1;
    let first = if j == 0 {
        if top_open && (c == 166 || c == 172) {
            pick(d, 148, 140)
        } else if bottom_open && (c == 169 || c == 180) {
            pick(d, 154, 148)
        } else {
            c
        }
    } else {
        c
    };
    if j == wid - 1 {
        if top_open && (c == 166 || c == 172) {
            pick(d, 151, 144)
        } else if bottom_open && (c == 169 || c == 180) {
            pick(d, 157, 152)
        } else {
            first
        }
    } else {
        first
    }
}

/// The final cell at `(i, j)`: a drawn cell joined with its neighbours in
/// the order up/down, down, up, right, left, border.
pub open spec fn final_cell(bs: Seq<GraphicBox>, d: bool, i: int, j: int) -> u8 {
    let c0 = plain_cell(bs, d, i, j);
    if c0 == 32 {
        32
    } else {
        join_all(
            c0,
            d,
            i,
            j,
            layer_height(bs),
            layer_width(bs),
            drawn(bs, d, i - 1, j),
            drawn(bs, d, i + 1, j),
            drawn(bs, d, i, j - 1),
            drawn(bs, d, i, j + 1),
        )
    }
}

/// All the joining steps, on a drawn cell `c0` at `(i, j)` of a drawing
/// `hgt` by `wid` whose neighbours above, below, left and right are drawn or
/// not as the flags say.
pub open spec fn join_all(
    c0: u8,
    d: bool,
    i: int,
    j: int,
    hgt: int,
    wid: int,
    up: bool,
    down: bool,
    left: bool,
    right: bool,
) -> u8 {
    let c1 = join_through(c0, d, i, hgt, up, down);
    let c2 = join_down(c1, d, i, hgt, down);
    let c3 = join_up(c2, d, i, up);
    let c4 = join_right(c3, d, j, wid, right);
    let c5 = join_left(c4, d, j, left);
    join_border(c5, d, i, j, hgt, wid, up, down)
}

/// The double-line code of a single-line code: the same shape in double
/// lines.
pub open spec fn to_double(c: u8) -> u8 {
    if c == 128 {
        144
    } else if c == 130 {
        145
    } else if c == 140 {
        148
    } else if c == 144 {
        151
    } else if c == 148 {
        154
    } else if c == 152 {
        157
    } else if c == 156 {
        160
    } else if c == 164 {
        163
    } else if c == 172 {
        166
    } else if c == 180 {
        169
    } else if c == 188 {
        172
    } else {
        c
    }
}

/// The single-line codes: `─ │ ┌ ┐ └ ┘ ├ ┤ ┬ ┴ ┼`.
pub open spec fn single_code(c: u8) -> bool {
    c == 128 || c == 130 || c == 140 || c == 144 || c == 148 || c == 152 || c == 156 || c == 164
        || c == 172 || c == 180 || c == 188
}

/// The single-line code of the line with arms towards the neighbours
/// flagged: `─` for left and right, `┌` for right and down, and so on; 32
/// for fewer than two arms or a lone arm pair that no code has.
pub open spec fn arms_code(up: bool, down: bool, left: bool, right: bool) -> u8 {
    if up && down && left && right {
        188
    } else if up && down && right {
        156
    } else if up && down && left {
        164
    } else if left && right && down {
        172
    } else if left && right && up {
        180
    } else if up && down {
        130
    } else if left && right {
        128
    } else if right && down {
        140
    } else if left && down {
        144
    } else if right && up {
        148
    } else if left && up {
        152
    } else {
        32
    }
}

/// The joining steps treat both line styles alike: on flags that fit the
/// cell's place, double lines give the double form of what single lines
/// give, and single lines give a single-line code.
pub proof fn lemma_join_styles(
    c0: u8,
    i: int,
    j: int,
    hgt: int,
    wid: int,
    up: bool,
    down: bool,
    left: bool,
    right: bool,
)
    requires
        c0 == 128 || c0 == 130,
        0 <= i < hgt,
        0 <= j < wid,
        up ==> i > 0,
        down ==> i < hgt - 1,
        left ==> j > 0,
        right ==> j < wid - 1,
    ensures
        join_all(to_double(c0), true, i, j, hgt, wid, up, down, left, right) == to_double(
            join_all(c0, false, i, j, hgt, wid, up, down, left, right),
        ),
        single_code(join_all(c0, false, i, j, hgt, wid, up, down, left, right)),
{
}

/// Where a vertical line has lines above and below, and a horizontal line
/// has a line beside it and, at an end, a line above or below, the joining
/// steps draw the line whose arms point at exactly the drawn neighbours.
pub proof fn lemma_join_arms(
    c0: u8,
    i: int,
    j: int,
    hgt: int,
    wid: int,
    up: bool,
    down: bool,
    left: bool,
    right: bool,
)
    requires
        c0 == 128 || c0 == 130,
        0 <= i < hgt,
        0 <= j < wid,
        up ==> i > 0,
        down ==> i < hgt - 1,
        left ==> j > 0,
        right ==> j < wid - 1,
        c0 == 130 ==> up && down,
        c0 == 128 ==> (left || right) && (left && right || up || down),
    ensures
        join_all(c0, false, i, j, hgt, wid, up, down, left, right) == arms_code(
            up,
            down,
            left,
            right,
        ),
{
}

/// The character printed for cell code `c`: a space for an empty cell, else
/// the box-drawing character whose UTF-8 encoding is `[226, 148, c]` (single
/// lines) or `[226, 149, c]` (double lines).
pub open spec fn glyph(c: u8, d: bool) -> char {
    if c == 32 {
        ' '
    } else {
        (0x2500 + (if d { 64int } else { 0int }) + (c - 128)) as char
    }
}

/// The first `n` cells of row `i`, as characters.
pub open spec fn row_cells(bs: Seq<GraphicBox>, d: bool, i: int, n: int) -> Seq<char>
    decreases n,
{
    if n <= 0 {
        seq![]
    } else {
        row_cells(bs, d, i, n - 1).push(glyph(final_cell(bs, d, i, n - 1), d))
    }
}

/// Row `i` of the output: a cursor move to its start, then its cells.
pub open spec fn row_text(bs: Seq<GraphicBox>, d: bool, i: int) -> Seq<char> {
    cursor_to(layer_top(bs) + i, layer_left(bs)) + row_cells(bs, d, i, layer_width(bs))
}

/// The first `n` rows of the output.
pub open spec fn drawing_upto(bs: Seq<GraphicBox>, d: bool, n: int) -> Seq<char>
    decreases n,
{
    if n <= 0 {
        seq![]
    } else {
        drawing_upto(bs, d, n - 1) + row_text(bs, d, n - 1)
    }
}

/// The whole output of `generate`.
pub open spec fn drawing(bs: Seq<GraphicBox>, d: bool) -> Seq<char> {
    drawing_upto(bs, d, layer_height(bs))
}

/// Whether `c` is a cell code: empty, or the last byte of a box-drawing
/// character.
pub open spec fn cell_code(c: u8) -> bool {
    c == 32 || 128 <= c < 192
}

/// Box `b` draws a horizontal line at `(row, col)`: its top or bottom row,
/// within its columns.
pub open spec fn edge_claim(b: GraphicBox, row: int, col: int) -> bool {
    (row == b.y || row == b.y + b.h - 1) && b.x <= col < b.x + b.w
}

/// Box `b` draws a vertical line at `(row, col)`: one of its side columns
/// on a row strictly between its top and bottom rows.
pub open spec fn side_claim(b: GraphicBox, row: int, col: int) -> bool {
    b.y < row < b.y + b.h - 1 && (col == b.x || col == b.x + b.w - 1)
}

/// One of the first `k` boxes draws a vertical line at `(row, col)`.
pub open spec fn any_side(bs: Seq<GraphicBox>, k: int, row: int, col: int) -> bool
    decreases k,
{
    k > 0 && (any_side(bs, k - 1, row, col) || side_claim(bs[k - 1], row, col))
}

/// One of the first `k` boxes draws a horizontal line at `(row, col)`.
pub open spec fn any_edge(bs: Seq<GraphicBox>, k: int, row: int, col: int) -> bool
    decreases k,
{
    k > 0 && (any_edge(bs, k - 1, row, col) || edge_claim(bs[k - 1], row, col))
}

/// A plain cell is a vertical line where some box draws one there, else a
/// horizontal line where some box draws one there, else empty: whatever the
/// order of the boxes.
pub proof fn lemma_paint_claims(bs: Seq<GraphicBox>, k: int, row: int, col: int, d: bool)
    ensures
        paint_upto(bs, k, row, col, d) == (if any_side(bs, k, row, col) {
            vertical(d)
        } else if any_edge(bs, k, row, col) {
            horizontal(d)
        } else {
            32u8
        }),
    decreases k,
{
    if k > 0 {
        lemma_paint_claims(bs, k - 1, row, col, d);
    }
}

/// `any_side` and `any_edge` say that some box among the first `k` does.
pub proof fn lemma_any_claim(bs: Seq<GraphicBox>, k: int, row: int, col: int)
    requires
        0 <= k <= bs.len(),
    ensures
        any_side(bs, k, row, col) <==> exists|m: int| 0 <= m < k && side_claim(bs[m], row, col),
        any_edge(bs, k, row, col) <==> exists|m: int| 0 <= m < k && edge_claim(bs[m], row, col),
    decreases k,
{
    if k > 0 {
        lemma_any_claim(bs, k - 1, row, col);
        if exists|m: int| 0 <= m < k && side_claim(bs[m], row, col) {
            let m = choose|m: int| 0 <= m < k && side_claim(bs[m], row, col);
            if m < k - 1 {
                assert(exists|m2: int| 0 <= m2 < k - 1 && side_claim(bs[m2], row, col));
            }
        }
        if exists|m: int| 0 <= m < k && edge_claim(bs[m], row, col) {
            let m = choose|m: int| 0 <= m < k && edge_claim(bs[m], row, col);
            if m < k - 1 {
                assert(exists|m2: int| 0 <= m2 < k - 1 && edge_claim(bs[m2], row, col));
            }
        }
    }
}

/// The bounding box holds every box: its top and left are the smallest
/// coordinates of some box, its bottom and right the largest ends.
pub proof fn lemma_bounds(bs: Seq<GraphicBox>, k: int)
    requires
        1 <= k <= bs.len(),
    ensures
        forall|m: int|
            0 <= m < k ==> top_upto(bs, k) <= #[trigger] bs[m].y && left_upto(bs, k) <= bs[m].x
                && bs[m].y + bs[m].h <= bottom_upto(bs, k) && bs[m].x + bs[m].w <= right_upto(bs, k),
        exists|m: int| 0 <= m < k && top_upto(bs, k) == bs[m].y,
        exists|m: int| 0 <= m < k && left_upto(bs, k) == bs[m].x,
        exists|m: int| 0 <= m < k && bottom_upto(bs, k) == bs[m].y + bs[m].h,
        exists|m: int| 0 <= m < k && right_upto(bs, k) == bs[m].x + bs[m].w,
    decreases k,
{
    if k > 1 {
        lemma_bounds(bs, k - 1);
        let last = k - 1;
        let m1 = choose|m: int| 0 <= m < k - 1 && top_upto(bs, k - 1) == bs[m].y;
        let m2 = choose|m: int| 0 <= m < k - 1 && left_upto(bs, k - 1) == bs[m].x;
        let m3 = choose|m: int| 0 <= m < k - 1 && bottom_upto(bs, k - 1) == bs[m].y + bs[m].h;
        let m4 = choose|m: int| 0 <= m < k - 1 && right_upto(bs, k - 1) == bs[m].x + bs[m].w;
        assert(top_upto(bs, k) == bs[m1].y || top_upto(bs, k) == bs[last].y);
        assert(left_upto(bs, k) == bs[m2].x || left_upto(bs, k) == bs[last].x);
        assert(bottom_upto(bs, k) == bs[m3].y + bs[m3].h || bottom_upto(bs, k) == bs[last].y
            + bs[last].h);
        assert(right_upto(bs, k) == bs[m4].x + bs[m4].w || right_upto(bs, k) == bs[last].x
            + bs[last].w);
    } else {
        assert(top_upto(bs, k) == bs[0].y);
    }
}

/// The double-line form of a character: each single-line box character
/// `─ │ ┌ ┐ └ ┘ ├ ┤ ┬ ┴ ┼` becomes `═ ║ ╔ ╗ ╚ ╝ ╠ ╣ ╦ ╩ ╬`; any other
/// character stays.
pub open spec fn double_of(ch: char) -> char {
    let u = ch as u32;
    if 0x2500 <= u < 0x2540 && single_code((u - 0x2500 + 128) as u8) {
        glyph(to_double((u - 0x2500 + 128) as u8), true)
    } else {
        ch
    }
}

/// A single-line cell printed in double lines is the double form of its
/// single-line character.
pub proof fn lemma_glyph_double(c: u8)
    requires
        c == 32 || single_code(c),
    ensures
        glyph(to_double(c), true) == double_of(glyph(c, false)),
{
    if c != 32 {
        let v: u32 = (0x2500 + (c - 128)) as u32;
        vstd::utf8::char_is_scalar(glyph(c, false));
        assert(glyph(c, false) as u32 == v);
        assert(((v - 0x2500 + 128) as u8) == c);
    }
}

/// The plain cells of both styles match: the double-line cell is the
/// double form of the single-line one.
proof fn lemma_plain_styles(bs: Seq<GraphicBox>, i: int, j: int)
    ensures
        plain_cell(bs, true, i, j) == to_double(plain_cell(bs, false, i, j)),
        plain_cell(bs, false, i, j) == 32 || plain_cell(bs, false, i, j) == 128 || plain_cell(
            bs,
            false,
            i,
            j,
        ) == 130,
{
    let r = layer_top(bs) + i;
    let c = layer_left(bs) + j;
    lemma_paint_claims(bs, bs.len() as int, r, c, true);
    lemma_paint_claims(bs, bs.len() as int, r, c, false);
}

/// Cell by cell, a drawing in double lines is the double form of the same
/// drawing in single lines.
pub proof fn law_double_cells(bs: Seq<GraphicBox>, i: int, j: int)
    requires
        0 <= i < layer_height(bs),
        0 <= j < layer_width(bs),
    ensures
        final_cell(bs, true, i, j) == to_double(final_cell(bs, false, i, j)),
        final_cell(bs, false, i, j) == 32 || single_code(final_cell(bs, false, i, j)),
{
    lemma_plain_styles(bs, i, j);
    lemma_plain_styles(bs, i - 1, j);
    lemma_plain_styles(bs, i + 1, j);
    lemma_plain_styles(bs, i, j - 1);
    lemma_plain_styles(bs, i, j + 1);
    let c0 = plain_cell(bs, false, i, j);
    if c0 != 32 {
        lemma_join_styles(
            c0,
            i,
            j,
            layer_height(bs),
            layer_width(bs),
            drawn(bs, false, i - 1, j),
            drawn(bs, false, i + 1, j),
            drawn(bs, false, i, j - 1),
            drawn(bs, false, i, j + 1),
        );
    }
}

/// Cursor moves have no box characters.
proof fn lemma_cursor_fixed(row: int, col: int)
    requires
        row >= 0,
        col >= 0,
    ensures
        cursor_to(row, col).map_values(|ch: char| double_of(ch)) == cursor_to(row, col),
{
    lemma_dec_ascii(row as nat);
    lemma_dec_ascii(col as nat);
    let s = cursor_to(row, col);
    let a = dec_chars(row as nat);
    let b = dec_chars(col as nat);
    assert forall|k: int| 0 <= k < s.len() implies (s[k] as u32) < 0x2500 by {
        if 2 <= k < 2 + a.len() {
            assert(s[k] == a[k - 2]);
        } else if 3 + a.len() <= k < 3 + a.len() + b.len() {
            assert(s[k] == b[k - 3 - a.len()]);
        }
    }
    assert(s.map_values(|ch: char| double_of(ch)) =~= s);
}

proof fn lemma_row_double(bs: Seq<GraphicBox>, i: int, n: int)
    requires
        0 <= i < layer_height(bs),
        0 <= n <= layer_width(bs),
    ensures
        row_cells(bs, true, i, n) == row_cells(bs, false, i, n).map_values(|ch: char| double_of(ch)),
    decreases n,
{
    if n > 0 {
        lemma_row_double(bs, i, n - 1);
        law_double_cells(bs, i, n - 1);
        lemma_glyph_double(final_cell(bs, false, i, n - 1));
        assert(row_cells(bs, true, i, n) =~= row_cells(bs, false, i, n).map_values(
            |ch: char| double_of(ch),
        ));
    } else {
        assert(row_cells(bs, true, i, n) =~= row_cells(bs, false, i, n).map_values(
            |ch: char| double_of(ch),
        ));
    }
}

proof fn lemma_drawing_double(bs: Seq<GraphicBox>, n: int)
    requires
        drawable(bs),
        0 <= n <= layer_height(bs),
    ensures
        drawing_upto(bs, true, n) == drawing_upto(bs, false, n).map_values(
            |ch: char| double_of(ch),
        ),
    decreases n,
{
    if n > 0 {
        lemma_drawing_double(bs, n - 1);
        lemma_bounds(bs, bs.len() as int);
        assert(bs[0].y >= layer_top(bs));
        lemma_cursor_fixed(layer_top(bs) + n - 1, layer_left(bs));
        lemma_row_double(bs, n - 1, layer_width(bs));
        assert(drawing_upto(bs, true, n) =~= drawing_upto(bs, false, n).map_values(
            |ch: char| double_of(ch),
        ));
    } else {
        assert(drawing_upto(bs, true, n) =~= drawing_upto(bs, false, n).map_values(
            |ch: char| double_of(ch),
        ));
    }
}

/// The double-line drawing is the single-line drawing with each box
/// character replaced by its double-line form: same cursor moves, same
/// spaces, same shapes.
pub proof fn law_double_lines(bs: Seq<GraphicBox>)
    requires
        drawable(bs),
    ensures
        drawing(bs, true) == drawing(bs, false).map_values(|ch: char| double_of(ch)),
{
    lemma_bounds(bs, bs.len() as int);
    assert(bs[0].y + bs[0].h <= layer_bottom(bs));
    lemma_drawing_double(bs, layer_height(bs));
}

/// Every box of `bs1` is also a box of `bs2`.
pub open spec fn boxes_within(bs1: Seq<GraphicBox>, bs2: Seq<GraphicBox>) -> bool {
    forall|b: GraphicBox| #[trigger] bs1.contains(b) ==> bs2.contains(b)
}

/// A layer whose boxes all occur in another has a bounding box inside the
/// other's.
proof fn lemma_bounds_within(bs1: Seq<GraphicBox>, bs2: Seq<GraphicBox>)
    requires
        bs1.len() > 0,
        bs2.len() > 0,
        boxes_within(bs1, bs2),
    ensures
        layer_top(bs2) <= layer_top(bs1),
        layer_left(bs2) <= layer_left(bs1),
        layer_bottom(bs1) <= layer_bottom(bs2),
        layer_right(bs1) <= layer_right(bs2),
{
    let n1 = bs1.len() as int;
    let n2 = bs2.len() as int;
    lemma_bounds(bs1, n1);
    lemma_bounds(bs2, n2);
    let m = choose|m: int| 0 <= m < n1 && top_upto(bs1, n1) == bs1[m].y;
    assert(bs1.contains(bs1[m]));
    let k = choose|k: int| 0 <= k < n2 && bs2[k] == bs1[m];
    assert(top_upto(bs2, n2) <= bs2[k].y);
    let m = choose|m: int| 0 <= m < n1 && left_upto(bs1, n1) == bs1[m].x;
    assert(bs1.contains(bs1[m]));
    let k = choose|k: int| 0 <= k < n2 && bs2[k] == bs1[m];
    assert(top_upto(bs2, n2) <= bs2[k].y && left_upto(bs2, n2) <= bs2[k].x);
    let m = choose|m: int| 0 <= m < n1 && bottom_upto(bs1, n1) == bs1[m].y + bs1[m].h;
    assert(bs1.contains(bs1[m]));
    let k = choose|k: int| 0 <= k < n2 && bs2[k] == bs1[m];
    assert(top_upto(bs2, n2) <= bs2[k].y && bs2[k].y + bs2[k].h <= bottom_upto(bs2, n2));
    let m = choose|m: int| 0 <= m < n1 && right_upto(bs1, n1) == bs1[m].x + bs1[m].w;
    assert(bs1.contains(bs1[m]));
    let k = choose|k: int| 0 <= k < n2 && bs2[k] == bs1[m];
    assert(top_upto(bs2, n2) <= bs2[k].y && bs2[k].x + bs2[k].w <= right_upto(bs2, n2));
}

/// What a box of `bs1` draws at a cell, a box of `bs2` draws there too.
proof fn lemma_claims_within(bs1: Seq<GraphicBox>, bs2: Seq<GraphicBox>, row: int, col: int)
    requires
        boxes_within(bs1, bs2),
    ensures
        any_side(bs1, bs1.len() as int, row, col) ==> any_side(bs2, bs2.len() as int, row, col),
        any_edge(bs1, bs1.len() as int, row, col) ==> any_edge(bs2, bs2.len() as int, row, col),
{
    let n1 = bs1.len() as int;
    let n2 = bs2.len() as int;
    lemma_any_claim(bs1, n1, row, col);
    lemma_any_claim(bs2, n2, row, col);
    if any_side(bs1, n1, row, col) {
        let m = choose|m: int| 0 <= m < n1 && side_claim(bs1[m], row, col);
        assert(bs1.contains(bs1[m]));
        let k = choose|k: int| 0 <= k < n2 && bs2[k] == bs1[m];
        assert(side_claim(bs2[k], row, col));
    }
    if any_edge(bs1, n1, row, col) {
        let m = choose|m: int| 0 <= m < n1 && edge_claim(bs1[m], row, col);
        assert(bs1.contains(bs1[m]));
        let k = choose|k: int| 0 <= k < n2 && bs2[k] == bs1[m];
        assert(edge_claim(bs2[k], row, col));
    }
}

/// Two layers with the same boxes have the same bounding box.
proof fn lemma_same_bounds(bs1: Seq<GraphicBox>, bs2: Seq<GraphicBox>)
    requires
        bs1.len() > 0,
        boxes_within(bs1, bs2),
        boxes_within(bs2, bs1),
    ensures
        bs2.len() > 0,
        layer_top(bs1) == layer_top(bs2),
        layer_left(bs1) == layer_left(bs2),
        layer_bottom(bs1) == layer_bottom(bs2),
        layer_right(bs1) == layer_right(bs2),
{
    assert(bs1.contains(bs1[0]));
    lemma_bounds_within(bs1, bs2);
    lemma_bounds_within(bs2, bs1);
}

/// Two layers with the same boxes have the same plain cells.
proof fn lemma_same_plain(bs1: Seq<GraphicBox>, bs2: Seq<GraphicBox>, d: bool, i: int, j: int)
    requires
        bs1.len() > 0,
        boxes_within(bs1, bs2),
        boxes_within(bs2, bs1),
    ensures
        plain_cell(bs1, d, i, j) == plain_cell(bs2, d, i, j),
        drawn(bs1, d, i, j) == drawn(bs2, d, i, j),
{
    lemma_same_bounds(bs1, bs2);
    let row = layer_top(bs1) + i;
    let col = layer_left(bs1) + j;
    lemma_claims_within(bs1, bs2, row, col);
    lemma_claims_within(bs2, bs1, row, col);
    lemma_paint_claims(bs1, bs1.len() as int, row, col, d);
    lemma_paint_claims(bs2, bs2.len() as int, row, col, d);
}

/// Two layers with the same boxes have the same final cells.
proof fn lemma_same_final(bs1: Seq<GraphicBox>, bs2: Seq<GraphicBox>, d: bool, i: int, j: int)
    requires
        bs1.len() > 0,
        boxes_within(bs1, bs2),
        boxes_within(bs2, bs1),
    ensures
        final_cell(bs1, d, i, j) == final_cell(bs2, d, i, j),
{
    lemma_same_bounds(bs1, bs2);
    lemma_same_plain(bs1, bs2, d, i, j);
    lemma_same_plain(bs1, bs2, d, i - 1, j);
    lemma_same_plain(bs1, bs2, d, i + 1, j);
    lemma_same_plain(bs1, bs2, d, i, j - 1);
    lemma_same_plain(bs1, bs2, d, i, j + 1);
}

proof fn lemma_same_rows(bs1: Seq<GraphicBox>, bs2: Seq<GraphicBox>, d: bool, i: int, n: int)
    requires
        bs1.len() > 0,
        boxes_within(bs1, bs2),
        boxes_within(bs2, bs1),
    ensures
        row_cells(bs1, d, i, n) == row_cells(bs2, d, i, n),
    decreases n,
{
    if n > 0 {
        lemma_same_rows(bs1, bs2, d, i, n - 1);
        lemma_same_final(bs1, bs2, d, i, n - 1);
    }
}

proof fn lemma_same_drawing(bs1: Seq<GraphicBox>, bs2: Seq<GraphicBox>, d: bool, n: int)
    requires
        bs1.len() > 0,
        boxes_within(bs1, bs2),
        boxes_within(bs2, bs1),
    ensures
        drawing_upto(bs1, d, n) == drawing_upto(bs2, d, n),
    decreases n,
{
    if n > 0 {
        lemma_same_drawing(bs1, bs2, d, n - 1);
        lemma_same_bounds(bs1, bs2);
        lemma_same_rows(bs1, bs2, d, n - 1, layer_width(bs1));
    }
}

/// The drawing depends only on which boxes the layer holds: adding the
/// same boxes in another order, or a box once more, draws the same picture.
pub proof fn law_same_boxes(bs1: Seq<GraphicBox>, bs2: Seq<GraphicBox>, d: bool)
    requires
        bs1.len() > 0,
        forall|b: GraphicBox| bs1.contains(b) <==> bs2.contains(b),
    ensures
        drawing(bs1, d) == drawing(bs2, d),
{
    assert(boxes_within(bs1, bs2));
    assert(boxes_within(bs2, bs1));
    lemma_same_bounds(bs1, bs2);
    lemma_same_drawing(bs1, bs2, d, layer_height(bs1));
}

/// The drawing does not depend on the order in which the boxes were added.
pub proof fn law_order_free(bs1: Seq<GraphicBox>, bs2: Seq<GraphicBox>, d: bool)
    requires
        bs1.len() > 0,
        bs1.to_multiset() == bs2.to_multiset(),
    ensures
        drawing(bs1, d) == drawing(bs2, d),
{
    broadcast use vstd::seq_lib::group_to_multiset_ensures;

    assert forall|b: GraphicBox| bs1.contains(b) <==> bs2.contains(b) by {
        assert(bs1.contains(b) <==> bs1.to_multiset().count(b) > 0);
        assert(bs2.contains(b) <==> bs2.to_multiset().count(b) > 0);
    }
    law_same_boxes(bs1, bs2, d);
}

/// A cell where some box at least one cell each way draws a line is drawn.
proof fn lemma_claimed_drawn(bs: Seq<GraphicBox>, k: int, i: int, j: int)
    requires
        0 <= k < bs.len(),
        bs[k].w >= 1,
        bs[k].h >= 1,
        side_claim(bs[k], layer_top(bs) + i, layer_left(bs) + j) || edge_claim(
            bs[k],
            layer_top(bs) + i,
            layer_left(bs) + j,
        ),
    ensures
        drawn(bs, false, i, j),
{
    let n = bs.len() as int;
    let r = layer_top(bs) + i;
    let c = layer_left(bs) + j;
    lemma_bounds(bs, n);
    assert(layer_top(bs) <= bs[k].y);
    lemma_any_claim(bs, n, r, c);
    if side_claim(bs[k], r, c) {
        assert(any_side(bs, n, r, c));
    } else {
        assert(any_edge(bs, n, r, c));
    }
    lemma_paint_claims(bs, n, r, c, false);
}

/// In a layer of boxes at least two cells each way, every drawn cell of
/// the single-line drawing is the line whose arms point at exactly its
/// drawn neighbours (up, down, left, right), and the double-line drawing
/// has the double form of that line there.
pub proof fn law_joined_lines(bs: Seq<GraphicBox>, i: int, j: int)
    requires
        forall|k: int| 0 <= k < bs.len() ==> #[trigger] bs[k].w >= 2 && bs[k].h >= 2,
        drawn(bs, false, i, j),
    ensures
        final_cell(bs, false, i, j) == arms_code(
            drawn(bs, false, i - 1, j),
            drawn(bs, false, i + 1, j),
            drawn(bs, false, i, j - 1),
            drawn(bs, false, i, j + 1),
        ),
        final_cell(bs, true, i, j) == to_double(
            arms_code(
                drawn(bs, false, i - 1, j),
                drawn(bs, false, i + 1, j),
                drawn(bs, false, i, j - 1),
                drawn(bs, false, i, j + 1),
            ),
        ),
{
    let n = bs.len() as int;
    let r = layer_top(bs) + i;
    let c = layer_left(bs) + j;
    let up = drawn(bs, false, i - 1, j);
    let down = drawn(bs, false, i + 1, j);
    let left = drawn(bs, false, i, j - 1);
    let right = drawn(bs, false, i, j + 1);
    lemma_paint_claims(bs, n, r, c, false);
    lemma_any_claim(bs, n, r, c);
    let c0 = plain_cell(bs, false, i, j);
    if any_side(bs, n, r, c) {
        let k = choose|k: int| 0 <= k < n && side_claim(bs[k], r, c);
        assert(bs[k].w >= 2 && bs[k].h >= 2);
        lemma_claimed_drawn(bs, k, i - 1, j);
        lemma_claimed_drawn(bs, k, i + 1, j);
        assert(c0 == 130);
    } else {
        let k = choose|k: int| 0 <= k < n && edge_claim(bs[k], r, c);
        let b = bs[k];
        assert(b.w >= 2 && b.h >= 2);
        assert(c0 == 128);
        if c > b.x {
            lemma_claimed_drawn(bs, k, i, j - 1);
        }
        if c < b.x + b.w - 1 {
            lemma_claimed_drawn(bs, k, i, j + 1);
        }
        if c == b.x || c == b.x + b.w - 1 {
            if r == b.y {
                lemma_claimed_drawn(bs, k, i + 1, j);
            } else {
                lemma_claimed_drawn(bs, k, i - 1, j);
            }
        }
    }
    lemma_join_arms(c0, i, j, layer_height(bs), layer_width(bs), up, down, left, right);
    law_double_cells(bs, i, j);
}

/// Plain cells are empty or straight lines.
proof fn lemma_paint_codes(bs: Seq<GraphicBox>, k: int, row: int, col: int, d: bool)
    ensures
        ({
            let c = paint_upto(bs, k, row, col, d);
            c == 32 || c == 128 || c == 130 || c == 144 || c == 145
        }),
    decreases k,
{
    if k > 0 {
        lemma_paint_codes(bs, k - 1, row, col, d);
    }
}

/// Every final cell is a cell code.
proof fn lemma_final_codes(bs: Seq<GraphicBox>, d: bool, i: int, j: int)
    ensures
        cell_code(final_cell(bs, d, i, j)),
{
    lemma_paint_codes(bs, bs.len() as int, layer_top(bs) + i, layer_left(bs) + j, d);
}

proof fn lemma_glyph_bits(c: u8, b: u8, v: u32)
    by (bit_vector)
    requires
        128 <= c < 192,
        b == 148 || b == 149,
        v == 0x2500 + (b - 148) * 64 + (c - 128),
    ensures
        (0xE0u8 | ((v >> 12u32) & 0x0Fu32) as u8) == 226u8,
        (0x80u8 | ((v >> 6u32) & 0x3Fu32) as u8) == b,
        (0x80u8 | (v & 0x3Fu32) as u8) == c,
{
}

/// Each drawn cell prints as the three bytes `226, 148, c` (single lines)
/// or `226, 149, c` (double lines): the box-drawing characters from U+2500
/// to U+257F.
pub proof fn law_glyph_bytes(c: u8, d: bool)
    requires
        128 <= c < 192,
    ensures
        vstd::utf8::encode_utf8(seq![glyph(c, d)]) == seq![226u8, if d { 149u8 } else { 148u8 }, c],
{
    let b: u8 = if d { 149 } else { 148 };
    let v: u32 = (0x2500 + (if d { 64int } else { 0int }) + (c - 128)) as u32;
    assert(v == 0x2500 + (b - 148) * 64 + (c - 128));
    lemma_glyph_bits(c, b, v);
    let g = glyph(c, d);
    assert(g as u32 == v);
    let one = seq![g];
    assert(one.drop_first() =~= Seq::<char>::empty());
    assert(vstd::utf8::encode_utf8(one.drop_first()) =~= Seq::<u8>::empty());
    assert(vstd::utf8::encode_utf8(one) =~= seq![226u8, b, c]);
}

/// A lone box at least two cells each way is drawn with its four corners:
/// `┌ ┐ └ ┘` in single lines, `╔ ╗ ╚ ╝` in double lines.
pub proof fn law_lone_box_corners(b: GraphicBox, d: bool)
    requires
        drawable(seq![b]),
        b.w >= 2,
        b.h >= 2,
    ensures
        layer_height(seq![b]) == b.h,
        layer_width(seq![b]) == b.w,
        final_cell(seq![b], d, 0, 0) == pick(d, 148, 140),
        final_cell(seq![b], d, 0, b.w - 1) == pick(d, 151, 144),
        final_cell(seq![b], d, b.h - 1, 0) == pick(d, 154, 148),
        final_cell(seq![b], d, b.h - 1, b.w - 1) == pick(d, 157, 152),
{
    let bs = seq![b];
    reveal_with_fuel(paint_upto, 2);
    assert(bs[0] == b);
    let hgt = b.h as int;
    let wid = b.w as int;
    assert(layer_top(bs) == b.y);
    assert(layer_left(bs) == b.x);
    // the four corners and their neighbours inside the box are lines
    assert(plain_cell(bs, d, 0, 0) == horizontal(d));
    assert(plain_cell(bs, d, 1, 0) != 32);
    assert(plain_cell(bs, d, 0, 1) != 32);
    assert(plain_cell(bs, d, 0, wid - 1) == horizontal(d));
    assert(plain_cell(bs, d, 1, wid - 1) != 32);
    assert(plain_cell(bs, d, 0, wid - 2) != 32);
    assert(plain_cell(bs, d, hgt - 1, 0) == horizontal(d));
    assert(plain_cell(bs, d, hgt - 2, 0) != 32);
    assert(plain_cell(bs, d, hgt - 1, 1) != 32);
    assert(plain_cell(bs, d, hgt - 1, wid - 1) == horizontal(d));
    assert(plain_cell(bs, d, hgt - 2, wid - 1) != 32);
    assert(plain_cell(bs, d, hgt - 1, wid - 2) != 32);
}

// ---------------------------------------------------------------------------
// Executable parts.

/// `char::from_u32`: the character with code `v`, if `v` is a Unicode
/// scalar value.
#[verifier::external_body]
fn char_from_u32(v: u32) -> (r: Option<char>)
    ensures
        (v <= 0x10FFFF && !(0xD800 <= v <= 0xDFFF)) ==> r == Some(v as char),
        !(v <= 0x10FFFF && !(0xD800 <= v <= 0xDFFF)) ==> r is None,
{
    char::from_u32(v)
}

fn paint_step_exec(b: GraphicBox, row: u16, col: u16, d: bool, cur: u8) -> (r: u8)
    ensures
        r == paint_step(b, row as int, col as int, d, cur),
{
    let row = row as u32;
    let col = col as u32;
    let y = b.y as u32;
    let h = b.y as u32 + b.h as u32;
    let x = b.x as u32;
    let xe = b.x as u32 + b.w as u32;
    let hz: u8 = if d { 144 } else { 128 };
    let vt: u8 = if d { 145 } else { 130 };
    if row == y || row + 1 == h {
        if x <= col && col < xe && cur != 145 && cur != 130 {
            hz
        } else {
            cur
        }
    } else if y < row && row + 1 < h {
        if (col == x || col + 1 == xe) && cur != 145 && cur != 130 {
            vt
        } else {
            cur
        }
    } else {
        cur
    }
}

/// The bounding box of a drawable layer: top, left, bottom, right.
fn layer_bounds(bs: &Vec<GraphicBox>) -> (r: (u16, u16, u16, u16))
    requires
        drawable(bs@),
    ensures
        r.0 == layer_top(bs@),
        r.1 == layer_left(bs@),
        r.2 == layer_bottom(bs@),
        r.3 == layer_right(bs@),
        r.0 <= r.2,
        r.1 <= r.3,
{
    let b0 = bs[0];
    assert(bs@[0] == b0);
    let mut top = b0.y;
    let mut left = b0.x;
    let mut bottom = b0.y + b0.h;
    let mut right = b0.x + b0.w;
    let mut k: usize = 1;
    while k < bs.len()
        invariant
            1 <= k <= bs.len(),
            drawable(bs@),
            top == top_upto(bs@, k as int),
            left == left_upto(bs@, k as int),
            bottom == bottom_upto(bs@, k as int),
            right == right_upto(bs@, k as int),
            top <= bottom,
            left <= right,
        decreases bs.len() - k,
    {
        let b = bs[k];
        assert(bs@[k as int] == b);
        if b.y < top {
            top = b.y;
        }
        if b.x < left {
            left = b.x;
        }
        if b.y + b.h > bottom {
            bottom = b.y + b.h;
        }
        if b.x + b.w > right {
            right = b.x + b.w;
        }
        k = k + 1;
    }
    (top, left, bottom, right)
}

/// The cell at absolute `(row, col)` after drawing every box.
fn paint_cell(bs: &Vec<GraphicBox>, row: u16, col: u16, d: bool) -> (r: u8)
    ensures
        r == paint_upto(bs@, bs@.len() as int, row as int, col as int, d),
{
    let mut cur: u8 = 32;
    let mut k: usize = 0;
    while k < bs.len()
        invariant
            k <= bs.len(),
            cur == paint_upto(bs@, k as int, row as int, col as int, d),
        decreases bs.len() - k,
    {
        cur = paint_step_exec(bs[k], row, col, d, cur);
        k = k + 1;
    }
    cur
}

/// The grid of plain cells.
fn plain_grid(bs: &Vec<GraphicBox>, top: u16, left: u16, hgt: usize, wid: usize, d: bool) -> (g:
    Vec<Vec<u8>>)
    requires
        drawable(bs@),
        top == layer_top(bs@),
        left == layer_left(bs@),
        hgt == layer_height(bs@),
        wid == layer_width(bs@),
        top + hgt <= u16::MAX,
        left + wid <= u16::MAX,
    ensures
        g@.len() == hgt,
        forall|i: int| 0 <= i < hgt ==> (#[trigger] g@[i])@.len() == wid,
        forall|i: int, j: int|
            0 <= i < hgt && 0 <= j < wid ==> #[trigger] g@[i]@[j] == plain_cell(bs@, d, i, j),
{
    let mut g: Vec<Vec<u8>> = Vec::new();
    let mut i: usize = 0;
    while i < hgt
        invariant
            i <= hgt,
            g@.len() == i,
            top == layer_top(bs@),
            left == layer_left(bs@),
            top + hgt <= u16::MAX,
            left + wid <= u16::MAX,
            forall|a: int| 0 <= a < i ==> (#[trigger] g@[a])@.len() == wid,
            forall|a: int, b: int|
                0 <= a < i && 0 <= b < wid ==> #[trigger] g@[a]@[b] == plain_cell(bs@, d, a, b),
        decreases hgt - i,
    {
        let mut row: Vec<u8> = Vec::new();
        let mut j: usize = 0;
        while j < wid
            invariant
                i < hgt,
                j <= wid,
                row@.len() == j,
                top == layer_top(bs@),
                left == layer_left(bs@),
                top + hgt <= u16::MAX,
                left + wid <= u16::MAX,
                forall|b: int| 0 <= b < j ==> row@[b] == plain_cell(bs@, d, i as int, b),
            decreases wid - j,
        {
            let c = paint_cell(bs, top + i as u16, left + j as u16, d);
            row.push(c);
            j = j + 1;
        }
        g.push(row);
        i = i + 1;
    }
    g
}

/// Whether the plain grid has a drawn cell at `(i, j)`, for indices that
/// may fall outside it.
fn grid_drawn(g: &Vec<Vec<u8>>, i: usize, j: usize, hgt: usize, wid: usize) -> (r: bool)
    requires
        g@.len() == hgt,
        forall|a: int| 0 <= a < hgt ==> (#[trigger] g@[a])@.len() == wid,
    ensures
        r == (i < hgt && j < wid && g@[i as int]@[j as int] != 32),
{
    if i < hgt && j < wid {
        g[i][j] != 32
    } else {
        false
    }
}

/// The final cell at `(i, j)`, computed from the plain grid.
fn final_cell_exec(
    Ghost(bs): Ghost<Seq<GraphicBox>>,
    g: &Vec<Vec<u8>>,
    i: usize,
    j: usize,
    hgt: usize,
    wid: usize,
    d: bool,
) -> (r: u8)
    requires
        i < hgt,
        j < wid,
        hgt == layer_height(bs),
        wid == layer_width(bs),
        g@.len() == hgt,
        forall|a: int| 0 <= a < hgt ==> (#[trigger] g@[a])@.len() == wid,
        forall|a: int, b: int|
            0 <= a < hgt && 0 <= b < wid ==> #[trigger] g@[a]@[b] == plain_cell(bs, d, a, b),
    ensures
        r == final_cell(bs, d, i as int, j as int),
{
    let e0 = g[i][j];
    if e0 == 32 {
        return 32;
    }
    let up = i > 0 && grid_drawn(g, i - 1, j, hgt, wid);
    let down = grid_drawn(g, i + 1, j, hgt, wid);
    let left = j > 0 && grid_drawn(g, i, j - 1, hgt, wid);
    let right = grid_drawn(g, i, j + 1, hgt, wid);
    assert(up == drawn(bs, d, i - 1, j as int));
    assert(down == drawn(bs, d, i + 1, j as int));
    assert(left == drawn(bs, d, i as int, j - 1));
    assert(right == drawn(bs, d, i as int, j + 1));
    let mut c = e0;
    // a vertical line between two drawn cells
    if i > 0 && i < hgt - 1 && up && down {
        c = if d { 145 } else { 130 };
    }
    // turn down
    let e = c;
    if i < hgt - 1 && down {
        if e == 144 || e == 128 {
            c = if d { 166 } else { 172 };
        }
    }
    // turn up
    let e = c;
    if i > 0 && up {
        if e == 144 || e == 128 {
            c = if d { 169 } else { 180 };
        }
        if e == 166 || (e == 172 && !d) {
            c = if d { 172 } else { 188 };
        }
    }
    // join right
    let e = c;
    if j < wid - 1 {
        if right {
            if e == 145 || e == 130 {
                c = if d { 160 } else { 156 };
            }
        } else {
            if e == 166 || (e == 172 && !d) {
                c = if d { 151 } else { 144 };
            }
            if e == 169 || e == 180 {
                c = if d { 157 } else { 152 };
            }
        }
    }
    // join left
    let e = c;
    if j > 0 {
        if left {
            if e == 145 || e == 130 {
                c = if d { 163 } else { 164 };
            }
            if e == 160 || e == 156 {
                c = if d { 172 } else { 188 };
            }
        } else {
            if e == 166 || (e == 172 && !d) {
                c = if d { 148 } else { 140 };
            }
            if e == 169 || e == 180 {
                c = if d { 154 } else { 148 };
            }
        }
    }
    // corners on the first and the last column
    let e = c;
    let top_open = (i > 0 && !up) || i == 0;
    let bottom_open = (i < hgt - 1 && !down) || i == hgt - 1;
    if j == 0 {
        if top_open && (e == 166 || e == 172) {
            c = if d { 148 } else { 140 };
        }
        if bottom_open && (e == 169 || e == 180) {
            c = if d { 154 } else { 148 };
        }
    }
    if j == wid - 1 {
        if top_open && (e == 166 || e == 172) {
            c = if d { 151 } else { 144 };
        }
        if bottom_open && (e == 169 || e == 180) {
            c = if d { 157 } else { 152 };
        }
    }
    c
}

/// Appends the character for cell code `c`.
fn push_glyph(s: &mut String, c: u8, d: bool)
    requires
        c == 32 || 128 <= c < 192,
    ensures
        final(s)@ == old(s)@.push(glyph(c, d)),
{
    if c == 32 {
        push_char(s, ' ');
    } else {
        let code: u32 = 0x2500u32 + (if d { 64u32 } else { 0u32 }) + (c as u32 - 128);
        match char_from_u32(code) {
            Some(ch) => push_char(s, ch),
            None => {
                assert(false);
            },
        }
    }
}

impl Graphics {
    /// An empty layer.
    pub fn new() -> (g: Graphics)
        ensures
            g@ == Seq::<GraphicBox>::empty(),
    {
        let box_layer: Vec<GraphicBox> = Vec::new();
        Graphics { box_layer }
    }

    /// Renders the layer: one line per row of its bounding box, each starting
    /// with a cursor move, every cell a space or a box-drawing character, in
    /// double lines where `double_lines` holds.
    pub fn generate(&mut self, double_lines: bool) -> (out: String)
        requires
            drawable(old(self)@),
        ensures
            final(self)@ == old(self)@,
            out@ == drawing(old(self)@, double_lines),
    {
        let d = double_lines;
        let ghost bs = self.box_layer@;
        let (top, left, bottom, right) = layer_bounds(&self.box_layer);
        let hgt: usize = (bottom - top) as usize;
        let wid: usize = (right - left) as usize;
        let g = plain_grid(&self.box_layer, top, left, hgt, wid, d);
        let mut out = String::new();
        let mut i: usize = 0;
        while i < hgt
            invariant
                i <= hgt,
                bs == self.box_layer@,
                top == layer_top(bs),
                left == layer_left(bs),
                hgt == layer_height(bs),
                wid == layer_width(bs),
                top + hgt <= u16::MAX,
                g@.len() == hgt,
                forall|a: int| 0 <= a < hgt ==> (#[trigger] g@[a])@.len() == wid,
                forall|a: int, b: int|
                    0 <= a < hgt && 0 <= b < wid ==> #[trigger] g@[a]@[b] == plain_cell(bs, d, a, b),
                out@ == drawing_upto(bs, d, i as int),
            decreases hgt - i,
        {
            let ghost before = out@;
            push_cursor_to(&mut out, (top + i as u16) as u128, left as u128);
            let mut j: usize = 0;
            while j < wid
                invariant
                    i < hgt,
                    j <= wid,
                    hgt == layer_height(bs),
                    wid == layer_width(bs),
                    g@.len() == hgt,
                    forall|a: int| 0 <= a < hgt ==> (#[trigger] g@[a])@.len() == wid,
                    forall|a: int, b: int|
                        0 <= a < hgt && 0 <= b < wid ==> #[trigger] g@[a]@[b] == plain_cell(bs, d, a, b),
                    out@ == before + cursor_to(layer_top(bs) + i, layer_left(bs)) + row_cells(
                        bs,
                        d,
                        i as int,
                        j as int,
                    ),
                decreases wid - j,
            {
                let c = final_cell_exec(Ghost(bs), &g, i, j, hgt, wid, d);
                proof {
                    lemma_final_codes(bs, d, i as int, j as int);
                }
                push_glyph(&mut out, c, d);
                j = j + 1;
            }
            assert(out@ =~= drawing_upto(bs, d, i + 1));
            i = i + 1;
        }
        out
    }

    /// Adds a box on top of the layer.
    pub fn add(&mut self, x: u16, y: u16, w: u16, h: u16)
        ensures
            final(self)@ == old(self)@.push(GraphicBox { x, y, w, h }),
    {
        self.box_layer.push(GraphicBox { x, y, w, h })
    }
}

} // verus!
