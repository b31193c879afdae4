//! Motion compensation: gathering the predicted blocks of inter-coded
//! macroblocks from a reference picture.

use vstd::prelude::*;
use vstd::arithmetic::div_mod::{
    lemma_fundamental_div_mod, lemma_fundamental_div_mod_converse, lemma_mod_bound,
    lemma_div_pos_is_pos,
};
use crate::h263_types::{
    MotionVector, HalfPel, MacroblockType, DecodedPicture, halfpel_whole, chroma_component,
};
use crate::h263_reader::Error;

verus! {

/// `v` clamped to `lo ..= hi`.
pub open spec fn clamp_int(v: int, lo: int, hi: int) -> int {
    if v < lo {
        lo
    } else if v > hi {
        hi
    } else {
        v
    }
}

/// The sample at `(x, y)` of a plane of `samples_per_row` columns and
/// `height` rows, the coordinates clamped to the plane's edges.
pub open spec fn sample_at(
    pixel_array: Seq<u8>,
    samples_per_row: int,
    height: int,
    x: int,
    y: int,
) -> u8 {
    pixel_array[clamp_int(x, 0, samples_per_row - 1) + clamp_int(y, 0, height - 1)
        * samples_per_row]
}

/// Halfway between `a` and `b`, rounded up, or `a` itself.
pub open spec fn lerp_spec(a: int, b: int, middle: bool) -> int {
    if middle {
        (a + b + 1) / 2
    } else {
        a
    }
}

/// The motion-compensated sample at `(u, v)`: the sample there, or its
/// average with the next one across, down, or both, rounded.
pub open spec fn mc_sample(
    pixel_array: Seq<u8>,
    samples_per_row: int,
    height: int,
    u: int,
    v: int,
    x_interp: bool,
    y_interp: bool,
) -> u8 {
    let s00 = sample_at(pixel_array, samples_per_row, height, u, v) as int;
    let s10 = sample_at(pixel_array, samples_per_row, height, u + 1, v) as int;
    let s01 = sample_at(pixel_array, samples_per_row, height, u, v + 1) as int;
    let s11 = sample_at(pixel_array, samples_per_row, height, u + 1, v + 1) as int;
    if !x_interp && !y_interp {
        s00 as u8
    } else if x_interp && y_interp {
        ((s00 + s10 + s01 + s11 + 2) / 4) as u8
    } else {
        lerp_spec(lerp_spec(s00, s10, x_interp), lerp_spec(s01, s11, x_interp), y_interp) as u8
    }
}

/// Whether the 8x8 block at `pos` covers index `k` of a plane of
/// `samples_per_row` columns and `height` rows.
pub open spec fn block_covers(samples_per_row: int, height: int, pos: (int, int), k: int) -> bool {
    let col = k % samples_per_row;
    let row = k / samples_per_row;
    &&& pos.0 <= col < pos.0 + 8
    &&& pos.1 <= row < pos.1 + 8
    &&& row < height
}

/// The sample that motion vector `mv` brings from `pixel_array` to index
/// `k` of the target.
pub open spec fn block_value(
    pixel_array: Seq<u8>,
    samples_per_row: int,
    mv: MotionVector,
    k: int,
) -> u8 {
    let height = (pixel_array.len() as int) / samples_per_row;
    mc_sample(
        pixel_array,
        samples_per_row,
        height,
        k % samples_per_row + halfpel_whole(mv.0.0 as int),
        k / samples_per_row + halfpel_whole(mv.1.0 as int),
        mv.0.0 % 2 != 0,
        mv.1.0 % 2 != 0,
    )
}

/// Read a sample from the pixel array at a given position.
///
/// Sample coordinates in `pos` will be clipped to the bounds of the pixel
/// data. This is in accordance with H.263 (2005/01) D.1, which states that
/// motion vectors that cross picture boundaries instead clip the last row,
/// column, or individual pixel off the edge of the picture. (This is
/// equivalent to, say OpenGL `GL_CLAMP_TO_EDGE` behavior.)
///
/// Pixel array data is read as a row-major (x + y*width) array.
fn read_sample(pixel_array: &[u8], samples_per_row: usize, height: usize, pos: (isize, isize)) -> (r: u8)
    requires
        1 <= samples_per_row <= isize::MAX,
        1 <= height <= isize::MAX,
        samples_per_row * height <= pixel_array@.len(),
    ensures
        r == sample_at(pixel_array@, samples_per_row as int, height as int, pos.0 as int, pos.1 as int),
{
    let (x, y) = pos;
    let max_x = samples_per_row as isize - 1;
    let max_y = height as isize - 1;

    let x: usize = if x < 0 { 0 } else if x > max_x { max_x as usize } else { x as usize };
    let y: usize = if y < 0 { 0 } else if y > max_y { max_y as usize } else { y as usize };

    let len = pixel_array.len();
    assert(x + y * samples_per_row < samples_per_row * height) by (nonlinear_arith)
        requires
            x < samples_per_row,
            y < height,
    ;
    assert(y * samples_per_row <= x + y * samples_per_row);
    let index = x + (y * samples_per_row);

    pixel_array[index]
}

/// Linear interpolation between two values by 0 or 50%.
fn lerp(sample_a: u16, sample_b: u16, middle: bool) -> (r: u16)
    requires
        sample_a + sample_b + 1 <= u16::MAX,
    ensures
        r == lerp_spec(sample_a as int, sample_b as int, middle),
{
    if middle {
        ((sample_a + sample_b + 1) / 2) as u16
    } else {
        sample_a as u16
    }
}

/// Whether index `k` is covered by the block at `pos` and lies in a column
/// before `pos.0 + i`, or in that column and a row before `pos.1 + j`.
spec fn block_done(samples_per_row: int, height: int, pos: (int, int), i: int, j: int, k: int) -> bool {
    &&& block_covers(samples_per_row, height, pos, k)
    &&& (k % samples_per_row < pos.0 + i || (k % samples_per_row == pos.0 + i && k / samples_per_row
        < pos.1 + j))
}

/// Index `col + row * samples_per_row` has column `col` and row `row`, and
/// no other index has both.
proof fn lemma_index_coords(samples_per_row: int, col: int, row: int)
    requires
        samples_per_row > 0,
        0 <= col < samples_per_row,
        0 <= row,
    ensures
        (col + row * samples_per_row) % samples_per_row == col,
        (col + row * samples_per_row) / samples_per_row == row,
        forall|k: int|
            #![trigger k % samples_per_row, k / samples_per_row]
            k % samples_per_row == col && k / samples_per_row == row ==> k == col + row
                * samples_per_row,
{
    lemma_fundamental_div_mod_converse(
        col + row * samples_per_row,
        samples_per_row,
        row,
        col,
    );
    assert forall|k: int|
        #![trigger k % samples_per_row, k / samples_per_row]
        k % samples_per_row == col && k / samples_per_row == row implies k == col + row
            * samples_per_row by {
        lemma_fundamental_div_mod(k, samples_per_row);
        assert(samples_per_row * (k / samples_per_row) == row * samples_per_row) by (nonlinear_arith)
            requires k / samples_per_row == row;
    }
}

/// Copy pixel data from a pixel array, motion-compensate it, and fill a block
/// with the given data.
///
/// Target block and source pixel array are written to in row-major (x + y*8)
/// order.
fn gather_block(
    pixel_array: &[u8],
    samples_per_row: usize,
    pos: (usize, usize),
    mv: MotionVector,
    target: &mut [u8],
)
    requires
        0 < samples_per_row,
        pixel_array@.len() <= isize::MAX,
        pos.0 + 65536 <= isize::MAX,
        pos.1 + 65536 <= isize::MAX,
        samples_per_row * ((pixel_array@.len() as int) / (samples_per_row as int)) <= old(target)@.len(),
    ensures
        final(target)@.len() == old(target)@.len(),
        forall|k: int|
            0 <= k < old(target)@.len() ==> #[trigger] final(target)@[k] == if block_covers(
                samples_per_row as int,
                (pixel_array@.len() as int) / (samples_per_row as int),
                (pos.0 as int, pos.1 as int),
                k,
            ) {
                block_value(pixel_array@, samples_per_row as int, mv, k)
            } else {
                old(target)@[k]
            },
{
    let ((x_delta, x_interp), (y_delta, y_interp)) = mv.into_lerp_parameters();

    let x = pos.0 as isize + x_delta as isize;
    let y = pos.1 as isize + y_delta as isize;
    let array_height = pixel_array.len() / samples_per_row;
    let ghost spr = samples_per_row as int;
    let ghost ah = array_height as int;
    let ghost p = (pos.0 as int, pos.1 as int);
    let ghost old_target = target@;
    proof {
        assert(ah * spr <= pixel_array@.len()) by (nonlinear_arith)
            requires spr > 0, ah == (pixel_array@.len() as int) / spr;
        assert(ah <= pixel_array@.len()) by (nonlinear_arith)
            requires spr > 0, ah == (pixel_array@.len() as int) / spr;
    }

    let mut i: usize = 0;
    while i < 8
        invariant
            0 < samples_per_row,
            spr == samples_per_row,
            ah == array_height,
            ah == (pixel_array@.len() as int) / spr,
            ah * spr <= pixel_array@.len(),
            ah <= pixel_array@.len() <= isize::MAX,
            p == (pos.0 as int, pos.1 as int),
            pos.0 + 65536 <= isize::MAX,
            pos.1 + 65536 <= isize::MAX,
            spr * ah <= old_target.len(),
            x == pos.0 + halfpel_whole(mv.0.0 as int),
            y == pos.1 + halfpel_whole(mv.1.0 as int),
            x_interp == (mv.0.0 % 2 != 0),
            y_interp == (mv.1.0 % 2 != 0),
            -16384 <= halfpel_whole(mv.0.0 as int) <= 16384,
            -16384 <= halfpel_whole(mv.1.0 as int) <= 16384,
            i <= 8,
            target@.len() == old_target.len(),
            forall|k: int|
                0 <= k < old_target.len() ==> #[trigger] target@[k] == if block_done(
                    spr,
                    ah,
                    p,
                    i as int,
                    0,
                    k,
                ) {
                    block_value(pixel_array@, spr, mv, k)
                } else {
                    old_target[k]
                },
        decreases 8 - i,
    {
        if pos.0 + i < samples_per_row {
            let u = x + i as isize;
            let mut j: usize = 0;
            while j < 8
                invariant
                    0 < samples_per_row,
                    spr == samples_per_row,
                    ah == array_height,
                    ah == (pixel_array@.len() as int) / spr,
                    ah * spr <= pixel_array@.len(),
                    ah <= pixel_array@.len() <= isize::MAX,
                    p == (pos.0 as int, pos.1 as int),
                    pos.0 + 65536 <= isize::MAX,
                    pos.1 + 65536 <= isize::MAX,
                    spr * ah <= old_target.len(),
                    x == pos.0 + halfpel_whole(mv.0.0 as int),
                    y == pos.1 + halfpel_whole(mv.1.0 as int),
                    x_interp == (mv.0.0 % 2 != 0),
                    y_interp == (mv.1.0 % 2 != 0),
                    -16384 <= halfpel_whole(mv.0.0 as int) <= 16384,
                    -16384 <= halfpel_whole(mv.1.0 as int) <= 16384,
                    i < 8,
                    pos.0 + i < samples_per_row,
                    u == x + i,
                    j <= 8,
                    target@.len() == old_target.len(),
                    forall|k: int|
                        0 <= k < old_target.len() ==> #[trigger] target@[k] == if block_done(
                            spr,
                            ah,
                            p,
                            i as int,
                            j as int,
                            k,
                        ) {
                            block_value(pixel_array@, spr, mv, k)
                        } else {
                            old_target[k]
                        },
                decreases 8 - j,
            {
                if pos.1 + j < array_height {
                    let v = y + j as isize;
                    let col = pos.0 + i;
                    let row = pos.1 + j;
                    proof {
                        lemma_index_coords(spr, col as int, row as int);
                        assert(col + row * spr < spr * ah) by (nonlinear_arith)
                            requires col < spr, row < ah, spr > 0;
                        assert(spr <= spr * ah && spr * ah == ah * spr) by (nonlinear_arith)
                            requires row < ah, spr > 0;
                    }
                    let t = col + row * samples_per_row;
                    let sample_0_0 = read_sample(pixel_array, samples_per_row, array_height, (u, v));

                    let sample = if !x_interp && !y_interp {
                        sample_0_0
                    } else {
                        let sample_1_0 = read_sample(
                            pixel_array,
                            samples_per_row,
                            array_height,
                            (u + 1, v),
                        ) as u16;
                        let sample_0_1 = read_sample(
                            pixel_array,
                            samples_per_row,
                            array_height,
                            (u, v + 1),
                        ) as u16;
                        let sample_1_1 = read_sample(
                            pixel_array,
                            samples_per_row,
                            array_height,
                            (u + 1, v + 1),
                        ) as u16;

                        if x_interp && y_interp {
                            // special case to only round once
                            ((sample_0_0 as u16 + sample_1_0 + sample_0_1 + sample_1_1 + 2)  // for proper rounding
                             / 4) as u8
                        } else {
                            let sample_mid_0 = lerp(sample_0_0 as u16, sample_1_0, x_interp);
                            let sample_mid_1 = lerp(sample_0_1, sample_1_1, x_interp);

                            lerp(sample_mid_0, sample_mid_1, y_interp) as u8
                        }
                    };
                    assert(sample == block_value(pixel_array@, spr, mv, t as int));
                    target[t] = sample;
                }
                j = j + 1;
            }
        }
        i = i + 1;
    }
}

/// Along one axis: a coordinate lies in the 8-wide stripe `bo` of cell `a`
/// (cells `size` wide) exactly when those are its cell and stripe.
proof fn lemma_axis(c: int, size: int, a: int, bo: int)
    requires
        size > 0,
        0 <= c,
        0 <= a,
        0 <= bo,
        bo * 8 + 8 <= size,
    ensures
        (a * size + bo * 8 <= c < a * size + bo * 8 + 8) <==> (c / size == a && (c % size) / 8
            == bo),
{
    if a * size + bo * 8 <= c < a * size + bo * 8 + 8 {
        let r = c - a * size;
        lemma_fundamental_div_mod_converse(c, size, a, r);
        lemma_fundamental_div_mod_converse(r, 8, bo, r - bo * 8);
    }
    if c / size == a && (c % size) / 8 == bo {
        lemma_fundamental_div_mod(c, size);
        lemma_mod_bound(c, size);
        lemma_fundamental_div_mod(c % size, 8);
        lemma_mod_bound(c % size, 8);
        assert(size * (c / size) == a * size) by (nonlinear_arith)
            requires c / size == a;
        assert(8 * ((c % size) / 8) == bo * 8) by (nonlinear_arith)
            requires (c % size) / 8 == bo;
    }
}

/// Index `k` lies in the 8x8 block `(bx, by)` of macroblock `i` (macroblocks
/// `size` samples square, `mb_per_line` to a row) exactly when the cell
/// and block of its column and row are those.
proof fn lemma_block_cell(
    samples_per_row: int,
    height: int,
    mb_per_line: int,
    size: int,
    i: int,
    bx: int,
    by: int,
    k: int,
)
    requires
        samples_per_row > 0,
        mb_per_line > 0,
        size > 0,
        0 <= i,
        0 <= bx,
        0 <= by,
        bx * 8 + 8 <= size,
        by * 8 + 8 <= size,
        0 <= k,
    ensures
        block_covers(
            samples_per_row,
            height,
            ((i % mb_per_line) * size + bx * 8, (i / mb_per_line) * size + by * 8),
            k,
        ) <==> ({
            let col = k % samples_per_row;
            let row = k / samples_per_row;
            &&& col / size < mb_per_line
            &&& (row / size) * mb_per_line + col / size == i
            &&& (col % size) / 8 == bx
            &&& (row % size) / 8 == by
            &&& row < height
        }),
{
    let col = k % samples_per_row;
    let row = k / samples_per_row;
    lemma_mod_bound(k, samples_per_row);
    lemma_div_pos_is_pos(k, samples_per_row);
    lemma_mod_bound(i, mb_per_line);
    lemma_div_pos_is_pos(i, mb_per_line);
    lemma_axis(col, size, i % mb_per_line, bx);
    lemma_axis(row, size, i / mb_per_line, by);
    lemma_fundamental_div_mod(i, mb_per_line);
    assert(mb_per_line * (i / mb_per_line) == (i / mb_per_line) * mb_per_line) by (nonlinear_arith);
    lemma_div_pos_is_pos(col, size);
    lemma_div_pos_is_pos(row, size);
    if col / size < mb_per_line && (row / size) * mb_per_line + col / size == i {
        lemma_fundamental_div_mod_converse(i, mb_per_line, row / size, col / size);
    }
}

/// The number of macroblocks gathered: as many as there are both types and
/// vectors for.
pub open spec fn mb_count(mb_types: Seq<MacroblockType>, mvs: Seq<[MotionVector; 4]>) -> int {
    if mb_types.len() <= mvs.len() {
        mb_types.len() as int
    } else {
        mvs.len() as int
    }
}

/// Some macroblock before `upto` is inter-coded.
pub open spec fn has_inter_before(mb_types: Seq<MacroblockType>, upto: int) -> bool {
    exists|m: int| 0 <= m < upto && (#[trigger] mb_types[m]).spec_is_inter()
}

/// The macroblock (of `mb_per_line` to a row, `size` samples square) that
/// holds index `k` of a plane of `samples_per_row` columns.
pub open spec fn mb_of(samples_per_row: int, mb_per_line: int, size: int, k: int) -> int {
    ((k / samples_per_row) / size) * mb_per_line + (k % samples_per_row) / size
}

/// Which of the four 8x8 luma blocks of its macroblock holds index `k`:
/// left to right, then top to bottom.
pub open spec fn luma_block_of(samples_per_row: int, k: int) -> int {
    ((k % samples_per_row) % 16) / 8 + 2 * (((k / samples_per_row) % 16) / 8)
}

/// Whether index `k` of a plane lies in a macroblock, before `upto`, that
/// is inter-coded.
pub open spec fn in_inter_mb(
    samples_per_row: int,
    height: int,
    mb_types: Seq<MacroblockType>,
    mb_per_line: int,
    size: int,
    upto: int,
    k: int,
) -> bool {
    let m = mb_of(samples_per_row, mb_per_line, size, k);
    &&& (k % samples_per_row) / size < mb_per_line
    &&& 0 <= m < upto
    &&& mb_types[m].spec_is_inter()
    &&& k / samples_per_row < height
}

/// The luma plane `target` once the luma blocks numbered (four to a
/// macroblock) before `upto` are gathered from `reference`.
pub open spec fn luma_gathered(
    target: Seq<u8>,
    reference: Seq<u8>,
    samples_per_row: int,
    mb_types: Seq<MacroblockType>,
    mvs: Seq<[MotionVector; 4]>,
    mb_per_line: int,
    upto: int,
) -> Seq<u8> {
    Seq::new(
        target.len(),
        |k: int|
            {
                let m = mb_of(samples_per_row, mb_per_line, 16, k);
                let b = luma_block_of(samples_per_row, k);
                if in_inter_mb(
                    samples_per_row,
                    (reference.len() as int) / samples_per_row,
                    mb_types,
                    mb_per_line,
                    16,
                    mb_types.len() as int,
                    k,
                ) && m * 4 + b < upto {
                    block_value(reference, samples_per_row, mvs[m]@[b], k)
                } else {
                    target[k]
                }
            },
    )
}

/// The chroma vector of a macroblock: from the sums of the components of
/// its four luma vectors.
pub open spec fn chroma_mv(mv: [MotionVector; 4]) -> MotionVector {
    let v = mv@;
    MotionVector(
        HalfPel(chroma_component(v[0].0.0 + v[1].0.0 + v[2].0.0 + v[3].0.0) as i16),
        HalfPel(chroma_component(v[0].1.0 + v[1].1.0 + v[2].1.0 + v[3].1.0) as i16),
    )
}

/// The four luma vectors of a macroblock sum without overflow.
pub open spec fn mv_sum_fits(mv: [MotionVector; 4]) -> bool {
    let v = mv@;
    &&& i16::MIN <= v[0].0.0 + v[1].0.0 + v[2].0.0 + v[3].0.0 <= i16::MAX
    &&& i16::MIN <= v[0].1.0 + v[1].1.0 + v[2].1.0 + v[3].1.0 <= i16::MAX
}

/// A chroma plane `target` once the macroblocks before `upto` are gathered
/// from `reference`.
pub open spec fn chroma_gathered(
    target: Seq<u8>,
    reference: Seq<u8>,
    samples_per_row: int,
    mb_types: Seq<MacroblockType>,
    mvs: Seq<[MotionVector; 4]>,
    mb_per_line: int,
    upto: int,
) -> Seq<u8> {
    Seq::new(
        target.len(),
        |k: int|
            {
                let m = mb_of(samples_per_row, mb_per_line, 8, k);
                if in_inter_mb(
                    samples_per_row,
                    (reference.len() as int) / samples_per_row,
                    mb_types,
                    mb_per_line,
                    8,
                    upto,
                    k,
                ) {
                    block_value(reference, samples_per_row, chroma_mv(mvs[m]), k)
                } else {
                    target[k]
                }
            },
    )
}

/// Gathering one more luma block of an inter-coded macroblock extends the
/// gathered plane by that block.
proof fn lemma_luma_step(
    target: Seq<u8>,
    before: Seq<u8>,
    after: Seq<u8>,
    reference: Seq<u8>,
    samples_per_row: int,
    mb_types: Seq<MacroblockType>,
    mvs: Seq<[MotionVector; 4]>,
    mb_per_line: int,
    i: int,
    b: int,
)
    requires
        samples_per_row > 0,
        mb_per_line > 0,
        0 <= i < mb_types.len(),
        i < mvs.len(),
        0 <= b < 4,
        mb_types[i].spec_is_inter(),
        before == luma_gathered(target, reference, samples_per_row, mb_types, mvs, mb_per_line, i * 4 + b),
        after.len() == before.len(),
        forall|k: int|
            0 <= k < before.len() ==> #[trigger] after[k] == if block_covers(
                samples_per_row,
                (reference.len() as int) / samples_per_row,
                ((i % mb_per_line) * 16 + (b % 2) * 8, (i / mb_per_line) * 16 + (b / 2) * 8),
                k,
            ) {
                block_value(reference, samples_per_row, mvs[i]@[b], k)
            } else {
                before[k]
            },
    ensures
        after == luma_gathered(target, reference, samples_per_row, mb_types, mvs, mb_per_line, i * 4 + b + 1),
{
    let h = (reference.len() as int) / samples_per_row;
    let next = luma_gathered(target, reference, samples_per_row, mb_types, mvs, mb_per_line, i * 4 + b + 1);
    assert forall|k: int| 0 <= k < after.len() implies after[k] == next[k] by {
        lemma_block_cell(samples_per_row, h, mb_per_line, 16, i, b % 2, b / 2, k);
        lemma_mod_bound(k, samples_per_row);
        lemma_div_pos_is_pos(k, samples_per_row);
        lemma_mod_bound(k % samples_per_row, 16);
        lemma_mod_bound(k / samples_per_row, 16);
    }
    assert(after =~= next);
}

/// Gathering the chroma block of one more inter-coded macroblock extends
/// the gathered plane by that block.
proof fn lemma_chroma_step(
    target: Seq<u8>,
    before: Seq<u8>,
    after: Seq<u8>,
    reference: Seq<u8>,
    samples_per_row: int,
    mb_types: Seq<MacroblockType>,
    mvs: Seq<[MotionVector; 4]>,
    mb_per_line: int,
    i: int,
)
    requires
        samples_per_row > 0,
        mb_per_line > 0,
        0 <= i < mb_types.len(),
        i < mvs.len(),
        mb_types[i].spec_is_inter(),
        before == chroma_gathered(target, reference, samples_per_row, mb_types, mvs, mb_per_line, i),
        after.len() == before.len(),
        forall|k: int|
            0 <= k < before.len() ==> #[trigger] after[k] == if block_covers(
                samples_per_row,
                (reference.len() as int) / samples_per_row,
                ((i % mb_per_line) * 8, (i / mb_per_line) * 8),
                k,
            ) {
                block_value(reference, samples_per_row, chroma_mv(mvs[i]), k)
            } else {
                before[k]
            },
    ensures
        after == chroma_gathered(target, reference, samples_per_row, mb_types, mvs, mb_per_line, i + 1),
{
    let h = (reference.len() as int) / samples_per_row;
    let next = chroma_gathered(target, reference, samples_per_row, mb_types, mvs, mb_per_line, i + 1);
    assert forall|k: int| 0 <= k < after.len() implies after[k] == next[k] by {
        lemma_block_cell(samples_per_row, h, mb_per_line, 8, i, 0, 0, k);
        lemma_mod_bound(k, samples_per_row);
        lemma_div_pos_is_pos(k, samples_per_row);
        lemma_mod_bound(k % samples_per_row, 8);
        lemma_mod_bound(k / samples_per_row, 8);
    }
    assert(after =~= next);
}

/// What gathering into `new_picture` from `reference` needs: a positive
/// number of macroblocks per line and of samples per row, planes whose
/// lengths fit an `isize`, target planes at least as long as the whole rows
/// of the reference planes, macroblock positions that fit an `isize`, and
/// luma vectors of inter-coded macroblocks that sum without overflow.
pub open spec fn gather_fits(
    reference: &DecodedPicture,
    new_picture: &DecodedPicture,
    mb_types: Seq<MacroblockType>,
    mvs: Seq<[MotionVector; 4]>,
    mb_per_line: int,
) -> bool {
    let spr = reference.luma_samples_per_row as int;
    let cspr = reference.chroma_samples_per_row as int;
    &&& mb_per_line > 0
    &&& spr > 0
    &&& cspr > 0
    &&& reference.luma@.len() <= isize::MAX
    &&& reference.chroma_b@.len() <= isize::MAX
    &&& reference.chroma_r@.len() <= isize::MAX
    &&& spr * ((reference.luma@.len() as int) / spr) <= new_picture.luma@.len()
    &&& cspr * ((reference.chroma_b@.len() as int) / cspr) <= new_picture.chroma_b@.len()
    &&& cspr * ((reference.chroma_r@.len() as int) / cspr) <= new_picture.chroma_r@.len()
    &&& mb_types.len() * 16 + 65552 <= isize::MAX
    &&& forall|m: int|
        0 <= m < mb_count(mb_types, mvs) && (#[trigger] mb_types[m]).spec_is_inter()
            ==> mv_sum_fits(mvs[m])
}

/// The sum of the four luma vectors of a macroblock.
fn sum_mvs(mv: [MotionVector; 4]) -> (r: MotionVector)
    requires
        mv_sum_fits(mv),
    ensures
        r.0.0 == mv@[0].0.0 + mv@[1].0.0 + mv@[2].0.0 + mv@[3].0.0,
        r.1.0 == mv@[0].1.0 + mv@[1].1.0 + mv@[2].1.0 + mv@[3].1.0,
{
    let x = mv[0].0.0 as i32 + mv[1].0.0 as i32 + mv[2].0.0 as i32 + mv[3].0.0 as i32;
    let y = mv[0].1.0 as i32 + mv[1].1.0 as i32 + mv[2].1.0 as i32 + mv[3].1.0 as i32;
    MotionVector(HalfPel(x as i16), HalfPel(y as i16))
}


/// Gathers the four luma blocks and the two chroma blocks of inter-coded
/// macroblock `i`.
fn gather_macroblock(
    mb_types: &[MacroblockType],
    mvs: &[[MotionVector; 4]],
    i: usize,
    reference_picture: &DecodedPicture,
    mb_per_line: usize,
    new_picture: &mut DecodedPicture,
    Ghost(old_luma): Ghost<Seq<u8>>,
    Ghost(old_cb): Ghost<Seq<u8>>,
    Ghost(old_cr): Ghost<Seq<u8>>,
)
    requires
        gather_fits(reference_picture, old(new_picture), mb_types@, mvs@, mb_per_line as int),
        i < mb_count(mb_types@, mvs@),
        mb_types@[i as int].spec_is_inter(),
        old(new_picture).luma@ == luma_gathered(
            old_luma,
            reference_picture.luma@,
            reference_picture.luma_samples_per_row as int,
            mb_types@,
            mvs@,
            mb_per_line as int,
            i * 4,
        ),
        old(new_picture).chroma_b@ == chroma_gathered(
            old_cb,
            reference_picture.chroma_b@,
            reference_picture.chroma_samples_per_row as int,
            mb_types@,
            mvs@,
            mb_per_line as int,
            i as int,
        ),
        old(new_picture).chroma_r@ == chroma_gathered(
            old_cr,
            reference_picture.chroma_r@,
            reference_picture.chroma_samples_per_row as int,
            mb_types@,
            mvs@,
            mb_per_line as int,
            i as int,
        ),
    ensures
        final(new_picture).luma_samples_per_row == old(new_picture).luma_samples_per_row,
        final(new_picture).chroma_samples_per_row == old(new_picture).chroma_samples_per_row,
        final(new_picture).luma@ == luma_gathered(
            old_luma,
            reference_picture.luma@,
            reference_picture.luma_samples_per_row as int,
            mb_types@,
            mvs@,
            mb_per_line as int,
            (i + 1) * 4,
        ),
        final(new_picture).chroma_b@ == chroma_gathered(
            old_cb,
            reference_picture.chroma_b@,
            reference_picture.chroma_samples_per_row as int,
            mb_types@,
            mvs@,
            mb_per_line as int,
            i + 1,
        ),
        final(new_picture).chroma_r@ == chroma_gathered(
            old_cr,
            reference_picture.chroma_r@,
            reference_picture.chroma_samples_per_row as int,
            mb_types@,
            mvs@,
            mb_per_line as int,
            i + 1,
        ),
{
    let ghost mpl = mb_per_line as int;
    let mv = mvs[i];
    proof {
        assert(mv_sum_fits(mvs@[i as int]));
        assert((i / mb_per_line) as int <= i) by (nonlinear_arith)
            requires mb_per_line > 0;
        assert((i % mb_per_line) as int <= i) by (nonlinear_arith)
            requires mb_per_line > 0;
    }
    let luma_samples_per_row = reference_picture.luma_samples_per_row();
    let pos = ((i % mb_per_line) * 16, (i / mb_per_line) * 16);
    let ghost spr = luma_samples_per_row as int;
    let ghost l0 = new_picture.luma@;

    gather_block(
        reference_picture.as_luma(),
        luma_samples_per_row,
        pos,
        mv[0],
        new_picture.as_luma_mut(),
    );
    proof {
        lemma_luma_step(old_luma, l0, new_picture.luma@, reference_picture.luma@, spr, mb_types@, mvs@, mpl, i as int, 0);
    }
    let ghost l1 = new_picture.luma@;
    gather_block(
        reference_picture.as_luma(),
        luma_samples_per_row,
        (pos.0 + 8, pos.1),
        mv[1],
        new_picture.as_luma_mut(),
    );
    proof {
        lemma_luma_step(old_luma, l1, new_picture.luma@, reference_picture.luma@, spr, mb_types@, mvs@, mpl, i as int, 1);
    }
    let ghost l2 = new_picture.luma@;
    gather_block(
        reference_picture.as_luma(),
        luma_samples_per_row,
        (pos.0, pos.1 + 8),
        mv[2],
        new_picture.as_luma_mut(),
    );
    proof {
        lemma_luma_step(old_luma, l2, new_picture.luma@, reference_picture.luma@, spr, mb_types@, mvs@, mpl, i as int, 2);
    }
    let ghost l3 = new_picture.luma@;
    gather_block(
        reference_picture.as_luma(),
        luma_samples_per_row,
        (pos.0 + 8, pos.1 + 8),
        mv[3],
        new_picture.as_luma_mut(),
    );
    proof {
        lemma_luma_step(old_luma, l3, new_picture.luma@, reference_picture.luma@, spr, mb_types@, mvs@, mpl, i as int, 3);
    }

    let mv_chr = sum_mvs(mv).average_sum_of_mvs();
    assert(mv_chr == chroma_mv(mvs@[i as int]));
    let chroma_samples_per_row = reference_picture.chroma_samples_per_row();
    let chroma_pos = ((i % mb_per_line) * 8, (i / mb_per_line) * 8);
    let ghost cspr = chroma_samples_per_row as int;
    let ghost b0 = new_picture.chroma_b@;

    gather_block(
        reference_picture.as_chroma_b(),
        chroma_samples_per_row,
        (chroma_pos.0, chroma_pos.1),
        mv_chr,
        new_picture.as_chroma_b_mut(),
    );
    proof {
        lemma_chroma_step(old_cb, b0, new_picture.chroma_b@, reference_picture.chroma_b@, cspr, mb_types@, mvs@, mpl, i as int);
    }
    let ghost r0 = new_picture.chroma_r@;
    gather_block(
        reference_picture.as_chroma_r(),
        chroma_samples_per_row,
        (chroma_pos.0, chroma_pos.1),
        mv_chr,
        new_picture.as_chroma_r_mut(),
    );
    proof {
        lemma_chroma_step(old_cr, r0, new_picture.chroma_r@, reference_picture.chroma_r@, cspr, mb_types@, mvs@, mpl, i as int);
    }
}

/// Copy pixels from a previously decoded reference picture into a new picture.
///
/// This function works on the entire picture's macroblocks as a batch. You
/// will need to provide a list of macroblock types, each macroblock's motion
/// vectors,
///
/// For `INTER` coded macroblocks, the gather process performs motion
/// compensation using the reference picture to produce the block data to be
/// mixed with the result of the IDCT.
///
/// For `INTRA` coded macroblocks, the returned set of blocks will be all
/// zeroes.
pub fn gather(
    mb_types: &[MacroblockType],
    reference_picture: Option<&DecodedPicture>,
    mvs: &[[MotionVector; 4]],
    mb_per_line: usize,
    new_picture: &mut DecodedPicture,
) -> (r: Result<(), Error>)
    requires
        reference_picture matches Some(rp) ==> (has_inter_before(
            mb_types@,
            mb_count(mb_types@, mvs@),
        ) ==> gather_fits(rp, old(new_picture), mb_types@, mvs@, mb_per_line as int)),
    ensures
        final(new_picture).luma_samples_per_row == old(new_picture).luma_samples_per_row,
        final(new_picture).chroma_samples_per_row == old(new_picture).chroma_samples_per_row,
        reference_picture is None ==> {
            &&& r == if has_inter_before(mb_types@, mb_count(mb_types@, mvs@)) {
                Err::<(), Error>(Error::UncodedIFrameBlocks)
            } else {
                Ok::<(), Error>(())
            }
            &&& final(new_picture).luma@ == old(new_picture).luma@
            &&& final(new_picture).chroma_b@ == old(new_picture).chroma_b@
            &&& final(new_picture).chroma_r@ == old(new_picture).chroma_r@
        },
        reference_picture matches Some(rp) ==> {
            let n = mb_count(mb_types@, mvs@);
            &&& r == Ok::<(), Error>(())
            &&& final(new_picture).luma@ == luma_gathered(
                old(new_picture).luma@,
                rp.luma@,
                rp.luma_samples_per_row as int,
                mb_types@,
                mvs@,
                mb_per_line as int,
                n * 4,
            )
            &&& final(new_picture).chroma_b@ == chroma_gathered(
                old(new_picture).chroma_b@,
                rp.chroma_b@,
                rp.chroma_samples_per_row as int,
                mb_types@,
                mvs@,
                mb_per_line as int,
                n,
            )
            &&& final(new_picture).chroma_r@ == chroma_gathered(
                old(new_picture).chroma_r@,
                rp.chroma_r@,
                rp.chroma_samples_per_row as int,
                mb_types@,
                mvs@,
                mb_per_line as int,
                n,
            )
        },
{
    let n = if mb_types.len() <= mvs.len() { mb_types.len() } else { mvs.len() };
    let ghost old_luma = new_picture.luma@;
    let ghost old_cb = new_picture.chroma_b@;
    let ghost old_cr = new_picture.chroma_r@;
    let ghost mpl = mb_per_line as int;
    proof {
        if let Some(rp) = reference_picture {
            assert(luma_gathered(old_luma, rp.luma@, rp.luma_samples_per_row as int, mb_types@, mvs@, mpl, 0) =~= old_luma);
            assert(chroma_gathered(old_cb, rp.chroma_b@, rp.chroma_samples_per_row as int, mb_types@, mvs@, mpl, 0) =~= old_cb);
            assert(chroma_gathered(old_cr, rp.chroma_r@, rp.chroma_samples_per_row as int, mb_types@, mvs@, mpl, 0) =~= old_cr);
        }
    }
    let mut i: usize = 0;
    while i < n
        invariant
            n == mb_count(mb_types@, mvs@),
            i <= n,
            mpl == mb_per_line,
            reference_picture matches Some(rp) ==> (has_inter_before(mb_types@, n as int)
                ==> gather_fits(rp, old(new_picture), mb_types@, mvs@, mpl)),
            old_luma == old(new_picture).luma@,
            old_cb == old(new_picture).chroma_b@,
            old_cr == old(new_picture).chroma_r@,
            new_picture.luma_samples_per_row == old(new_picture).luma_samples_per_row,
            new_picture.chroma_samples_per_row == old(new_picture).chroma_samples_per_row,
            new_picture.luma@.len() == old_luma.len(),
            new_picture.chroma_b@.len() == old_cb.len(),
            new_picture.chroma_r@.len() == old_cr.len(),
            reference_picture is None ==> {
                &&& !has_inter_before(mb_types@, i as int)
                &&& new_picture.luma@ == old_luma
                &&& new_picture.chroma_b@ == old_cb
                &&& new_picture.chroma_r@ == old_cr
            },
            reference_picture matches Some(rp) ==> {
                &&& new_picture.luma@ == luma_gathered(
                    old_luma,
                    rp.luma@,
                    rp.luma_samples_per_row as int,
                    mb_types@,
                    mvs@,
                    mpl,
                    i * 4,
                )
                &&& new_picture.chroma_b@ == chroma_gathered(
                    old_cb,
                    rp.chroma_b@,
                    rp.chroma_samples_per_row as int,
                    mb_types@,
                    mvs@,
                    mpl,
                    i as int,
                )
                &&& new_picture.chroma_r@ == chroma_gathered(
                    old_cr,
                    rp.chroma_r@,
                    rp.chroma_samples_per_row as int,
                    mb_types@,
                    mvs@,
                    mpl,
                    i as int,
                )
            },
        decreases n - i,
    {
        let mb_type = mb_types[i];
        if mb_type.is_inter() {
            let reference_picture = match reference_picture {
                Some(rp) => rp,
                None => return Err(Error::UncodedIFrameBlocks),
            };
            proof {
                assert(has_inter_before(mb_types@, n as int));
            }
            gather_macroblock(
                mb_types,
                mvs,
                i,
                reference_picture,
                mb_per_line,
                new_picture,
                Ghost(old_luma),
                Ghost(old_cb),
                Ghost(old_cr),
            );
        } else {
            proof {
                if let Some(rp) = reference_picture {
                    let spr = rp.luma_samples_per_row as int;
                    let cspr = rp.chroma_samples_per_row as int;
                    assert(luma_gathered(old_luma, rp.luma@, spr, mb_types@, mvs@, mpl, i * 4)
                        =~= luma_gathered(old_luma, rp.luma@, spr, mb_types@, mvs@, mpl, (i + 1) * 4));
                    assert(chroma_gathered(old_cb, rp.chroma_b@, cspr, mb_types@, mvs@, mpl, i as int)
                        =~= chroma_gathered(old_cb, rp.chroma_b@, cspr, mb_types@, mvs@, mpl, i + 1));
                    assert(chroma_gathered(old_cr, rp.chroma_r@, cspr, mb_types@, mvs@, mpl, i as int)
                        =~= chroma_gathered(old_cr, rp.chroma_r@, cspr, mb_types@, mvs@, mpl, i + 1));
                }
            }
        }
        i = i + 1;
    }

    Ok(())
}

/// Gathering changes no sample of a picture when no macroblock gathered is
/// inter-coded.
pub proof fn lemma_gather_without_inter_keeps_planes(
    target: Seq<u8>,
    reference: Seq<u8>,
    samples_per_row: int,
    mb_types: Seq<MacroblockType>,
    mvs: Seq<[MotionVector; 4]>,
    mb_per_line: int,
)
    requires
        !has_inter_before(mb_types, mb_count(mb_types, mvs)),
    ensures
        luma_gathered(target, reference, samples_per_row, mb_types, mvs, mb_per_line, mb_count(mb_types, mvs) * 4)
            == target,
        chroma_gathered(target, reference, samples_per_row, mb_types, mvs, mb_per_line, mb_count(mb_types, mvs))
            == target,
{
    let n = mb_count(mb_types, mvs);
    let l = luma_gathered(target, reference, samples_per_row, mb_types, mvs, mb_per_line, n * 4);
    assert forall|k: int| 0 <= k < target.len() implies l[k] == target[k] by {
        let m = mb_of(samples_per_row, mb_per_line, 16, k);
        let b = luma_block_of(samples_per_row, k);
        if in_inter_mb(samples_per_row, (reference.len() as int) / samples_per_row, mb_types, mb_per_line, 16, mb_types.len() as int, k)
            && m * 4 + b < n * 4 {
            lemma_mod_bound(k % samples_per_row, 16);
            lemma_mod_bound(k / samples_per_row, 16);
            if samples_per_row > 0 {
                lemma_mod_bound(k, samples_per_row);
            }
            assert(0 <= b);
            assert(m < n);
            assert(mb_types[m].spec_is_inter());
        }
    }
    assert(l =~= target);
    let c = chroma_gathered(target, reference, samples_per_row, mb_types, mvs, mb_per_line, n);
    assert forall|k: int| 0 <= k < target.len() implies c[k] == target[k] by {
        let m = mb_of(samples_per_row, mb_per_line, 8, k);
        if in_inter_mb(samples_per_row, (reference.len() as int) / samples_per_row, mb_types, mb_per_line, 8, n, k) {
            assert(mb_types[m].spec_is_inter());
        }
    }
    assert(c =~= target);
}

} // verus!
