//! The pixels read back from an offscreen render target.

use vstd::prelude::*;

verus! {

/// The number of rows of `padded` bytes (the last one possibly shorter)
/// that `len` bytes make up.
pub open spec fn row_count(len: int, padded: int) -> int {
    (len + padded - 1) / padded
}

/// The first `unpadded` bytes of each row of `padded` bytes of `data`, one
/// row after another.
pub open spec fn unpadded_rows(data: Seq<u8>, padded: int, unpadded: int) -> Seq<u8> {
    Seq::new(
        (row_count(data.len() as int, padded) * unpadded) as nat,
        |i: int| data[(i / unpadded) * padded + i % unpadded],
    )
}

/// Strips the padding off the rows of a buffer that a texture was copied
/// into: the GPU lays out each row of `unpadded_bytes_per_row` bytes of
/// pixels in `padded_bytes_per_row` bytes. Every row, the last one
/// included, must hold the pixels in full.
pub fn unpad_rows(mapped: &[u8], padded_bytes_per_row: usize, unpadded_bytes_per_row: usize) -> (r: Vec<u8>)
    requires
        padded_bytes_per_row > 0,
        mapped@.len() > 0 ==> unpadded_bytes_per_row <= padded_bytes_per_row,
        mapped@.len() > 0 ==> ((mapped@.len() as int) % (padded_bytes_per_row as int) == 0
            || (mapped@.len() as int) % (padded_bytes_per_row as int) >= unpadded_bytes_per_row),
    ensures
        r@ == unpadded_rows(mapped@, padded_bytes_per_row as int, unpadded_bytes_per_row as int),
{
    let padded = padded_bytes_per_row;
    let unpadded = unpadded_bytes_per_row;
    let len = mapped.len();
    if len == 0 {
        let empty: Vec<u8> = Vec::new();
        proof {
            vstd::arithmetic::div_mod::lemma_fundamental_div_mod_converse(padded - 1, padded as int, 0, padded - 1);
            assert(row_count(0, padded as int) == 0);
            assert(row_count(0, padded as int) * unpadded == 0) by (nonlinear_arith)
                requires
                    row_count(0, padded as int) == 0,
            ;
        }
        assert(empty@ =~= unpadded_rows(mapped@, padded as int, unpadded as int));
        return empty;
    }
    let full: usize = len / padded;
    proof {
        lemma_row_count(len as int, padded as int);
        vstd::arithmetic::div_mod::lemma_fundamental_div_mod(len as int, padded as int);
        if len % padded != 0 {
            assert(full < len) by (nonlinear_arith)
                requires
                    len == padded * full + len % padded,
                    len % padded > 0,
                    padded >= 1,
                    full >= 0,
            ;
        }
    }
    let rows: usize = if len % padded != 0 { full + 1 } else { full };
    let mut buffer: Vec<u8> = Vec::new();
    let mut row: usize = 0;
    while row < rows
        invariant
            padded == padded_bytes_per_row,
            unpadded == unpadded_bytes_per_row,
            len == mapped@.len(),
            0 < padded,
            unpadded <= padded,
            (len as int) % (padded as int) == 0 || (len as int) % (padded as int) >= unpadded,
            rows == row_count(len as int, padded as int),
            row <= rows,
            buffer@.len() == row * unpadded,
            forall|i: int| 0 <= i < buffer@.len() ==> #[trigger] buffer@[i] == mapped@[(i / unpadded as int) * padded + i % (unpadded as int)],
        decreases rows - row,
    {
        proof {
            lemma_row_fits(len as int, padded as int, unpadded as int, row as int);
        }
        let start: usize = row * padded;
        let mut j: usize = 0;
        while j < unpadded
            invariant
                padded == padded_bytes_per_row,
                unpadded == unpadded_bytes_per_row,
                len == mapped@.len(),
                0 < padded,
                unpadded <= padded,
                start == row * padded,
                start + unpadded <= len,
                j <= unpadded,
                buffer@.len() == row * unpadded + j,
                forall|i: int| 0 <= i < buffer@.len() ==> #[trigger] buffer@[i] == mapped@[(i / unpadded as int) * padded + i % (unpadded as int)],
            decreases unpadded - j,
        {
            proof {
                lemma_index_in_row(row as int, unpadded as int, j as int);
            }
            buffer.push(mapped[start + j]);
            j = j + 1;
        }
        proof {
            assert((row + 1) * unpadded == row * unpadded + unpadded) by (nonlinear_arith);
        }
        row = row + 1;
    }
    proof {
        assert(buffer@ =~= unpadded_rows(mapped@, padded as int, unpadded as int));
    }
    buffer
}

/// Byte `rows * unpadded + j` of the output is byte `j` of row `rows`.
proof fn lemma_index_in_row(rows: int, unpadded: int, j: int)
    requires
        0 <= rows,
        0 <= j < unpadded,
    ensures
        (rows * unpadded + j) / unpadded == rows,
        (rows * unpadded + j) % unpadded == j,
{
    vstd::arithmetic::div_mod::lemma_fundamental_div_mod_converse(rows * unpadded + j, unpadded, rows, j);
}

/// The rows of `padded` bytes that `len` bytes make up: the full ones, and
/// one more for what is left over.
proof fn lemma_row_count(len: int, padded: int)
    requires
        0 < padded,
        0 <= len,
    ensures
        row_count(len, padded) == len / padded + (if len % padded != 0 { 1int } else { 0int }),
{
    vstd::arithmetic::div_mod::lemma_fundamental_div_mod(len, padded);
    let q = len / padded;
    let m = len % padded;
    assert(q * padded == padded * q) by (nonlinear_arith);
    assert((q + 1) * padded == padded * q + padded) by (nonlinear_arith);
    if m == 0 {
        vstd::arithmetic::div_mod::lemma_fundamental_div_mod_converse(len + padded - 1, padded, q, padded - 1);
    } else {
        vstd::arithmetic::div_mod::lemma_fundamental_div_mod_converse(len + padded - 1, padded, q + 1, m - 1);
    }
}

/// Each row before the last holds `unpadded` bytes and starts inside the
/// data.
proof fn lemma_row_fits(len: int, padded: int, unpadded: int, row: int)
    requires
        0 < padded,
        0 <= unpadded <= padded,
        0 <= row,
        0 <= len,
        row < row_count(len, padded),
        len % padded == 0 || len % padded >= unpadded,
    ensures
        row * padded + unpadded <= len,
{
    lemma_row_count(len, padded);
    vstd::arithmetic::div_mod::lemma_fundamental_div_mod(len, padded);
    let q = len / padded;
    let m = len % padded;
    if row < q {
        assert(row * padded + padded <= q * padded) by (nonlinear_arith)
            requires
                row + 1 <= q,
                padded > 0,
        ;
    } else {
        assert(row == q);
    }
}

} // verus!
