//! CPU staging order of an uncompressed block-linear color surface.
//!
//! Storage is divided into blocks of 16 GOBs, each GOB holding 64 bytes by 8
//! rows. Depth storage uses another page kind and is not CPU accessible through
//! this conversion.
use vstd::prelude::*;

verus! {

/// Position, inside its 64-byte by 128-row block, of a byte of the surface.
pub open spec fn in_block(x: int, y: int) -> int {
    (y / 8) * 512 + (x / 32) * 256 + ((y % 8) / 2) * 64 + ((x % 32) / 16) * 32 + (y % 2) * 16 + x
        % 16
}

/// Index of the block that holds byte column `x` of row `y`.
pub open spec fn block_of(x: int, y: int, pitch: int) -> int {
    (y / 128) * (pitch / 64) + x / 64
}

/// Storage offset of byte column `x` of row `y`.
pub open spec fn offset_of(x: int, y: int, pitch: int) -> int {
    block_of(x, y, pitch) * 8192 + in_block(x % 64, y % 128)
}

proof fn lemma_in_block_bounds(x: int, y: int)
    requires
        0 <= x < 64,
        0 <= y < 128,
    ensures
        0 <= in_block(x, y) < 8192,
{
}

proof fn lemma_block_index(x: int, y: int, pitch: int)
    requires
        0 <= x,
        0 <= y,
        0 <= pitch,
    ensures
        0 <= (y / 128) * (pitch / 64) <= block_of(x, y, pitch),
        x < pitch && pitch % 64 == 0 ==> block_of(x, y, pitch) < (y / 128 + 1) * (pitch / 64),
{
    let rows = y / 128;
    let blocks = pitch / 64;
    assert(rows * blocks >= 0) by (nonlinear_arith)
        requires
            rows >= 0,
            blocks >= 0,
    ;
    assert((rows + 1) * blocks == rows * blocks + blocks) by (nonlinear_arith);
}

/// The bits of both coordinates are a permutation of the bits of the position.
proof fn lemma_block_bits(x: u16, y: u16, p: u16)
    by (bit_vector)
    requires
        x < 64,
        y < 128,
        p == (y / 8) * 512 + (x / 32) * 256 + ((y % 8) / 2) * 64 + ((x % 32) / 16) * 32 + (y % 2)
            * 16 + x % 16,
    ensures
        ((p / 256) % 2) * 32 + ((p / 32) % 2) * 16 + p % 16 == x,
        (p / 512) * 8 + ((p / 64) % 4) * 2 + (p / 16) % 2 == y,
{
}

proof fn lemma_position_bits(x: u16, y: u16, p: u16)
    by (bit_vector)
    requires
        p < 8192,
        x == ((p / 256) % 2) * 32 + ((p / 32) % 2) * 16 + p % 16,
        y == (p / 512) * 8 + ((p / 64) % 4) * 2 + (p / 16) % 2,
    ensures
        x < 64,
        y < 128,
        p == (y / 8) * 512 + (x / 32) * 256 + ((y % 8) / 2) * 64 + ((x % 32) / 16) * 32 + (y % 2)
            * 16 + x % 16,
{
}

/// Byte column, inside its block, of the byte at position `p` of the block.
pub open spec fn column_in_block(p: int) -> int {
    ((p / 256) % 2) * 32 + ((p / 32) % 2) * 16 + p % 16
}

/// Row, inside its block, of the byte at position `p` of the block.
pub open spec fn row_in_block(p: int) -> int {
    (p / 512) * 8 + ((p / 64) % 4) * 2 + (p / 16) % 2
}

proof fn lemma_in_block_inverse(x: int, y: int)
    requires
        0 <= x < 64,
        0 <= y < 128,
    ensures
        column_in_block(in_block(x, y)) == x,
        row_in_block(in_block(x, y)) == y,
{
    lemma_in_block_bounds(x, y);
    lemma_block_bits(x as u16, y as u16, in_block(x, y) as u16);
}

proof fn lemma_position_inverse(p: int)
    requires
        0 <= p < 8192,
    ensures
        0 <= column_in_block(p) < 64,
        0 <= row_in_block(p) < 128,
        in_block(column_in_block(p), row_in_block(p)) == p,
{
    lemma_position_bits(column_in_block(p) as u16, row_in_block(p) as u16, p as u16);
}

/// No two bytes of a surface share a storage offset.
pub proof fn offset_is_injective(x1: int, y1: int, x2: int, y2: int, pitch: int)
    requires
        pitch % 64 == 0,
        0 <= x1 < pitch,
        0 <= y1,
        0 <= x2 < pitch,
        0 <= y2,
        offset_of(x1, y1, pitch) == offset_of(x2, y2, pitch),
    ensures
        x1 == x2,
        y1 == y2,
{
    let p1 = in_block(x1 % 64, y1 % 128);
    let p2 = in_block(x2 % 64, y2 % 128);
    assert(0 <= p1 < 8192 && column_in_block(p1) == x1 % 64 && row_in_block(p1) == y1 % 128) by {
        lemma_in_block_bounds(x1 % 64, y1 % 128);
        lemma_in_block_inverse(x1 % 64, y1 % 128);
    }
    assert(0 <= p2 < 8192 && column_in_block(p2) == x2 % 64 && row_in_block(p2) == y2 % 128) by {
        lemma_in_block_bounds(x2 % 64, y2 % 128);
        lemma_in_block_inverse(x2 % 64, y2 % 128);
    }
    let b1 = block_of(x1, y1, pitch);
    let b2 = block_of(x2, y2, pitch);
    assert(b1 == b2 && p1 == p2) by (nonlinear_arith)
        requires
            b1 * 8192 + p1 == b2 * 8192 + p2,
            0 <= p1 < 8192,
            0 <= p2 < 8192,
    ;
    let n = pitch / 64;
    let (q1, q2) = (y1 / 128, y2 / 128);
    let (c1, c2) = (x1 / 64, x2 / 64);
    assert(q1 == q2 && c1 == c2) by (nonlinear_arith)
        requires
            q1 * n + c1 == q2 * n + c2,
            0 <= c1 < n,
            0 <= c2 < n,
    ;
}

/// A surface of whole blocks fills its storage exactly: every offset below
/// `pitch * rows` belongs to a byte of the surface, and no byte lies outside.
pub proof fn offset_stays_inside(x: int, y: int, pitch: int, rows: int)
    requires
        pitch % 64 == 0,
        rows % 128 == 0,
        0 <= x < pitch,
        0 <= y < rows,
    ensures
        0 <= offset_of(x, y, pitch) < pitch * rows,
{
    lemma_in_block_bounds(x % 64, y % 128);
    lemma_block_index(x, y, pitch);
    let n = pitch / 64;
    let m = rows / 128;
    assert((y / 128 + 1) * n <= m * n) by (nonlinear_arith)
        requires
            y / 128 + 1 <= m,
            n >= 0,
    ;
    assert(pitch * rows == m * n * 8192) by (nonlinear_arith)
        requires
            pitch == 64 * n,
            rows == 128 * m,
    ;
}

/// The byte column and row stored at `offset`.
pub open spec fn coordinates_of(offset: int, pitch: int) -> (int, int) {
    let block = offset / 8192;
    let inner = offset % 8192;
    (
        (block % (pitch / 64)) * 64 + column_in_block(inner),
        (block / (pitch / 64)) * 128 + row_in_block(inner),
    )
}

/// Every storage offset of a surface of whole blocks holds one of its bytes.
pub proof fn offset_is_surjective(offset: int, pitch: int, rows: int)
    requires
        pitch > 0,
        pitch % 64 == 0,
        rows % 128 == 0,
        0 <= offset < pitch * rows,
    ensures
        0 <= coordinates_of(offset, pitch).0 < pitch,
        0 <= coordinates_of(offset, pitch).1 < rows,
        offset_of(coordinates_of(offset, pitch).0, coordinates_of(offset, pitch).1, pitch)
            == offset,
{
    let n = pitch / 64;
    let m = rows / 128;
    let block = offset / 8192;
    let inner = offset % 8192;
    let (x, y) = coordinates_of(offset, pitch);
    assert(pitch * rows == (m * n) * 8192) by (nonlinear_arith)
        requires
            pitch == 64 * n,
            rows == 128 * m,
    ;
    assert(block < m * n);
    assert(0 <= block % n < n && 0 <= block / n < m && (block / n) * n + block % n == block)
        by (nonlinear_arith)
        requires
            0 <= block < m * n,
            n > 0,
    ;
    let (c, r) = (column_in_block(inner), row_in_block(inner));
    assert(0 <= c < 64 && 0 <= r < 128 && in_block(c, r) == inner) by {
        lemma_position_inverse(inner);
    }
    let (bx, by) = (block % n, block / n);
    assert(x / 64 == bx && x % 64 == c) by {
        assert(x == bx * 64 + c);
    }
    assert(y / 128 == by && y % 128 == r) by {
        assert(y == by * 128 + r);
    }
    assert(block_of(x, y, pitch) == block);
}

fn position_in_block(x: usize, y: usize) -> (position: usize)
    requires
        x < 64,
        y < 128,
    ensures
        position == in_block(x as int, y as int),
{
    (y / 8) * 512 + (x / 32) * 256 + ((y % 8) / 2) * 64 + ((x % 32) / 16) * 32 + (y % 2) * 16 + x
        % 16
}

/// Storage offset of byte column `x_byte` of row `y` in a surface whose rows
/// take `pitch` bytes.
pub fn byte_offset(x_byte: usize, y: usize, pitch: usize) -> (offset: usize)
    requires
        offset_of(x_byte as int, y as int, pitch as int) <= usize::MAX,
    ensures
        offset == offset_of(x_byte as int, y as int, pitch as int),
{
    proof {
        lemma_block_index(x_byte as int, y as int, pitch as int);
        lemma_in_block_bounds(x_byte as int % 64, y as int % 128);
    }
    let block: usize = ((y / 128) * (pitch / 64) + x_byte / 64) * 8192;
    block + position_in_block(x_byte % 64, y % 128)
}

/// The coordinates of a byte can be read back from its storage offset.
pub proof fn coordinates_are_inverse(x: int, y: int, pitch: int, rows: int)
    requires
        pitch % 64 == 0,
        rows % 128 == 0,
        0 <= x < pitch,
        0 <= y < rows,
    ensures
        coordinates_of(offset_of(x, y, pitch), pitch) == (x, y),
{
    offset_stays_inside(x, y, pitch, rows);
    let o = offset_of(x, y, pitch);
    offset_is_surjective(o, pitch, rows);
    let (a, b) = coordinates_of(o, pitch);
    offset_is_injective(a, b, x, y, pitch);
}

/// The bytes of one 16-byte sector follow each other in storage.
pub proof fn sectors_are_contiguous(x: int, y: int, pitch: int, k: int)
    requires
        0 <= x,
        0 <= y,
        0 <= k,
        x % 16 + k < 16,
        x + k <= u64::MAX,
    ensures
        offset_of(x + k, y, pitch) == offset_of(x, y, pitch) + k,
{
    lemma_sector(x as u64);
    lemma_sector((x + k) as u64);
    assert((x + k) / 16 == x / 16 && (x + k) % 16 == x % 16 + k);
}

/// All but the lowest bits of a column depend on its sector alone.
proof fn lemma_sector(x: u64)
    by (bit_vector)
    ensures
        x / 64 == (x / 16) / 4,
        (x % 64) / 32 == ((x / 16) % 4) / 2,
        ((x % 64) % 32) / 16 == (x / 16) % 2,
        (x % 64) % 16 == x % 16,
{
}

/// A byte's place tells its coordinates bit by bit: the lowest four bits of the column, the
/// lowest of the row, the next of the column, two of the row, one of the column, the rest of
/// the row in its block, and then the block, row by row of blocks.
pub proof fn places_interleave_coordinates(x: int, y: int, pitch: int)
    requires
        0 <= x < pitch,
        0 <= y,
        pitch % 64 == 0,
    ensures
        ({
            let o = offset_of(x, y, pitch);
            &&& o % 16 == x % 16
            &&& o / 16 % 2 == y % 2
            &&& o / 32 % 2 == x / 16 % 2
            &&& o / 64 % 4 == y / 2 % 4
            &&& o / 256 % 2 == x / 32 % 2
            &&& o / 512 % 16 == y / 8 % 16
            &&& o / 8192 == (y / 128) * (pitch / 64) + x / 64
        }),
{
    let b = block_of(x, y, pitch);
    let o = offset_of(x, y, pitch);
    lemma_row(y);
    lemma_column(x);
    lemma_digits(o, b, y / 8 % 16, x / 32 % 2, y / 2 % 4, x / 16 % 2, y % 2, x % 16);
}

proof fn lemma_row(y: int)
    requires
        0 <= y,
    ensures
        (y % 128) / 8 == y / 8 % 16,
        ((y % 128) % 8) / 2 == y / 2 % 4,
        (y % 128) % 2 == y % 2,
{
}

proof fn lemma_column(x: int)
    requires
        0 <= x,
    ensures
        (x % 64) / 32 == x / 32 % 2,
        ((x % 64) % 32) / 16 == x / 16 % 2,
        (x % 64) % 16 == x % 16,
{
}

proof fn lemma_peel(o: int, q: int, base: int, r: int)
    requires
        0 <= r < base,
        o == q * base + r,
    ensures
        o / base == q,
        o % base == r,
{
    vstd::arithmetic::div_mod::lemma_fundamental_div_mod_converse(o, base, q, r);
}

proof fn lemma_digits(o: int, b: int, g: int, f: int, e: int, d: int, c: int, a: int)
    requires
        o == b * 8192 + (g * 512 + f * 256 + e * 64 + d * 32 + c * 16 + a),
        0 <= g < 16,
        0 <= f < 2,
        0 <= e < 4,
        0 <= d < 2,
        0 <= c < 2,
        0 <= a < 16,
    ensures
        o % 16 == a,
        o / 16 % 2 == c,
        o / 32 % 2 == d,
        o / 64 % 4 == e,
        o / 256 % 2 == f,
        o / 512 % 16 == g,
        o / 8192 == b,
{
    let t5 = b * 16 + g;
    let t4 = t5 * 2 + f;
    let t3 = t4 * 4 + e;
    let t2 = t3 * 2 + d;
    let t1 = t2 * 2 + c;
    lemma_peel(o, t1, 16, a);
    lemma_peel(t1, t2, 2, c);
    lemma_peel(o, t2, 32, c * 16 + a);
    lemma_peel(t2, t3, 2, d);
    lemma_peel(o, t3, 64, d * 32 + c * 16 + a);
    lemma_peel(t3, t4, 4, e);
    lemma_peel(o, t4, 256, e * 64 + d * 32 + c * 16 + a);
    lemma_peel(t4, t5, 2, f);
    lemma_peel(o, t5, 512, f * 256 + e * 64 + d * 32 + c * 16 + a);
    lemma_peel(t5, b, 16, g);
    lemma_peel(o, b, 8192, g * 512 + f * 256 + e * 64 + d * 32 + c * 16 + a);
}

} // verus!
