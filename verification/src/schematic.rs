use vstd::prelude::*;

use crate::emulator::copy_program;

verus! {

/// Byte `m` of instruction `k` of a program padded with zero words.
pub open spec fn code_byte(code: Seq<[u8; 4]>, k: int, m: int) -> u8 {
    if k < code.len() {
        code[k]@[m]
    } else {
        0
    }
}

/// Bit `s` of a byte.
pub open spec fn bit_of(v: u8, s: int) -> u8 {
    (v >> (s as u8)) & 1
}

/// The bit of instruction `16 * j + i + 64 * x` that barrel `b` of column
/// `(x, i)` holds as its bit `j`: bit `b % 4` of byte `b / 4 + 2 * half`.
pub open spec fn barrel_bit(code: Seq<[u8; 4]>, x: int, i: int, b: int, half: int, j: int) -> u8 {
    bit_of(code_byte(code, i + 16 * j + 64 * x, b / 4 + 2 * half), b % 4)
}

/// The weight of bit `j` of a nibble.
pub open spec fn weight(j: int) -> int {
    if j == 0 {
        1
    } else if j == 1 {
        2
    } else if j == 2 {
        4
    } else {
        8
    }
}

/// A bit times the weight of position `j` of a nibble.
pub open spec fn weighted(bit: int, j: int) -> int {
    if j == 0 {
        bit
    } else if j == 1 {
        2 * bit
    } else if j == 2 {
        4 * bit
    } else {
        8 * bit
    }
}

/// The sum of the first `j` weighted bits of a barrel.
pub open spec fn barrel_partial(code: Seq<[u8; 4]>, x: int, i: int, b: int, half: int, j: int) -> int
    decreases j,
{
    if j <= 0 {
        0
    } else {
        barrel_partial(code, x, i, b, half, j - 1) + weighted(
            barrel_bit(code, x, i, b, half, j - 1) as int,
            j - 1,
        )
    }
}

/// The signal strength of barrel `b` in row `r` of a half of the image:
/// bit `b % 4` of byte `b / 4 + 2 * half` of the four instructions
/// `r % 16 + 64 * (r / 16) + 16 * j`, `j = 0..4`, as the bits of a nibble.
pub open spec fn barrel_value(code: Seq<[u8; 4]>, r: int, b: int, half: int) -> u8 {
    let x = r / 16;
    let i = r % 16;
    (barrel_bit(code, x, i, b, half, 0) + 2 * barrel_bit(code, x, i, b, half, 1) + 4 * barrel_bit(
        code,
        x,
        i,
        b,
        half,
        2,
    ) + 8 * barrel_bit(code, x, i, b, half, 3)) as u8
}

/// One half of the barrel image of a program: 64 rows of 8 barrels.
pub open spec fn is_barrel_half(code: Seq<[u8; 4]>, rows: Seq<[u8; 8]>, half: int) -> bool {
    &&& rows.len() == 64
    &&& forall|r: int, b: int|
        0 <= r < 64 && 0 <= b < 8 ==> #[trigger] rows[r]@[b] == barrel_value(code, r, b, half)
}

/// The barrel column `(x, i)` of one half of the image.
fn barrel_column(code: &Vec<[u8; 4]>, x: usize, i: usize, half: usize) -> (col: [u8; 8])
    requires
        code@.len() >= 256,
        x < 4,
        i < 16,
        half < 2,
    ensures
        forall|b: int| 0 <= b < 8 ==> #[trigger] col@[b] == barrel_value(code@, 16 * x + i, b, half as int),
{
    let mut col: [u8; 8] = [0, 0, 0, 0, 0, 0, 0, 0];
    for b in 0..8usize
        invariant
            code@.len() >= 256,
            x < 4,
            i < 16,
            half < 2,
            forall|c: int| 0 <= c < b ==> #[trigger] col@[c] == barrel_value(code@, 16 * x + i, c, half as int),
    {
        let mut barrel: u8 = 0;
        for j in 0..4usize
            invariant
                code@.len() >= 256,
                x < 4,
                i < 16,
                half < 2,
                b < 8,
                barrel == barrel_partial(code@, x as int, i as int, b as int, half as int, j as int),
                barrel < (if j < 4 { weight(j as int) } else { 16 }),
        {
            let byte = code[i + 16 * j + 64 * x][b / 4 + 2 * half];
            let s = (b % 4) as u8;
            let bit = (byte >> s) & 1;
            assert(bit <= 1) by (bit_vector)
                requires bit == (byte >> s) & 1;
            let sh = j as u8;
            let add = bit << sh;
            assert(add == (if sh == 0 { bit as int } else if sh == 1 { 2 * bit } else if sh == 2 { 4 * bit } else { 8 * bit })) by (bit_vector)
                requires add == bit << sh, bit <= 1, sh < 4;
            assert(bit == barrel_bit(code@, x as int, i as int, b as int, half as int, j as int));
            barrel = barrel + add;
        }
        assert(barrel_partial(code@, x as int, i as int, b as int, half as int, 4) == barrel_value(
            code@,
            16 * x + i,
            b as int,
            half as int,
        )) by {
            assert((16 * x + i) / 16 == x);
            assert((16 * x + i) % 16 == i);
            reveal_with_fuel(barrel_partial, 5);
            let xi = x as int;
            let ii = i as int;
            let bi = b as int;
            let hi = half as int;
            assert(barrel_partial(code@, xi, ii, bi, hi, 1) == barrel_bit(code@, xi, ii, bi, hi, 0));
            assert(barrel_partial(code@, xi, ii, bi, hi, 2) == barrel_partial(code@, xi, ii, bi, hi, 1)
                + 2 * barrel_bit(code@, xi, ii, bi, hi, 1));
            assert(barrel_partial(code@, xi, ii, bi, hi, 3) == barrel_partial(code@, xi, ii, bi, hi, 2)
                + 4 * barrel_bit(code@, xi, ii, bi, hi, 2));
            assert(barrel_partial(code@, xi, ii, bi, hi, 4) == barrel_partial(code@, xi, ii, bi, hi, 3)
                + 8 * barrel_bit(code@, xi, ii, bi, hi, 3));
            assert(barrel_partial(code@, xi, ii, bi, hi, 4) == barrel_bit(code@, xi, ii, bi, hi, 0)
                + 2 * barrel_bit(code@, xi, ii, bi, hi, 1) + 4 * barrel_bit(code@, xi, ii, bi, hi, 2)
                + 8 * barrel_bit(code@, xi, ii, bi, hi, 3));
        }
        col[b] = barrel;
    }
    col
}

/// One half of the barrel image of a program of at least 256 instructions.
fn barrel_half(padded: &Vec<[u8; 4]>, half: usize) -> (rows: Vec<[u8; 8]>)
    requires
        padded@.len() >= 256,
        half < 2,
    ensures
        is_barrel_half(padded@, rows@, half as int),
{
    let mut rows: Vec<[u8; 8]> = Vec::new();
    for x in 0..4usize
        invariant
            padded@.len() >= 256,
            half < 2,
            rows@.len() == 16 * x,
            forall|r: int, b: int|
                0 <= r < rows@.len() && 0 <= b < 8 ==> #[trigger] rows@[r]@[b] == barrel_value(
                    padded@,
                    r,
                    b,
                    half as int,
                ),
    {
        for i in 0..16usize
            invariant
                padded@.len() >= 256,
                half < 2,
                x < 4,
                rows@.len() == 16 * x + i,
                forall|r: int, b: int|
                    0 <= r < rows@.len() && 0 <= b < 8 ==> #[trigger] rows@[r]@[b] == barrel_value(
                        padded@,
                        r,
                        b,
                        half as int,
                    ),
        {
            let col = barrel_column(padded, x, i, half);
            rows.push(col);
        }
    }
    rows
}

/// The barrel image of a program: the program, padded with zero words to 256
/// instructions, as two halves of 64 rows of 8 barrels; the first half holds
/// the low nibbles of bytes 0 and 1 of each instruction, the second those of
/// bytes 2 and 3.
pub fn bytes_to_barrelcode(bytecode: &Vec<[u8; 4]>) -> (barrels: (Vec<[u8; 8]>, Vec<[u8; 8]>))
    ensures
        is_barrel_half(bytecode@, barrels.0@, 0),
        is_barrel_half(bytecode@, barrels.1@, 1),
{
    let mut padded = copy_program(bytecode);
    while padded.len() < 256
        invariant
            padded@.len() >= bytecode@.len(),
            forall|k: int, m: int|
                0 <= k < padded@.len() && 0 <= m < 4 ==> #[trigger] padded@[k]@[m] == code_byte(
                    bytecode@,
                    k,
                    m,
                ),
        decreases 256 - padded.len(),
    {
        padded.push([0, 0, 0, 0]);
    }
    assert forall|r: int, b: int, half: int|
        0 <= r < 64 && 0 <= b < 8 && 0 <= half < 2 implies #[trigger] barrel_value(padded@, r, b, half)
        == barrel_value(bytecode@, r, b, half) by {
        assert(0 <= r % 16 < 16 && 0 <= r / 16 < 4);
        assert(0 <= b / 4 < 2);
    }
    let barrels1 = barrel_half(&padded, 0);
    let barrels2 = barrel_half(&padded, 1);
    (barrels1, barrels2)
}


/// Bit `s` of byte `m` of instruction `k` as read back from a barrel image:
/// bit `(k % 64) / 16` of barrel `4 * (m % 2) + s` in row
/// `16 * (k / 64) + k % 16` of half `m / 2`.
pub open spec fn image_bit(b1: Seq<[u8; 8]>, b2: Seq<[u8; 8]>, k: int, m: int, s: int) -> u8 {
    let row = 16 * (k / 64) + k % 16;
    let b = 4 * (m % 2) + s;
    let v = if m / 2 == 0 {
        b1[row]@[b]
    } else {
        b2[row]@[b]
    };
    bit_of(v, (k % 64) / 16)
}

/// The bits of a nibble assembled from four bits read back one by one.
proof fn lemma_nibble_bits(b0: u8, b1: u8, b2: u8, b3: u8)
    requires
        b0 <= 1,
        b1 <= 1,
        b2 <= 1,
        b3 <= 1,
    ensures
        bit_of((b0 + 2 * b1 + 4 * b2 + 8 * b3) as u8, 0) == b0,
        bit_of((b0 + 2 * b1 + 4 * b2 + 8 * b3) as u8, 1) == b1,
        bit_of((b0 + 2 * b1 + 4 * b2 + 8 * b3) as u8, 2) == b2,
        bit_of((b0 + 2 * b1 + 4 * b2 + 8 * b3) as u8, 3) == b3,
{
    let v = (b0 + 2 * b1 + 4 * b2 + 8 * b3) as u8;
    assert((v >> 0u8) & 1 == b0 && (v >> 1u8) & 1 == b1 && (v >> 2u8) & 1 == b2 && (v >> 3u8) & 1
        == b3) by (bit_vector)
        requires
            b0 <= 1 && b1 <= 1 && b2 <= 1 && b3 <= 1,
            v == (b0 + 2 * b1 + 4 * b2 + 8 * b3) as u8,
    ;
}

/// A bit of a byte is 0 or 1.
proof fn lemma_bit_of_le_1(v: u8, s: int)
    ensures
        bit_of(v, s) <= 1,
{
    let sh = s as u8;
    assert((v >> sh) & 1 <= 1) by (bit_vector);
}

/// The barrel image loses nothing of the low nibbles: bit `s < 4` of every
/// byte of the first 256 instructions (zero past the end of the program)
/// can be read back from it.
pub proof fn lemma_barrels_keep_low_nibbles(code: Seq<[u8; 4]>, b1: Seq<[u8; 8]>, b2: Seq<[u8; 8]>)
    requires
        is_barrel_half(code, b1, 0),
        is_barrel_half(code, b2, 1),
    ensures
        forall|k: int, m: int, s: int|
            0 <= k < 256 && 0 <= m < 4 && 0 <= s < 4 ==> #[trigger] image_bit(b1, b2, k, m, s)
                == bit_of(code_byte(code, k, m), s),
{
    assert forall|k: int, m: int, s: int|
        0 <= k < 256 && 0 <= m < 4 && 0 <= s < 4 implies #[trigger] image_bit(b1, b2, k, m, s)
        == bit_of(code_byte(code, k, m), s) by {
        let x = k / 64;
        let i = k % 16;
        let j = (k % 64) / 16;
        let row = 16 * x + i;
        let half = m / 2;
        let b = 4 * (m % 2) + s;
        assert(0 <= row < 64 && 0 <= b < 8);
        assert(row / 16 == x && row % 16 == i);
        assert(b / 4 + 2 * half == m && b % 4 == s);
        let v = barrel_value(code, row, b, half);
        assert(v == if half == 0 { b1[row]@[b] } else { b2[row]@[b] });
        let c0 = barrel_bit(code, x, i, b, half, 0);
        let c1 = barrel_bit(code, x, i, b, half, 1);
        let c2 = barrel_bit(code, x, i, b, half, 2);
        let c3 = barrel_bit(code, x, i, b, half, 3);
        lemma_bit_of_le_1(code_byte(code, i + 64 * x, m), s);
        lemma_bit_of_le_1(code_byte(code, i + 16 + 64 * x, m), s);
        lemma_bit_of_le_1(code_byte(code, i + 32 + 64 * x, m), s);
        lemma_bit_of_le_1(code_byte(code, i + 48 + 64 * x, m), s);
        lemma_nibble_bits(c0, c1, c2, c3);
        assert(k == i + 16 * j + 64 * x);
        assert(0 <= j < 4);
    }
}

/// A block of the barrel schematic: a barrel with a comparator signal
/// strength, or (for `None`) a stone block.
#[derive(Debug, Clone, Copy, PartialEq, Eq, Structural)]
pub struct BlockPlacement {
    pub x: usize,
    pub y: usize,
    pub z: usize,
    pub barrel: Option<u8>,
}

/// The block for a barrel value: a barrel for signal strengths 1 to 15,
/// stone otherwise.
pub open spec fn block_at(x: int, y: int, z: int, v: u8) -> BlockPlacement {
    BlockPlacement {
        x: x as usize,
        y: y as usize,
        z: z as usize,
        barrel: if 1 <= v <= 15 { Some(v) } else { None },
    }
}

/// Placement `q` of the schematic: for column `x < 4`, row `z < 16` and
/// barrel `y < 8`, in that nesting order, first the block of the first half
/// of the image at `(4x, 2y, 2z + 2)`, then that of the second half at
/// `(74 + 4x, 2y, 2z + 2)`.
pub open spec fn placement_at(b1: Seq<[u8; 8]>, b2: Seq<[u8; 8]>, q: int) -> BlockPlacement {
    let x = q / 256;
    let z = (q / 16) % 16;
    let y = (q / 2) % 8;
    if q % 2 == 0 {
        block_at(4 * x, 2 * y, 2 * z + 2, b1[z + 16 * x]@[y])
    } else {
        block_at(74 + 4 * x, 2 * y, 2 * z + 2, b2[z + 16 * x]@[y])
    }
}

/// The blocks of the barrel schematic of an image, in placement order.
pub fn schematic_placements(barrels: &(Vec<[u8; 8]>, Vec<[u8; 8]>)) -> (blocks: Vec<
    BlockPlacement,
>)
    requires
        barrels.0@.len() >= 64,
        barrels.1@.len() >= 64,
    ensures
        blocks@.len() == 1024,
        forall|q: int| 0 <= q < 1024 ==> #[trigger] blocks@[q] == placement_at(barrels.0@, barrels.1@, q),
{
    let mut blocks: Vec<BlockPlacement> = Vec::new();
    for x in 0..4usize
        invariant
            barrels.0@.len() >= 64,
            barrels.1@.len() >= 64,
            blocks@.len() == 256 * x,
            forall|q: int| 0 <= q < blocks@.len() ==> #[trigger] blocks@[q] == placement_at(barrels.0@, barrels.1@, q),
    {
        for z in 0..16usize
            invariant
                barrels.0@.len() >= 64,
                barrels.1@.len() >= 64,
                x < 4,
                blocks@.len() == 256 * x + 16 * z,
                forall|q: int| 0 <= q < blocks@.len() ==> #[trigger] blocks@[q] == placement_at(barrels.0@, barrels.1@, q),
        {
            for y in 0..8usize
                invariant
                    barrels.0@.len() >= 64,
                    barrels.1@.len() >= 64,
                    x < 4,
                    z < 16,
                    blocks@.len() == 256 * x + 16 * z + 2 * y,
                    forall|q: int| 0 <= q < blocks@.len() ==> #[trigger] blocks@[q] == placement_at(barrels.0@, barrels.1@, q),
            {
                let v1 = barrels.0[z + 16 * x][y];
                let v2 = barrels.1[z + 16 * x][y];
                let q = blocks.len();
                proof {
                    let qi = q as int;
                    assert(qi / 256 == x && (qi / 16) % 16 == z && (qi / 2) % 8 == y && qi % 2 == 0);
                    assert((qi + 1) / 256 == x && ((qi + 1) / 16) % 16 == z && ((qi + 1) / 2) % 8 == y
                        && (qi + 1) % 2 == 1);
                }
                let p1 = BlockPlacement {
                    x: 4 * x,
                    y: 2 * y,
                    z: 2 * z + 2,
                    barrel: if 1 <= v1 && v1 <= 15 { Some(v1) } else { None },
                };
                blocks.push(p1);
                let p2 = BlockPlacement {
                    x: 74 + 4 * x,
                    y: 2 * y,
                    z: 2 * z + 2,
                    barrel: if 1 <= v2 && v2 <= 15 { Some(v2) } else { None },
                };
                blocks.push(p2);
            }
        }
    }
    blocks
}

} // verus!
