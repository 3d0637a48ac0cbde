//! CRC-32 over the IEEE/gzip polynomial.
//!
//! The checksum is defined bit by bit ([`spec_crc32`]) and computed sixteen
//! bytes at a time from sixteen tables. `tables[k][b]` is the contribution of
//! byte `b` followed by `k` zero bytes; because one bit step is linear over
//! exclusive or, the sixteen contributions of a chunk add up to the bitwise
//! fold of the chunk, which is what is proved here.

use vstd::prelude::*;

verus! {

/// How many bytes one iteration of the sliced loop consumes.
pub const SLICES: usize = 16;

/// The reflected polynomial.
pub const POLYNOMIAL: u32 = 0xEDB8_8320;

/// One bit of the reflected division.
pub open spec fn bit_step(crc: u32) -> u32 {
    (crc >> 1) ^ (if crc & 1 == 1 {
        0xEDB8_8320u32
    } else {
        0u32
    })
}

pub open spec fn bit_steps(crc: u32, n: nat) -> u32
    decreases n,
{
    if n == 0 {
        crc
    } else {
        bit_step(bit_steps(crc, (n - 1) as nat))
    }
}

/// The remainder after `n` zero bytes are appended to the message.
pub open spec fn advance(crc: u32, n: nat) -> u32
    decreases n,
{
    if n == 0 {
        crc
    } else {
        bit_steps(advance(crc, (n - 1) as nat), 8)
    }
}

/// One byte of the message folded into the remainder.
pub open spec fn fold_byte(crc: u32, byte: u8) -> u32 {
    advance(crc ^ (byte as u32), 1)
}

pub open spec fn fold(crc: u32, bytes: Seq<u8>) -> u32
    decreases bytes.len(),
{
    if bytes.len() == 0 {
        crc
    } else {
        fold_byte(fold(crc, bytes.drop_last()), bytes.last())
    }
}

/// CRC-32: initial and final exclusive or with all ones.
pub open spec fn spec_crc32(bytes: Seq<u8>) -> u32 {
    !fold(0xFFFF_FFFFu32, bytes)
}

proof fn lemma_bit_steps_linear(a: u32, b: u32, n: nat)
    ensures
        bit_steps(a ^ b, n) == bit_steps(a, n) ^ bit_steps(b, n),
    decreases n,
{
    if n > 0 {
        lemma_bit_steps_linear(a, b, (n - 1) as nat);
        let x = bit_steps(a, (n - 1) as nat);
        let y = bit_steps(b, (n - 1) as nat);
        assert(bit_step(x ^ y) == bit_step(x) ^ bit_step(y)) by (bit_vector);
    }
}

proof fn lemma_advance_linear(a: u32, b: u32, n: nat)
    ensures
        advance(a ^ b, n) == advance(a, n) ^ advance(b, n),
    decreases n,
{
    if n > 0 {
        lemma_advance_linear(a, b, (n - 1) as nat);
        lemma_bit_steps_linear(advance(a, (n - 1) as nat), advance(b, (n - 1) as nat), 8);
    }
}

proof fn lemma_advance_more(x: u32, n: nat, m: nat)
    ensures
        advance(advance(x, n), m) == advance(x, n + m),
    decreases m,
{
    if m > 0 {
        lemma_advance_more(x, n, (m - 1) as nat);
    }
}

/// Dividing by the low byte only: a remainder whose low byte is zero is just
/// shifted.
proof fn lemma_step_high(x: u32)
    ensures
        bit_steps(x & 0xFFFF_FF00u32, 8) == x >> 8,
{
    reveal_with_fuel(bit_steps, 9);
    assert(bit_step(bit_step(bit_step(bit_step(bit_step(bit_step(bit_step(bit_step(x & 0xFFFF_FF00u32)))))))) == x >> 8)
        by (bit_vector);
}

/// One zero byte costs one lookup: the shifted remainder and the contribution
/// of its low byte.
proof fn lemma_table_step(x: u32)
    ensures
        advance(x, 1) == (x >> 8) ^ advance(x & 0xFF, 1),
{
    reveal_with_fuel(advance, 2);
    assert(x == (x & 0xFFFF_FF00u32) ^ (x & 0xFF)) by (bit_vector);
    lemma_bit_steps_linear(x & 0xFFFF_FF00u32, x & 0xFF, 8);
    lemma_step_high(x);
}

proof fn lemma_shifted_byte(b: u32, shift: u32)
    requires
        b < 256,
        shift == 8 || shift == 16 || shift == 24,
    ensures
        advance(b << shift, 1) == b << ((shift - 8) as u32),
{
    let x = b << shift;
    assert(x & 0xFF == 0 && x >> 8 == b << ((shift - 8) as u32)) by (bit_vector)
        requires
            x == b << shift,
            b < 256,
            shift == 8 || shift == 16 || shift == 24,
    ;
    lemma_table_step(x);
    lemma_advance_zero(1);
    let y = x >> 8;
    assert(y ^ 0 == y) by (bit_vector);
}

proof fn lemma_advance_zero(n: nat)
    ensures
        advance(0, n) == 0,
    decreases n,
{
    if n > 0 {
        lemma_advance_zero((n - 1) as nat);
        reveal_with_fuel(bit_steps, 9);
        assert(bit_step(0) == 0) by (bit_vector);
    }
}

/// The contribution of a byte `distance / 8` places up a remainder.
proof fn lemma_placed(b: u32, n: nat)
    requires
        b < 256,
        n >= 4,
    ensures
        advance(b << 8, n) == advance(b, (n - 1) as nat),
        advance(b << 16, n) == advance(b, (n - 2) as nat),
        advance(b << 24, n) == advance(b, (n - 3) as nat),
{
    lemma_shifted_byte(b, 8);
    lemma_shifted_byte(b, 16);
    lemma_shifted_byte(b, 24);
    assert(b << 0 == b) by (bit_vector);
    lemma_advance_more(b << 8, 1, (n - 1) as nat);
    lemma_advance_more(b << 16, 1, 1);
    lemma_advance_more(b << 16, 2, (n - 2) as nat);
    lemma_advance_more(b << 24, 1, 1);
    lemma_advance_more(b << 24, 2, 1);
    lemma_advance_more(b << 24, 3, (n - 3) as nat);
}

/// Folding a run of bytes is linear in the remainder: the remainder advances
/// past the run, and the run contributes on its own.
proof fn lemma_fold_linear(crc: u32, bytes: Seq<u8>)
    ensures
        fold(crc, bytes) == advance(crc, bytes.len()) ^ fold(0, bytes),
    decreases bytes.len(),
{
    if bytes.len() == 0 {
        assert(crc ^ 0 == crc) by (bit_vector);
    } else {
        let init = bytes.drop_last();
        let last = bytes.last() as u32;
        lemma_fold_linear(crc, init);
        let a = advance(crc, init.len());
        let f = fold(0, init);
        assert((a ^ f) ^ last == a ^ (f ^ last)) by (bit_vector);
        lemma_advance_linear(a, f ^ last, 1);
        lemma_advance_more(crc, init.len(), 1);
    }
}

/// Folding one byte before a run contributes that byte's remainder advanced
/// past the run.
proof fn lemma_fold_push_front(bytes: Seq<u8>)
    requires
        bytes.len() > 0,
    ensures
        fold(0, bytes) == advance(bytes[0] as u32, bytes.len()) ^ fold(0, bytes.skip(1)),
    decreases bytes.len(),
{
    lemma_fold_split(0, bytes, 1);
    let first = bytes.take(1);
    assert(first.drop_last() == Seq::<u8>::empty());
    reveal_with_fuel(fold, 2);
    let b = bytes[0] as u32;
    assert(0u32 ^ b == b) by (bit_vector);
    assert(fold(0, first) == advance(b, 1));
    lemma_fold_linear(fold(0, first), bytes.skip(1));
    lemma_advance_more(b, 1, (bytes.len() - 1) as nat);
}

proof fn lemma_fold_split(crc: u32, bytes: Seq<u8>, i: int)
    requires
        0 <= i <= bytes.len(),
    ensures
        fold(fold(crc, bytes.take(i)), bytes.skip(i)) == fold(crc, bytes),
    decreases bytes.len(),
{
    if i == bytes.len() {
        assert(bytes.take(i) == bytes);
        assert(bytes.skip(i).len() == 0);
    } else {
        lemma_fold_split(crc, bytes.drop_last(), i);
        assert(bytes.drop_last().take(i) == bytes.take(i));
        assert(bytes.drop_last().skip(i) == bytes.skip(i).drop_last());
        assert(bytes.skip(i).last() == bytes.last());
    }
}

/// What the tables hold.
pub open spec fn valid_tables(tables: Seq<Vec<u32>>) -> bool {
    &&& tables.len() == SLICES
    &&& forall|k: int| 0 <= k < SLICES ==> (#[trigger] tables[k])@.len() == 256
    &&& forall|k: int, b: int|
        0 <= k < SLICES && 0 <= b < 256 ==> #[trigger] tables[k]@[b] == advance(
            b as u32,
            (k + 1) as nat,
        )
}

/// The sixteen tables: `tables[0]` is the remainder of each single byte, and
/// each further table is the previous one advanced by a zero byte.
pub fn build_tables() -> (tables: Vec<Vec<u32>>)
    ensures
        valid_tables(tables@),
{
    let mut tables: Vec<Vec<u32>> = Vec::new();
    let mut first: Vec<u32> = Vec::new();
    let mut index: u32 = 0;
    while index < 256
        invariant
            index <= 256,
            first@.len() == index,
            forall|b: int| 0 <= b < index ==> first@[b] == advance(b as u32, 1),
        decreases 256 - index,
    {
        let mut crc: u32 = index;
        let mut bit: u32 = 0;
        while bit < 8
            invariant
                bit <= 8,
                crc == bit_steps(index, bit as nat),
            decreases 8 - bit,
        {
            let mask: u32 = if crc & 1 == 1 {
                POLYNOMIAL
            } else {
                0
            };
            crc = (crc >> 1) ^ mask;
            bit += 1;
        }
        assert(advance(index, 1) == bit_steps(index, 8)) by {
            reveal_with_fuel(advance, 2);
        }
        first.push(crc);
        index += 1;
    }
    tables.push(first);
    let mut slice: usize = 1;
    while slice < SLICES
        invariant
            1 <= slice <= SLICES,
            tables@.len() == slice,
            forall|k: int| 0 <= k < slice ==> (#[trigger] tables@[k])@.len() == 256,
            forall|k: int, b: int|
                0 <= k < slice && 0 <= b < 256 ==> #[trigger] tables@[k]@[b] == advance(
                    b as u32,
                    (k + 1) as nat,
                ),
        decreases SLICES - slice,
    {
        let mut next: Vec<u32> = Vec::new();
        let mut index: usize = 0;
        while index < 256
            invariant
                index <= 256,
                1 <= slice < SLICES,
                next@.len() == index,
                tables@.len() == slice,
                forall|k: int| 0 <= k < slice ==> (#[trigger] tables@[k])@.len() == 256,
                forall|k: int, b: int|
                    0 <= k < slice && 0 <= b < 256 ==> #[trigger] tables@[k]@[b] == advance(
                        b as u32,
                        (k + 1) as nat,
                    ),
                forall|b: int| 0 <= b < index ==> next@[b] == advance(b as u32, (slice + 1) as nat),
            decreases 256 - index,
        {
            let previous: u32 = tables[slice - 1][index];
            let low: u32 = previous & 0xFF;
            assert(low < 256) by (bit_vector)
                requires
                    low == previous & 0xFF,
            ;
            let value: u32 = (previous >> 8) ^ tables[0][low as usize];
            proof {
                assert(tables@[0]@[low as int] == advance(low, 1));
                lemma_table_step(previous);
                lemma_advance_more(index as u32, slice as nat, 1);
            }
            next.push(value);
            index += 1;
        }
        tables.push(next);
        slice += 1;
    }
    tables
}

/// One byte at a time.
fn fold_one(tables: &Vec<Vec<u32>>, crc: u32, byte: u8) -> (r: u32)
    requires
        valid_tables(tables@),
    ensures
        r == fold_byte(crc, byte),
{
    let mixed: u32 = crc ^ (byte as u32);
    let low: u32 = mixed & 0xFF;
    let b: u32 = byte as u32;
    assert(low < 256 && mixed >> 8 == crc >> 8) by (bit_vector)
        requires
            low == mixed & 0xFF,
            mixed == crc ^ b,
            b < 256,
    ;
    proof {
        lemma_table_step(mixed);
        assert(tables@[0]@[low as int] == advance(low, 1));
    }
    (crc >> 8) ^ tables[0][low as usize]
}

/// Sixteen bytes at a time.
fn fold_chunk(tables: &Vec<Vec<u32>>, crc: u32, chunk: &[u8]) -> (r: u32)
    requires
        valid_tables(tables@),
        chunk@.len() == 16,
    ensures
        r == fold(crc, chunk@),
{
    let c0: u32 = chunk[0] as u32;
    let c1: u32 = chunk[1] as u32;
    let c2: u32 = chunk[2] as u32;
    let c3: u32 = chunk[3] as u32;
    let word: u32 = c0 | (c1 << 8) | (c2 << 16) | (c3 << 24);
    let low: u32 = crc ^ word;
    let l0: u32 = low & 0xFF;
    let l1: u32 = (low >> 8) & 0xFF;
    let l2: u32 = (low >> 16) & 0xFF;
    let l3: u32 = low >> 24;
    assert(l0 < 256 && l1 < 256 && l2 < 256 && l3 < 256) by (bit_vector)
        requires
            l0 == low & 0xFF,
            l1 == (low >> 8) & 0xFF,
            l2 == (low >> 16) & 0xFF,
            l3 == low >> 24,
    ;
    proof {
        lemma_chunk(crc, chunk@, l0, l1, l2, l3);
        lemma_low_bytes(crc, c0, c1, c2, c3, low, l0, l1, l2, l3);
    }
    tables[15][l0 as usize] ^ tables[14][l1 as usize] ^ tables[13][l2 as usize]
        ^ tables[12][l3 as usize] ^ tables[11][chunk[4] as usize] ^ tables[10][chunk[5] as usize]
        ^ tables[9][chunk[6] as usize] ^ tables[8][chunk[7] as usize]
        ^ tables[7][chunk[8] as usize] ^ tables[6][chunk[9] as usize]
        ^ tables[5][chunk[10] as usize] ^ tables[4][chunk[11] as usize]
        ^ tables[3][chunk[12] as usize] ^ tables[2][chunk[13] as usize]
        ^ tables[1][chunk[14] as usize] ^ tables[0][chunk[15] as usize]
}

proof fn lemma_low_bytes(
    crc: u32,
    c0: u32,
    c1: u32,
    c2: u32,
    c3: u32,
    low: u32,
    l0: u32,
    l1: u32,
    l2: u32,
    l3: u32,
)
    by (bit_vector)
    requires
        c0 < 256,
        c1 < 256,
        c2 < 256,
        c3 < 256,
        low == crc ^ (c0 | (c1 << 8) | (c2 << 16) | (c3 << 24)),
        l0 == low & 0xFF,
        l1 == (low >> 8) & 0xFF,
        l2 == (low >> 16) & 0xFF,
        l3 == low >> 24,
    ensures
        low == crc ^ c0 ^ (c1 << 8) ^ (c2 << 16) ^ (c3 << 24),
        low == l0 ^ (l1 << 8) ^ (l2 << 16) ^ (l3 << 24),
{
}

/// The contribution of byte `i` of a chunk.
spec fn part(chunk: Seq<u8>, i: int) -> u32 {
    advance(chunk[i] as u32, (chunk.len() - i) as nat)
}

proof fn lemma_sixteen(chunk: Seq<u8>)
    requires
        chunk.len() == 16,
    ensures
        fold(0, chunk) == part(chunk, 0) ^ (part(chunk, 1) ^ (part(chunk, 2) ^ (part(chunk, 3) ^ (
        part(chunk, 4) ^ (part(chunk, 5) ^ (part(chunk, 6) ^ (part(chunk, 7) ^ (part(chunk, 8) ^ (
        part(chunk, 9) ^ (part(chunk, 10) ^ (part(chunk, 11) ^ (part(chunk, 12) ^ (part(chunk, 13)
            ^ (part(chunk, 14) ^ (part(chunk, 15) ^ 0))))))))))))))),
{
    lemma_suffix(chunk, 16);
    lemma_suffix(chunk, 15);
    lemma_suffix(chunk, 14);
    lemma_suffix(chunk, 13);
    lemma_suffix(chunk, 12);
    lemma_suffix(chunk, 11);
    lemma_suffix(chunk, 10);
    lemma_suffix(chunk, 9);
    lemma_suffix(chunk, 8);
    lemma_suffix(chunk, 7);
    lemma_suffix(chunk, 6);
    lemma_suffix(chunk, 5);
    lemma_suffix(chunk, 4);
    lemma_suffix(chunk, 3);
    lemma_suffix(chunk, 2);
    lemma_suffix(chunk, 1);
    lemma_suffix(chunk, 0);
    assert(chunk.skip(0) == chunk);
}

proof fn lemma_suffix(chunk: Seq<u8>, i: int)
    requires
        0 <= i <= chunk.len(),
    ensures
        i < chunk.len() ==> fold(0, chunk.skip(i)) == part(chunk, i) ^ fold(0, chunk.skip(i + 1)),
        i == chunk.len() ==> fold(0, chunk.skip(i)) == 0,
{
    if i < chunk.len() {
        lemma_fold_push_front(chunk.skip(i));
        assert(chunk.skip(i).skip(1) == chunk.skip(i + 1));
    }
}

proof fn lemma_chunk(crc: u32, chunk: Seq<u8>, l0: u32, l1: u32, l2: u32, l3: u32)
    requires
        chunk.len() == 16,
        l0 < 256,
        l1 < 256,
        l2 < 256,
        l3 < 256,
        ({
            let low = crc ^ (chunk[0] as u32 | ((chunk[1] as u32) << 8) | ((chunk[2] as u32) << 16)
                | ((chunk[3] as u32) << 24));
            &&& l0 == low & 0xFF
            &&& l1 == (low >> 8) & 0xFF
            &&& l2 == (low >> 16) & 0xFF
            &&& l3 == low >> 24
        }),
    ensures
        fold(crc, chunk) == advance(l0, 16) ^ advance(l1, 15) ^ advance(l2, 14) ^ advance(l3, 13)
            ^ part(chunk, 4) ^ part(chunk, 5) ^ part(chunk, 6) ^ part(chunk, 7) ^ part(chunk, 8)
            ^ part(chunk, 9) ^ part(chunk, 10) ^ part(chunk, 11) ^ part(chunk, 12) ^ part(chunk, 13)
            ^ part(chunk, 14) ^ part(chunk, 15),
{
    let c0 = chunk[0] as u32;
    let c1 = chunk[1] as u32;
    let c2 = chunk[2] as u32;
    let c3 = chunk[3] as u32;
    let low = crc ^ (c0 | (c1 << 8) | (c2 << 16) | (c3 << 24));
    lemma_low_bytes(crc, c0, c1, c2, c3, low, l0, l1, l2, l3);
    lemma_fold_linear(crc, chunk);
    lemma_sixteen(chunk);
    // The remainder and the first four bytes, advanced together.
    lemma_advance_linear(crc, c0, 16);
    lemma_advance_linear(crc ^ c0, c1 << 8, 16);
    lemma_advance_linear(crc ^ c0 ^ (c1 << 8), c2 << 16, 16);
    lemma_advance_linear(crc ^ c0 ^ (c1 << 8) ^ (c2 << 16), c3 << 24, 16);
    lemma_placed(c1, 16);
    lemma_placed(c2, 16);
    lemma_placed(c3, 16);
    // The same word, byte by byte.
    lemma_advance_linear(l0, l1 << 8, 16);
    lemma_advance_linear(l0 ^ (l1 << 8), l2 << 16, 16);
    lemma_advance_linear(l0 ^ (l1 << 8) ^ (l2 << 16), l3 << 24, 16);
    lemma_placed(l1, 16);
    lemma_placed(l2, 16);
    lemma_placed(l3, 16);
    lemma_rearrange(
        advance(crc, 16),
        part(chunk, 0),
        part(chunk, 1),
        part(chunk, 2),
        part(chunk, 3),
        part(chunk, 4),
        part(chunk, 5),
        part(chunk, 6),
        part(chunk, 7),
        part(chunk, 8),
        part(chunk, 9),
        part(chunk, 10),
        part(chunk, 11),
        part(chunk, 12),
        part(chunk, 13),
        part(chunk, 14),
        part(chunk, 15),
        advance(low, 16),
    );
}

proof fn lemma_rearrange(
    a: u32,
    p0: u32,
    p1: u32,
    p2: u32,
    p3: u32,
    p4: u32,
    p5: u32,
    p6: u32,
    p7: u32,
    p8: u32,
    p9: u32,
    p10: u32,
    p11: u32,
    p12: u32,
    p13: u32,
    p14: u32,
    p15: u32,
    w: u32,
)
    by (bit_vector)
    requires
        w == a ^ p0 ^ p1 ^ p2 ^ p3,
    ensures
        a ^ (p0 ^ (p1 ^ (p2 ^ (p3 ^ (p4 ^ (p5 ^ (p6 ^ (p7 ^ (p8 ^ (p9 ^ (p10 ^ (p11 ^ (p12 ^ (p13
            ^ (p14 ^ (p15 ^ 0)))))))))))))))) == w ^ p4 ^ p5 ^ p6 ^ p7 ^ p8 ^ p9 ^ p10 ^ p11 ^ p12
            ^ p13 ^ p14 ^ p15,
{
}

/// The checksum with its tables built.
pub struct Crc32 {
    tables: Vec<Vec<u32>>,
}

impl Crc32 {
    #[verifier::type_invariant]
    spec fn well_formed(self) -> bool {
        valid_tables(self.tables@)
    }

    pub fn new() -> Self {
        Crc32 { tables: build_tables() }
    }

    /// CRC-32 of `bytes`: whole chunks of sixteen through the tables, the
    /// rest one byte at a time.
    pub fn checksum(&self, bytes: &[u8]) -> (r: u32)
        ensures
            r == spec_crc32(bytes@),
    {
        proof {
            use_type_invariant(self);
        }
        let mut crc: u32 = 0xFFFF_FFFF;
        let mut at: usize = 0;
        assert(bytes@.take(0) == Seq::<u8>::empty());
        while bytes.len() - at >= SLICES
            invariant
                at <= bytes@.len(),
                valid_tables(self.tables@),
                crc == fold(0xFFFF_FFFFu32, bytes@.take(at as int)),
            decreases bytes@.len() - at,
        {
            let chunk = &bytes[at..at + SLICES];
            crc = fold_chunk(&self.tables, crc, chunk);
            proof {
                let longer = bytes@.take(at + 16);
                lemma_fold_split(0xFFFF_FFFFu32, longer, at as int);
                assert(longer.take(at as int) == bytes@.take(at as int));
                assert(longer.skip(at as int) == chunk@);
            }
            at += SLICES;
        }
        while at < bytes.len()
            invariant
                at <= bytes@.len(),
                valid_tables(self.tables@),
                crc == fold(0xFFFF_FFFFu32, bytes@.take(at as int)),
            decreases bytes@.len() - at,
        {
            crc = fold_one(&self.tables, crc, bytes[at]);
            assert(bytes@.take(at + 1).drop_last() == bytes@.take(at as int));
            at += 1;
        }
        assert(bytes@.take(bytes@.len() as int) == bytes@);
        !crc
    }
}

/// CRC-32 of `bytes` (reflected 0xEDB88320, initial and final XOR all-ones:
/// the gzip/zlib/PNG polynomial).
pub fn crc32(bytes: &[u8]) -> (r: u32)
    ensures
        r == spec_crc32(bytes@),
{
    Crc32::new().checksum(bytes)
}

/// Checksumming a message in two parts folds the second part into the
/// remainder of the first.
pub proof fn law_fold_concatenates(crc: u32, a: Seq<u8>, b: Seq<u8>)
    ensures
        fold(crc, a + b) == fold(fold(crc, a), b),
{
    lemma_fold_split(crc, a + b, a.len() as int);
    assert((a + b).take(a.len() as int) == a);
    assert((a + b).skip(a.len() as int) == b);
}

/// The checksum's numbers: it begins and ends with all bits flipped, folds each
/// byte in by exclusive or and eight shifts, and a shift that loses a bit adds
/// the reflected polynomial.
pub proof fn law_the_numbers_of_a_checksum(bytes: Seq<u8>, crc: u32, byte: u8)
    ensures
        spec_crc32(bytes) == !fold(4_294_967_295, bytes),
        fold(crc, Seq::empty()) == crc,
        fold(crc, bytes.push(byte)) == bit_steps(fold(crc, bytes) ^ (byte as u32), 8),
        crc & 1 == 1 ==> bit_step(crc) == (crc >> 1) ^ 3_988_292_384u32,
        crc & 1 == 0 ==> bit_step(crc) == crc >> 1,
        bit_steps(crc, 0) == crc,
        bit_steps(crc, 8) == bit_step(bit_steps(crc, 7)),
{
    reveal_with_fuel(advance, 2);
    assert(bytes.push(byte).drop_last() =~= bytes);
    assert((crc >> 1) ^ 0u32 == crc >> 1) by (bit_vector);
}

} // verus!
