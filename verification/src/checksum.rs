//! CRC32 (IEEE 802.3, the zlib/reflected variant), by which a feed lets its
//! readers validate their books.

use vstd::prelude::*;

verus! {

/// The generator polynomial, its bits in reflected order.
pub const POLYNOMIAL: u32 = 0xEDB8_8320;

/// One step of the division: the lowest bit leaves the register, and takes the
/// polynomial out if it was set.
pub open spec fn shifted(register: u32) -> u32 {
    if register & 1 == 1 {
        (register >> 1) ^ POLYNOMIAL
    } else {
        register >> 1
    }
}

/// `n` steps of the division.
pub open spec fn shifted_by(register: u32, n: nat) -> u32
    decreases n,
{
    if n == 0 {
        register
    } else {
        shifted(shifted_by(register, (n - 1) as nat))
    }
}

/// The register after `bytes` went through it, each with its lowest bit first.
pub open spec fn divided(register: u32, bytes: Seq<u8>) -> u32
    decreases bytes.len(),
{
    if bytes.len() == 0 {
        register
    } else {
        shifted_by(divided(register, bytes.drop_last()) ^ (bytes.last() as u32), 8)
    }
}

/// The CRC32 of `bytes`: all ones go into the register before the first byte,
/// and its complement is the checksum.
pub open spec fn crc32_of(bytes: Seq<u8>) -> u32 {
    !divided(0xFFFF_FFFF, bytes)
}

/// CRC32 (reflected, polynomial 0xEDB88320, init/final 0xFFFFFFFF) of `bytes`.
pub fn crc32(bytes: &[u8]) -> (crc: u32)
    ensures
        crc == crc32_of(bytes@),
{
    let mut crc: u32 = 0xFFFF_FFFF;
    let mut i: usize = 0;
    assert(bytes@.take(0) =~= Seq::<u8>::empty());
    while i < bytes.len()
        invariant
            i <= bytes@.len(),
            crc == divided(0xFFFF_FFFF, bytes@.take(i as int)),
        decreases bytes@.len() - i,
    {
        crc = crc ^ (bytes[i] as u32);
        let ghost start = crc;
        let mut bit: u32 = 0;
        while bit < 8
            invariant
                bit <= 8,
                crc == shifted_by(start, bit as nat),
            decreases 8 - bit,
        {
            crc = if crc & 1 == 1 {
                (crc >> 1) ^ POLYNOMIAL
            } else {
                crc >> 1
            };
            bit = bit + 1;
        }
        i = i + 1;
        proof {
            assert(bytes@.take(i as int).drop_last() =~= bytes@.take(i as int - 1));
            assert(bytes@.take(i as int).last() == bytes@[i as int - 1]);
        }
    }
    assert(bytes@.take(i as int) =~= bytes@);
    !crc
}

/// A checksum can be computed piece by piece: the register left by a first
/// part is where the second part starts.
pub proof fn law_pieces_follow_on(register: u32, a: Seq<u8>, b: Seq<u8>)
    ensures
        divided(register, a + b) == divided(divided(register, a), b),
    decreases b.len(),
{
    if b.len() == 0 {
        assert(a + b =~= a);
    } else {
        assert((a + b).drop_last() =~= a + b.drop_last());
        law_pieces_follow_on(register, a, b.drop_last());
    }
}

proof fn lemma_shifted_is_injective(x: u32, y: u32, n: nat)
    ensures
        shifted_by(x, n) == shifted_by(y, n) ==> x == y,
    decreases n,
{
    if n > 0 {
        let m = (n - 1) as nat;
        lemma_shifted_is_injective(x, y, m);
        let u = shifted_by(x, m);
        let v = shifted_by(y, m);
        assert(shifted(u) == shifted(v) ==> u == v) by (bit_vector);
    }
}

proof fn lemma_divided_is_injective(x: u32, y: u32, bytes: Seq<u8>)
    ensures
        divided(x, bytes) == divided(y, bytes) ==> x == y,
    decreases bytes.len(),
{
    if bytes.len() > 0 {
        let u = divided(x, bytes.drop_last());
        let v = divided(y, bytes.drop_last());
        let b = bytes.last() as u32;
        lemma_shifted_is_injective(u ^ b, v ^ b, 8);
        assert(u ^ b == v ^ b ==> u == v) by (bit_vector);
        lemma_divided_is_injective(x, y, bytes.drop_last());
    }
}

/// A text in which a single byte is altered has another checksum.
pub proof fn law_altered_byte_is_detected(before: Seq<u8>, a: u8, b: u8, after: Seq<u8>)
    requires
        a != b,
    ensures
        crc32_of(before + seq![a] + after) != crc32_of(before + seq![b] + after),
{
    let start = divided(0xFFFF_FFFF, before);
    law_pieces_follow_on(0xFFFF_FFFF, before, seq![a]);
    law_pieces_follow_on(0xFFFF_FFFF, before + seq![a], after);
    law_pieces_follow_on(0xFFFF_FFFF, before, seq![b]);
    law_pieces_follow_on(0xFFFF_FFFF, before + seq![b], after);
    assert(seq![a].drop_last() =~= Seq::<u8>::empty());
    assert(seq![b].drop_last() =~= Seq::<u8>::empty());
    let x = start ^ (a as u32);
    let y = start ^ (b as u32);
    assert(x != y) by {
        assert(start ^ (a as u32) == start ^ (b as u32) ==> a == b) by (bit_vector);
    }
    reveal_with_fuel(divided, 2);
    assert(divided(start, seq![a]) == shifted_by(x, 8));
    assert(divided(start, seq![b]) == shifted_by(y, 8));
    lemma_shifted_is_injective(x, y, 8);
    let p = divided(start, seq![a]);
    let q = divided(start, seq![b]);
    lemma_divided_is_injective(p, q, after);
    let u = divided(p, after);
    let v = divided(q, after);
    assert(!u == !v ==> u == v) by (bit_vector);
}

/// The register with its lowest bit divided out.
pub open spec fn reduced(register: u32) -> u32 {
    if register % 2 == 1 {
        (register / 2) ^ 0xEDB8_8320
    } else {
        register / 2
    }
}

/// The checksum of nothing is zero, and each byte more goes through the register,
/// which is the complement of the checksum: its bits are taken in, and eight of
/// them are divided out.
pub proof fn law_each_byte_is_divided_out(bytes: Seq<u8>, byte: u8)
    ensures
        crc32_of(Seq::empty()) == 0,
        !crc32_of(bytes.push(byte)) == reduced(
            reduced(
                reduced(
                    reduced(
                        reduced(reduced(reduced(reduced(!crc32_of(bytes) ^ (byte as u32))))),
                    ),
                ),
            ),
        ),
{
    assert(!0xFFFF_FFFFu32 == 0) by (bit_vector);
    assert(forall|r: u32| #[trigger] shifted(r) == reduced(r)) by {
        assert forall|r: u32| #[trigger] shifted(r) == reduced(r) by {
            assert(shifted(r) == reduced(r)) by (bit_vector);
        }
    }
    let register = divided(0xFFFF_FFFF, bytes);
    let after = divided(0xFFFF_FFFF, bytes.push(byte));
    assert(!(!register) == register) by (bit_vector);
    assert(!(!after) == after) by (bit_vector);
    assert(bytes.push(byte).drop_last() =~= bytes);
    reveal_with_fuel(shifted_by, 9);
}

/// The bytes of a checksum, the lowest first.
pub open spec fn bytes_of(crc: u32) -> Seq<u8> {
    seq![
        (crc & 0xFF) as u8,
        ((crc >> 8) & 0xFF) as u8,
        ((crc >> 16) & 0xFF) as u8,
        ((crc >> 24) & 0xFF) as u8,
    ]
}

proof fn lemma_shifting_is_linear(x: u32, y: u32, n: nat)
    ensures
        shifted_by(x ^ y, n) == shifted_by(x, n) ^ shifted_by(y, n),
    decreases n,
{
    if n > 0 {
        let m = (n - 1) as nat;
        lemma_shifting_is_linear(x, y, m);
        let u = shifted_by(x, m);
        let v = shifted_by(y, m);
        assert(shifted(u ^ v) == shifted(u) ^ shifted(v)) by (bit_vector);
    }
}

proof fn lemma_shifts_add_up(x: u32, m: nat, n: nat)
    ensures
        shifted_by(shifted_by(x, m), n) == shifted_by(x, m + n),
    decreases n,
{
    if n > 0 {
        lemma_shifts_add_up(x, m, (n - 1) as nat);
    }
}

/// Bits above the eighth move down by eight places in eight steps.
proof fn lemma_high_bits_move_down(x: u32)
    requires
        x & 0xFF == 0,
    ensures
        shifted_by(x, 8) == x >> 8,
{
    reveal_with_fuel(shifted_by, 9);
    assert(x & 0xFF == 0 ==> {
        &&& shifted(x) == x >> 1
        &&& shifted(x >> 1) == x >> 2
        &&& shifted(x >> 2) == x >> 3
        &&& shifted(x >> 3) == x >> 4
        &&& shifted(x >> 4) == x >> 5
        &&& shifted(x >> 5) == x >> 6
        &&& shifted(x >> 6) == x >> 7
        &&& shifted(x >> 7) == x >> 8
    }) by (bit_vector);
}

/// One byte taken in and divided out, where the register has taken in all higher
/// ones already.
proof fn lemma_byte_of_word(register: u32, word: u32)
    ensures
        shifted_by(register ^ (word & 0xFF), 8) ^ (word >> 8) == shifted_by(register ^ word, 8),
{
    let low = word & 0xFF;
    let high = word & 0xFFFF_FF00;
    assert(high & 0xFF == 0 && high >> 8 == word >> 8 && (register ^ low) ^ high == register
        ^ word) by (bit_vector)
        requires
            low == word & 0xFF,
            high == word & 0xFFFF_FF00,
    ;
    lemma_shifting_is_linear(register ^ low, high, 8);
    lemma_high_bits_move_down(high);
}

proof fn lemma_word_divided(register: u32, word: u32)
    ensures
        divided(register, bytes_of(word)) == shifted_by(register ^ word, 32),
{
    let w1 = word >> 8;
    let w2 = word >> 16;
    let w3 = word >> 24;
    let r1 = shifted_by(register ^ (word & 0xFF), 8);
    let r2 = shifted_by(r1 ^ (w1 & 0xFF), 8);
    let r3 = shifted_by(r2 ^ (w2 & 0xFF), 8);
    let r4 = shifted_by(r3 ^ (w3 & 0xFF), 8);
    let bytes = bytes_of(word);
    assert(((word & 0xFF) as u8) as u32 == word & 0xFF && (((word >> 8) & 0xFF) as u8) as u32 == (
    word >> 8) & 0xFF && (((word >> 16) & 0xFF) as u8) as u32 == (word >> 16) & 0xFF && (((word
        >> 24) & 0xFF) as u8) as u32 == (word >> 24) & 0xFF) by (bit_vector);
    let b1 = bytes.drop_last();
    let b2 = b1.drop_last();
    let b3 = b2.drop_last();
    assert(b3.drop_last() =~= Seq::<u8>::empty());
    assert(divided(register, b3.drop_last()) == register);
    assert(divided(register, b3) == r1);
    assert(divided(register, b2) == r2);
    assert(divided(register, b1) == r3);
    assert(divided(register, bytes) == r4);
    lemma_byte_of_word(register, word);
    lemma_byte_of_word(r1, w1);
    lemma_byte_of_word(r2, w2);
    lemma_byte_of_word(r3, w3);
    assert(w1 >> 8 == w2 && w2 >> 8 == w3 && w3 >> 8 == 0) by (bit_vector)
        requires
            w1 == word >> 8,
            w2 == word >> 16,
            w3 == word >> 24,
    ;
    assert(r4 ^ 0 == r4) by (bit_vector);
    lemma_shifts_add_up(register ^ word, 8, 8);
    lemma_shifts_add_up(register ^ word, 16, 8);
    lemma_shifts_add_up(register ^ word, 24, 8);
}

/// A message that carries its own checksum behind it, lowest byte first, has a
/// checksum that is the same for all messages.
pub proof fn law_own_checksum_leaves_a_fixed_residue(a: Seq<u8>, b: Seq<u8>)
    ensures
        crc32_of(a + bytes_of(crc32_of(a))) == crc32_of(b + bytes_of(crc32_of(b))),
{
    lemma_residue(a);
    lemma_residue(b);
}

proof fn lemma_residue(a: Seq<u8>)
    ensures
        crc32_of(a + bytes_of(crc32_of(a))) == !shifted_by(0xFFFF_FFFF, 32),
{
    let register = divided(0xFFFF_FFFF, a);
    law_pieces_follow_on(0xFFFF_FFFF, a, bytes_of(crc32_of(a)));
    lemma_word_divided(register, !register);
    assert(register ^ !register == 0xFFFF_FFFF) by (bit_vector);
}

} // verus!
