use vstd::prelude::*;
use vstd::arithmetic::div_mod::{lemma_add_mod_noop, lemma_sub_mod_noop, lemma_mod_add_multiples_vanish, lemma_small_mod};

verus! {

pub open spec fn modulus32() -> int {
    0x1_0000_0000
}

/// `x` reduced modulo 2^32.
pub open spec fn wrap32(x: int) -> u32 {
    (x % modulus32()) as u32
}

/// The little-endian 32-bit word at `b[i..i + 4]`.
pub open spec fn word_at(b: Seq<u8>, i: int) -> u32 {
    (b[i] as u32) | ((b[i + 1] as u32) << 8u32) | ((b[i + 2] as u32) << 16u32) | ((b[i + 3] as u32)
        << 24u32)
}

/// `b` with `v` written little-endian at `b[i..i + 4]`.
pub open spec fn with_word(b: Seq<u8>, i: int, v: u32) -> Seq<u8> {
    b.update(i, v as u8).update(i + 1, (v >> 8u32) as u8).update(i + 2, (v >> 16u32) as u8).update(
        i + 3,
        (v >> 24u32) as u8,
    )
}

/// The four little-endian bytes of `v` recombine to `v`.
pub proof fn lemma_bytes_of_word(v: u32)
    ensures
        ((v as u8) as u32) | ((((v >> 8u32) as u8) as u32) << 8u32) | ((((v >> 16u32) as u8) as u32)
            << 16u32) | ((((v >> 24u32) as u8) as u32) << 24u32) == v,
{
    assert(((v as u8) as u32) | ((((v >> 8u32) as u8) as u32) << 8u32) | ((((v >> 16u32) as u8) as u32)
        << 16u32) | ((((v >> 24u32) as u8) as u32) << 24u32) == v) by (bit_vector);
}

/// Writing a word and reading it back gives the word; nothing else changes.
pub proof fn lemma_word_round_trip(b: Seq<u8>, i: int, v: u32)
    requires
        0 <= i,
        i + 4 <= b.len(),
    ensures
        word_at(with_word(b, i, v), i) == v,
        with_word(b, i, v).len() == b.len(),
        forall|j: int|
            0 <= j < b.len() && (j < i || j >= i + 4) ==> #[trigger] with_word(b, i, v)[j] == b[j],
{
    let w = with_word(b, i, v);
    assert(w[i] == v as u8);
    assert(w[i + 1] == (v >> 8u32) as u8);
    assert(w[i + 2] == (v >> 16u32) as u8);
    assert(w[i + 3] == (v >> 24u32) as u8);
    lemma_bytes_of_word(v);
}

/// Reads the little-endian word at `buffer[offset..offset + 4]`.
pub fn read_u32_le(buffer: &Vec<u8>, offset: usize) -> (r: u32)
    requires
        offset + 4 <= buffer@.len(),
    ensures
        r == word_at(buffer@, offset as int),
{
    let _n = buffer.len();
    (buffer[offset] as u32) | ((buffer[offset + 1] as u32) << 8u32) | ((buffer[offset + 2] as u32)
        << 16u32) | ((buffer[offset + 3] as u32) << 24u32)
}

/// Writes `value` little-endian at `buffer[offset..offset + 4]`.
pub fn write_u32_le(buffer: &mut Vec<u8>, offset: usize, value: u32)
    requires
        offset + 4 <= old(buffer)@.len(),
    ensures
        final(buffer)@ == with_word(old(buffer)@, offset as int, value),
{
    let _n = buffer.len();
    buffer[offset] = #[verifier::truncate] (value as u8);
    buffer[offset + 1] = #[verifier::truncate] ((value >> 8u32) as u8);
    buffer[offset + 2] = #[verifier::truncate] ((value >> 16u32) as u8);
    buffer[offset + 3] = #[verifier::truncate] ((value >> 24u32) as u8);
}

/// `x` reduced modulo 2^32.
pub fn wrap_usize(x: usize) -> (r: u32)
    ensures
        r == wrap32(x as int),
{
    ((x as u64) % 0x1_0000_0000u64) as u32
}

/// Patches an absolute relocation: writes `value`, plus the word already in
/// place when `add_current_value` holds, modulo 2^32.
pub fn patch_abs_reloc(buffer: &mut Vec<u8>, offset: usize, size: usize, value: usize, add_current_value: bool)
    requires
        size == 4,
        offset + 4 <= old(buffer)@.len(),
    ensures
        final(buffer)@ == with_word(
            old(buffer)@,
            offset as int,
            wrap32(
                value + if add_current_value {
                    word_at(old(buffer)@, offset as int) as int
                } else {
                    0
                },
            ),
        ),
        word_at(final(buffer)@, offset as int) == wrap32(
            value + if add_current_value {
                word_at(old(buffer)@, offset as int) as int
            } else {
                0
            },
        ),
{
    let current_value: u32 = if add_current_value {
        read_u32_le(buffer, offset)
    } else {
        0
    };
    let v = wrap_usize(value);
    let sum = ((v as u64 + current_value as u64) % 0x1_0000_0000u64) as u32;
    proof {
        let m = modulus32();
        lemma_add_mod_noop(value as int, current_value as int, m);
        lemma_small_mod(current_value as nat, m as nat);
    }
    write_u32_le(buffer, offset, sum);
    proof {
        lemma_word_round_trip(old(buffer)@, offset as int, sum);
    }
}

/// Patches a pc-relative relocation at `offset` of a region loaded at
/// `base_address`: writes `value` minus the address just past the patched
/// word, modulo 2^32. The word in place is not added.
pub fn patch_rel_reloc(buffer: &mut Vec<u8>, offset: usize, base_address: usize, size: usize, value: usize)
    requires
        size == 4,
        offset + 4 <= old(buffer)@.len(),
    ensures
        final(buffer)@ == with_word(
            old(buffer)@,
            offset as int,
            wrap32(value - (base_address + offset + size)),
        ),
        word_at(final(buffer)@, offset as int) == wrap32(value - (base_address + offset + size)),
{
    let m: u64 = 0x1_0000_0000;
    let place = (((base_address as u64) % m + (offset as u64) % m + 4) % m) as u32;
    let target = wrap_usize(value);
    let relative = ((target as u64 + m - place as u64) % m) as u32;
    proof {
        let mi = modulus32();
        let p = base_address + offset + size;
        lemma_add_mod_noop(base_address as int, offset as int, mi);
        lemma_add_mod_noop((base_address + offset) as int, 4, mi);
        lemma_add_mod_noop(((base_address as int) % mi + (offset as int) % mi) as int, 4, mi);
        assert(place == p % mi);
        lemma_sub_mod_noop(value as int, p as int, mi);
        lemma_mod_add_multiples_vanish(target - place, mi);
        assert(relative == (value - p) % mi);
    }
    patch_abs_reloc(buffer, offset, size, relative as usize, false);
    proof {
        lemma_small_mod(relative as nat, modulus32() as nat);
    }
}

} // verus!
