//! One-way fingerprints of recovery answers and resource names.
use vstd::arithmetic::div_mod::{
    lemma_add_mod_noop, lemma_mod_add_multiples_vanish, lemma_mod_multiples_vanish,
    lemma_mod_sub_multiples_vanish, lemma_mod_twice, lemma_mul_mod_noop_left, lemma_small_mod,
};
use crate::ascii::{ascii_lower, ascii_upper, is_lower_alnum_byte};
use vstd::prelude::*;
use vstd::string::*;
use vstd::utf8::encode_utf8;
use vstd::wrapping::i32_specs::signed_crop;
use vstd::wrapping::u64_specs::{wrapping_add, wrapping_mul, wrapping_sub};

verus! {

/// How many bytes the recovery fingerprint takes in: those that are letters
/// or digits once lowercased.
pub open spec fn accepted_count(bytes: Seq<u8>) -> nat
    decreases bytes.len(),
{
    if bytes.len() == 0 {
        0
    } else if is_lower_alnum_byte(ascii_lower(bytes.last())) {
        accepted_count(bytes.drop_last()) + 1
    } else {
        accepted_count(bytes.drop_last())
    }
}

/// One step of the recovery fingerprint on 64-bit wrapping arithmetic:
/// `hash * 47 * (hash - c*6 - idx*7) + (c - 32 + idx*c)`.
pub open spec fn recovery_step(hash: u64, idx: u64, c: u64) -> u64 {
    wrapping_add(
        wrapping_mul(
            wrapping_mul(hash, 47),
            wrapping_sub(wrapping_sub(hash, wrapping_mul(c, 6)), wrapping_mul(idx, 7)),
        ),
        wrapping_add(wrapping_sub(c, 32), wrapping_mul(idx, c)),
    )
}

/// The recovery fingerprint of a byte string: the bytes are lowercased, those
/// that are not letters or digits are skipped, and each other byte `c` is the
/// `idx`-th taken in by one `recovery_step`.
pub open spec fn recovery_hash(bytes: Seq<u8>) -> u64
    decreases bytes.len(),
{
    if bytes.len() == 0 {
        0
    } else {
        let pre = bytes.drop_last();
        let c = ascii_lower(bytes.last());
        if is_lower_alnum_byte(c) {
            recovery_step(recovery_hash(pre), accepted_count(pre) as u64, c as u64)
        } else {
            recovery_hash(pre)
        }
    }
}

proof fn lemma_accepted_count_bound(bytes: Seq<u8>)
    ensures
        accepted_count(bytes) <= bytes.len(),
    decreases bytes.len(),
{
    if bytes.len() > 0 {
        lemma_accepted_count_bound(bytes.drop_last());
    }
}

/// Fingerprints a recovery answer. Letters are folded to lowercase, bytes that
/// are not ASCII letters or digits are skipped, and the rest are mixed in
/// with `recovery_step`; the result of an answer with no letter or digit is 0.
pub fn hash_recovery_answer(answer: String) -> (r: u64)
    ensures
        r == recovery_hash(encode_utf8(answer@)),
{
    let bytes = answer.as_str().as_bytes_vec();
    let mut hash: u64 = 0;
    let mut idx: u64 = 0;
    let mut i: usize = 0;
    while i < bytes.len()
        invariant
            i <= bytes@.len(),
            bytes@ == encode_utf8(answer@),
            hash == recovery_hash(bytes@.subrange(0, i as int)),
            idx == accepted_count(bytes@.subrange(0, i as int)),
        decreases bytes@.len() - i,
    {
        let b = bytes[i];
        let c: u8 = if b >= 65 && b <= 90 {
            b + 32
        } else {
            b
        };
        proof {
            let pre = bytes@.subrange(0, i as int);
            let next = bytes@.subrange(0, i + 1);
            assert(next.drop_last() =~= pre);
            assert(next.last() == b);
            lemma_accepted_count_bound(pre);
        }
        if (c >= 97 && c <= 122) || (c >= 48 && c <= 57) {
            let cp = c as u64;
            let mixed = hash.wrapping_mul(47).wrapping_mul(
                hash.wrapping_sub(cp.wrapping_mul(6)).wrapping_sub(idx.wrapping_mul(7)),
            );
            hash = mixed.wrapping_add(cp.wrapping_sub(32).wrapping_add(idx.wrapping_mul(cp)));
            idx = idx + 1;
        }
        i = i + 1;
    }
    assert(bytes@.subrange(0, bytes@.len() as int) =~= bytes@);
    hash
}

/// 2^32: the modulus of the resource fingerprint's arithmetic.
pub open spec fn word32() -> int {
    0x1_0000_0000
}

/// The resource polynomial on exact integers: for each byte `b` of the
/// uppercased name, `p * 61 + b - 32`.
pub open spec fn resource_poly(bytes: Seq<u8>) -> int
    decreases bytes.len(),
{
    if bytes.len() == 0 {
        0
    } else {
        resource_poly(bytes.drop_last()) * 61 + ascii_upper(bytes.last()) - 32
    }
}

/// A value in `i32`'s range is the two's-complement reduction of every
/// integer congruent to it modulo 2^32.
proof fn lemma_crop_of_congruent(x: int, r: int)
    requires
        i32::MIN <= r <= i32::MAX,
        x % word32() == r % word32(),
    ensures
        signed_crop(x) == r,
{
    if r >= 0 {
        lemma_small_mod(r as nat, word32() as nat);
    } else {
        lemma_mod_add_multiples_vanish(r, word32());
        lemma_small_mod((r + word32()) as nat, word32() as nat);
    }
}

proof fn lemma_crop_congruent(x: int)
    ensures
        (signed_crop(x) as int) % word32() == x % word32(),
{
    let m = word32();
    lemma_mod_twice(x, m);
    if x % m > i32::MAX {
        lemma_mod_sub_multiples_vanish(x % m, m);
    }
}

proof fn lemma_resource_step(p: int, h: i32, c: u8)
    requires
        h == signed_crop(p),
    ensures
        vstd::wrapping::i32_specs::wrapping_add(
            vstd::wrapping::i32_specs::wrapping_mul(h, 61),
            (c as i32 - 32) as i32,
        ) == signed_crop(p * 61 + c - 32),
{
    let m = word32();
    let h1 = vstd::wrapping::i32_specs::wrapping_mul(h, 61);
    let d = c as int - 32;
    let h2 = vstd::wrapping::i32_specs::wrapping_add(h1, d as i32);
    lemma_crop_congruent(p);
    lemma_crop_congruent(h as int * 61);
    lemma_mul_mod_noop_left(h as int, 61, m);
    lemma_mul_mod_noop_left(p, 61, m);
    assert(h1 as int % m == (p * 61) % m);
    lemma_add_mod_noop(h1 as int, d, m);
    lemma_add_mod_noop(p * 61, d, m);
    let t = h1 + d;
    assert(t % m == (p * 61 + d) % m);
    if t > i32::MAX {
        lemma_mod_multiples_vanish(-1, t, m);
    } else if t < i32::MIN {
        lemma_mod_multiples_vanish(1, t, m);
    }
    assert(h2 as int % m == t % m);
    lemma_crop_of_congruent(p * 61 + d, h2 as int);
}

/// Fingerprints a resource name: each byte `b` of the ASCII-uppercased name
/// turns the hash `h` into `h * 61 + b - 32`, in signed 32-bit wrapping
/// arithmetic. The result is the exact polynomial reduced to two's complement.
pub fn hash_file_name(file: String) -> (r: i32)
    ensures
        r == signed_crop(resource_poly(encode_utf8(file@))),
{
    let bytes = file.as_str().as_bytes_vec();
    let mut hash: i32 = 0;
    let mut i: usize = 0;
    proof {
        lemma_small_mod(0, word32() as nat);
    }
    while i < bytes.len()
        invariant
            i <= bytes@.len(),
            bytes@ == encode_utf8(file@),
            hash == signed_crop(resource_poly(bytes@.subrange(0, i as int))),
        decreases bytes@.len() - i,
    {
        let b = bytes[i];
        let c: u8 = if b >= 97 && b <= 122 {
            b - 32
        } else {
            b
        };
        proof {
            let pre = bytes@.subrange(0, i as int);
            let next = bytes@.subrange(0, i + 1);
            assert(next.drop_last() =~= pre);
            assert(next.last() == b);
            lemma_resource_step(resource_poly(pre), hash, c);
        }
        hash = hash.wrapping_mul(61).wrapping_add(c as i32 - 32);
        i = i + 1;
    }
    assert(bytes@.subrange(0, bytes@.len() as int) =~= bytes@);
    hash
}

/// Two byte strings that are equal once ASCII letters are uppercased.
pub open spec fn same_upper(a: Seq<u8>, b: Seq<u8>) -> bool {
    a.len() == b.len() && forall|i: int|
        0 <= i < a.len() ==> ascii_upper(#[trigger] a[i]) == ascii_upper(b[i])
}

proof fn lemma_resource_poly_same_upper(a: Seq<u8>, b: Seq<u8>)
    requires
        same_upper(a, b),
    ensures
        resource_poly(a) == resource_poly(b),
    decreases a.len(),
{
    if a.len() > 0 {
        assert(ascii_upper(a[a.len() - 1]) == ascii_upper(b[b.len() - 1]));
        lemma_resource_poly_same_upper(a.drop_last(), b.drop_last());
    }
}

/// The resource fingerprint ignores ASCII letter case: two names whose bytes
/// agree once uppercased have the same fingerprint.
pub proof fn lemma_resource_case_insensitive(a: Seq<char>, b: Seq<char>)
    requires
        same_upper(encode_utf8(a), encode_utf8(b)),
    ensures
        signed_crop(resource_poly(encode_utf8(a))) == signed_crop(resource_poly(encode_utf8(b))),
{
    lemma_resource_poly_same_upper(encode_utf8(a), encode_utf8(b));
}

} // verus!
