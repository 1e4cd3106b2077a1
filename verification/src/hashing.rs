//! Rollout bucketing: a context's targets are hashed with 128-bit Murmur3
//! (x64 variant, seed 0) and reduced to a basis-point bucket in `[0, 9999]`.

use vstd::prelude::*;
use vstd::string::StringSliceAdditionalSpecFns;
use vstd::utf8::encode_utf8;

verus! {

/// Number of basis-point buckets (`0.01 %` precision).
pub const BASIS_POINTS: u32 = 10_000;

/// The canonical percentile modulus: a digest is reduced modulo this value,
/// then rescaled to basis points by dividing by 10.
pub const HASH_MODULUS: u128 = 100_000;

/// The 128-bit x64 Murmur3 digest of `bytes` under `seed`.
pub uninterp spec fn murmur3_x64_128_digest(bytes: Seq<u8>, seed: u32) -> u128;

/// Calls `murmur3::murmur3_x64_128` on an in-memory reader over `bytes`.
///
/// Trusted: the result is the Murmur3 x64 128-bit digest of exactly the bytes
/// given, under `seed`. The outside function only fails when its reader
/// fails; a cursor over a byte slice never does, so the `0` fallback is not
/// reached.
#[verifier::external_body]
fn murmur3_x64_128_of(bytes: &[u8], seed: u32) -> (r: u128)
    ensures
        r == murmur3_x64_128_digest(bytes@, seed),
{
    murmur3::murmur3_x64_128(&mut std::io::Cursor::new(bytes), seed).unwrap_or(0)
}

/// The basis-point bucket of a digest: `(hash % 100_000) / 10`.
pub open spec fn spec_basis_points(hash: u128) -> u32 {
    ((hash % HASH_MODULUS) / 10) as u32
}

/// Canonical reduction of a 128-bit Murmur3 digest to a basis-point bucket in
/// `[0, 9999]`: `(hash % 100_000) / 10`.
///
/// This single reduction is shared by flag rollout allocation and exclusion
/// group bucketing, so a context's percentile placement is consistent across
/// both layers.
pub fn reduce_hash_to_basis_points(hash: u128) -> (r: u32)
    ensures
        r as int == (hash % HASH_MODULUS) / 10,
        r == spec_basis_points(hash),
        r < BASIS_POINTS,
{
    let m: u128 = hash % HASH_MODULUS;
    let q: u128 = m / 10;
    assert(q < 10_000);
    q as u32
}

/// The bytes that are hashed for a rollout decision: the UTF-8 bytes of
/// `flag_key`, then of `env_id`, then of every target in order.
pub open spec fn allocation_input(flag_key: Seq<u8>, env_id: Seq<u8>, targets: Seq<Seq<u8>>) -> Seq<u8> {
    flag_key + env_id + targets.flatten()
}

/// The UTF-8 bytes of every string in `ts`, in order.
pub open spec fn utf8_of_all(ts: Seq<String>) -> Seq<Seq<u8>> {
    ts.map_values(|t: String| encode_utf8(t@))
}

/// Append the bytes of `src` to `dst`.
fn push_all(dst: &mut Vec<u8>, src: &[u8])
    ensures
        final(dst)@ == old(dst)@ + src@,
{
    let ghost start = dst@;
    let mut i: usize = 0;
    while i < src.len()
        invariant
            0 <= i <= src@.len(),
            dst@ == start + src@.subrange(0, i as int),
        decreases src@.len() - i,
    {
        dst.push(src[i]);
        i = i + 1;
        assert(dst@ =~= start + src@.subrange(0, i as int));
    }
    assert(src@.subrange(0, src@.len() as int) =~= src@);
}

/// The allocation bucket of a flag rollout: the basis-point reduction of the
/// Murmur3 digest (seed 0) of `flag_key` + `env_id` + the targets.
#[verifier::spinoff_prover]
pub fn calculate_allocation(flag_key: &str, env_id: &str, targets: &[String]) -> (r: u32)
    ensures
        r == spec_basis_points(
            murmur3_x64_128_digest(
                allocation_input(flag_key.spec_bytes(), env_id.spec_bytes(), utf8_of_all(targets@)),
                0,
            ),
        ),
        r < BASIS_POINTS,
{
    let mut input: Vec<u8> = Vec::new();
    push_all(&mut input, flag_key.as_bytes());
    push_all(&mut input, env_id.as_bytes());
    let ghost head = input@;
    let mut i: usize = 0;
    while i < targets.len()
        invariant
            0 <= i <= targets@.len(),
            head == flag_key.spec_bytes() + env_id.spec_bytes(),
            input@ == head + utf8_of_all(targets@).subrange(0, i as int).flatten(),
        decreases targets@.len() - i,
    {
        let t: &String = &targets[i];
        let ghost before = utf8_of_all(targets@).subrange(0, i as int);
        push_all(&mut input, t.as_str().as_bytes());
        proof {
            before.lemma_flatten_push(encode_utf8(t@));
            assert(utf8_of_all(targets@).subrange(0, i + 1) =~= before.push(
                encode_utf8(t@),
            ));
        }
        i = i + 1;
    }
    assert(utf8_of_all(targets@).subrange(0, targets@.len() as int) =~= utf8_of_all(targets@));
    let hash = murmur3_x64_128_of(input.as_slice(), 0);
    reduce_hash_to_basis_points(hash)
}


/// The hashed bytes lay out the flag key first, then the environment id,
/// then each target in order, with nothing added or dropped: the input is
/// as long as its parts together, and each part sits, unchanged, right after
/// the ones before it.
pub proof fn lemma_allocation_input_layout(flag_key: Seq<u8>, env_id: Seq<u8>, targets: Seq<Seq<u8>>)
    ensures
        ({
            let input = allocation_input(flag_key, env_id, targets);
            let head = (flag_key.len() + env_id.len()) as int;
            &&& input.len() == head + targets.flatten().len()
            &&& input.subrange(0, flag_key.len() as int) == flag_key
            &&& input.subrange(flag_key.len() as int, head) == env_id
            &&& input.subrange(head, input.len() as int) == targets.flatten()
            &&& targets.len() > 0 ==> input.subrange(
                head,
                head + targets[0].len(),
            ) == targets[0]
        }),
{
    let input = allocation_input(flag_key, env_id, targets);
    let head = (flag_key.len() + env_id.len()) as int;
    assert(input.subrange(0, flag_key.len() as int) =~= flag_key);
    assert(input.subrange(flag_key.len() as int, head) =~= env_id);
    assert(input.subrange(head, input.len() as int) =~= targets.flatten());
    if targets.len() > 0 {
        assert(targets.flatten() == targets.first() + targets.drop_first().flatten());
        assert(input.subrange(head, head + targets[0].len()) =~= targets[0]);
    }
}

} // verus!
