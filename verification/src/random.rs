use vstd::prelude::*;
use rand::Rng;
use rand::distributions::Alphanumeric;
use rand_pcg::Pcg64;
use rand_seeder::Seeder;

verus! {

/// A fresh identifier from `uuid::Uuid::new_v4`, as its 128-bit value. The crate builds it from
/// random bits with the version nibble set to 4 and the variant bits set to `10`; which random
/// bits come out is left unsaid, so two calls are not known to give different identifiers.
#[verifier::external_body]
pub(crate) fn new_v4_id() -> (id: u128)
    ensures
        (id >> 76u128) & 0xfu128 == 4,
        (id >> 62u128) & 3u128 == 2,
{
    uuid::Uuid::new_v4().as_u128()
}

/// A number drawn by `rand::Rng::gen_range(lo..hi)` on the thread's generator: rand documents it
/// as lying in `lo..hi` (and panics on an empty range, which `requires` leaves out). Which number
/// comes out is chance.
#[verifier::external_body]
pub(crate) fn random_range(lo: u64, hi: u64) -> (r: u64)
    requires
        lo < hi,
    ensures
        lo <= r < hi,
{
    rand::thread_rng().gen_range(lo..hi)
}

/// The permuted congruential generator of `rand_pcg` (`Pcg64`). Its state is opaque here.
#[verifier::external_type_specification]
#[verifier::external_body]
pub struct ExPcg64(rand_pcg::Lcg128Xsl64);

/// A generator made by `rand_seeder::Seeder::from(seed).make_rng()`, which hashes the seed
/// and fills the generator's seed from it, so that one seed always gives the same stream of
/// numbers. The generator's state is opaque here, so nothing is stated of it.
#[verifier::external_body]
pub(crate) fn seeded_generator(seed: &str) -> (rng: Pcg64) {
    Seeder::from(seed).make_rng()
}

/// A number drawn by `rand::Rng::gen_range(lo..hi)` on a seeded generator: rand documents it
/// as lying in `lo..hi` (and panics on an empty range, which `requires` leaves out). Which
/// number comes out depends on the generator's opaque state, which the draw advances.
#[verifier::external_body]
pub(crate) fn seeded_range(rng: &mut Pcg64, lo: u64, hi: u64) -> (r: u64)
    requires
        lo < hi,
    ensures
        lo <= r < hi,
{
    rng.gen_range(lo..hi)
}

/// An ASCII letter or digit.
pub open spec fn is_alphanumeric(c: char) -> bool {
    ('a' <= c && c <= 'z') || ('A' <= c && c <= 'Z') || ('0' <= c && c <= '9')
}

/// `len` characters drawn from `rand::distributions::Alphanumeric` on the thread's generator,
/// which rand documents as ASCII letters and digits. Which ones is chance.
#[verifier::external_body]
pub(crate) fn random_alphanumeric(len: usize) -> (r: String)
    ensures
        r@.len() == len,
        forall|i: int| 0 <= i < r@.len() ==> is_alphanumeric(#[trigger] r@[i]),
{
    rand::thread_rng().sample_iter(&Alphanumeric).take(len).map(char::from).collect()
}

/// A fresh identifier for a room, item or container.
pub fn new_id() -> (id: u128)
    ensures
        (id >> 76u128) & 0xfu128 == 4,
{
    new_v4_id()
}

} // verus!
