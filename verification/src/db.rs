//! Database configuration and the random choice used by model factories.
use vstd::prelude::*;
use crate::text;

verus! {

/// How to reach a database.
#[derive(Debug, Clone)]
pub struct DbConfig {
    pub driver: String,
    pub host: String,
    pub port: u16,
    pub database: String,
    pub username: String,
    pub password: String,
    pub charset: String,
    pub prefix: String,
    pub pool_min: u32,
    pub pool_max: u32,
}

impl Default for DbConfig {
    /// A local host, UTF-8, and a pool of 2 to 10 connections; everything else empty.
    fn default() -> (r: DbConfig)
        ensures
            r.driver@.len() == 0,
            r.host@ == "127.0.0.1"@,
            r.port == 0,
            r.database@.len() == 0,
            r.username@.len() == 0,
            r.password@.len() == 0,
            r.charset@ == "utf8"@,
            r.prefix@.len() == 0,
            r.pool_min == 2,
            r.pool_max == 10,
    {
        DbConfig {
            driver: String::new(),
            host: text::owned("127.0.0.1"),
            port: 0,
            database: String::new(),
            username: String::new(),
            password: String::new(),
            charset: text::owned("utf8"),
            prefix: String::new(),
            pool_min: 2,
            pool_max: 10,
        }
    }
}

/// One step of the factories' generator.
pub open spec fn next_seed(s: u64) -> u64 {
    vstd::wrapping::u64_specs::wrapping_add(
        vstd::wrapping::u64_specs::wrapping_mul(s, 6364136223846793005u64),
        1442695040888963407u64,
    )
}

/// Advances the seed and picks the value at the new seed modulo the count.
pub fn random_from<T: Clone>(values: &[T], seed: &mut u64) -> (r: T)
    requires
        values@.len() > 0,
    ensures
        *final(seed) == next_seed(*old(seed)),
        cloned(values@[((*final(seed) as usize) as int) % (values@.len() as int)], r),
{
    let s = seed.wrapping_mul(6364136223846793005u64).wrapping_add(1442695040888963407u64);
    *seed = s;
    let idx = (s as usize) % values.len();
    values[idx].clone()
}

} // verus!
