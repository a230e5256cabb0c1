//! Random numbers for tokens, chat ids and invitation codes, and keys that
//! are not in use yet.

use vstd::prelude::*;
use rand::RngCore;
use std::collections::HashMap;

verus! {

/// `rand::rngs::OsRng::try_fill_bytes` (`rand_core::RngCore`), on four
/// bytes: a number from the operating system's generator, or `None` where
/// the system gives none. Nothing is claimed of the number, nor of when
/// there is one.
#[verifier::external_body]
pub(crate) fn random_u32() -> (n: Option<u32>) {
    let mut bytes = [0u8; 4];
    match rand::rngs::OsRng.try_fill_bytes(&mut bytes) {
        Ok(()) => Some(u32::from_le_bytes(bytes)),
        Err(_) => None,
    }
}

/// Why no key was found.
#[derive(Clone, Copy, Debug, PartialEq, Eq, Structural)]
pub enum KeyError {
    /// Every key is in use.
    Exhausted,
    /// The system gave no random number to start from.
    Unavailable,
}

/// The key that stands `steps` behind `start`, counting on from 0 after the
/// largest key.
pub open spec fn key_after(start: u32, steps: int) -> u32 {
    ((start + steps) % 0x1_0000_0000) as u32
}

/// Every key is reached from `start` within 2^32 steps.
pub proof fn lemma_key_after_reaches(start: u32, key: u32) -> (steps: int)
    ensures
        0 <= steps < 0x1_0000_0000,
        key_after(start, steps) == key,
{
    if key >= start {
        key - start
    } else {
        key - start + 0x1_0000_0000
    }
}

/// Whether `key` is the first key from `start` on that `taken` does not
/// hold.
pub open spec fn probe_finds<V>(taken: Map<u32, V>, start: u32, key: u32) -> bool {
    exists|steps: int|
        0 <= steps < 0x1_0000_0000 && key == #[trigger] key_after(start, steps)
            && !taken.contains_key(key) && forall|earlier: int|
            0 <= earlier < steps ==> taken.contains_key(#[trigger] key_after(start, earlier))
}

/// The first key from `start` on that `taken` does not hold, counting on
/// from 0 after the largest key; `None` where it holds every key.
pub fn probe<V>(taken: &HashMap<u32, V>, start: u32) -> (key: Option<u32>)
    ensures
        match key {
            Some(k) => probe_finds(taken@, start, k),
            None => forall|k: u32| taken@.contains_key(k),
        },
{
    let mut steps: u64 = 0;
    let mut candidate: u32 = start;
    while steps < 0x1_0000_0000
        invariant
            steps <= 0x1_0000_0000,
            candidate == key_after(start, steps as int),
            forall|earlier: int|
                0 <= earlier < steps ==> taken@.contains_key(#[trigger] key_after(start, earlier)),
        decreases 0x1_0000_0000 - steps,
    {
        if !taken.contains_key(&candidate) {
            assert(candidate == key_after(start, steps as int));
            return Some(candidate);
        }
        candidate = if candidate == 0xffff_ffff {
            0
        } else {
            candidate + 1
        };
        steps = steps + 1;
    }
    proof {
        assert forall|k: u32| taken@.contains_key(k) by {
            let reached = lemma_key_after_reaches(start, k);
            assert(taken@.contains_key(key_after(start, reached)));
        }
    }
    None
}

/// The key to use, given what the generator drew: the number drawn or,
/// where that one is in use, the next key that is free.
pub fn key_from<V>(taken: &HashMap<u32, V>, drawn: Option<u32>) -> (key: Result<u32, KeyError>)
    ensures
        match key {
            Ok(k) => drawn is Some && probe_finds(taken@, drawn->0, k),
            Err(KeyError::Unavailable) => drawn is None,
            Err(KeyError::Exhausted) => drawn is Some && forall|k: u32| taken@.contains_key(k),
        },
{
    match drawn {
        Some(start) => match probe(taken, start) {
            Some(k) => Ok(k),
            None => Err(KeyError::Exhausted),
        },
        None => Err(KeyError::Unavailable),
    }
}

/// A key that `taken` does not hold: one drawn at random or, where that one
/// is in use, the next that is free.
pub fn fresh_key<V>(taken: &HashMap<u32, V>) -> (key: Result<u32, KeyError>)
    ensures
        match key {
            Ok(k) => !taken@.contains_key(k),
            Err(KeyError::Exhausted) => forall|k: u32| taken@.contains_key(k),
            Err(KeyError::Unavailable) => true,
        },
{
    key_from(taken, random_u32())
}

} // verus!
