//! Fixed pseudo-random keys for position hashing.
//!
//! Every key is a pure function of its index, so the keys are the same in
//! every process and never change. The index space is laid out as 768 keys
//! for (piece, square) pairs, then 4 for castling rights, 8 for en-passant
//! files and 1 for the side to move.

use vstd::prelude::*;

verus! {

/// Index of the first castling key.
pub const CASTLE_BASE: u16 = 768;

/// Index of the first en-passant key.
pub const EN_PASSANT_BASE: u16 = 772;

/// Index of the key for white to move.
pub const TURN_INDEX: u16 = 780;

/// The key with index `index`: a 64-bit mix of the index by an
/// add, xor-shift and multiply cascade.
pub open spec fn spec_key(index: u16) -> u64 {
    let a: u64 = (index as u64).wrapping_add(1).wrapping_mul(0x9E3779B97F4A7C15);
    let b: u64 = (a ^ (a >> 30)).wrapping_mul(0xBF58476D1CE4E5B9);
    let c: u64 = (b ^ (b >> 27)).wrapping_mul(0x94D049BB133111EB);
    c ^ (c >> 31)
}

/// The key with index `index`.
pub fn key(index: u16) -> (k: u64)
    ensures
        k == spec_key(index),
{
    let a: u64 = (index as u64).wrapping_add(1).wrapping_mul(0x9E3779B97F4A7C15);
    let b: u64 = (a ^ (a >> 30)).wrapping_mul(0xBF58476D1CE4E5B9);
    let c: u64 = (b ^ (b >> 27)).wrapping_mul(0x94D049BB133111EB);
    c ^ (c >> 31)
}

/// The key of castling right `i` (0..=3).
pub open spec fn spec_castle_key(i: int) -> u64 {
    spec_key((CASTLE_BASE + i) as u16)
}

/// The key of en-passant file `file` (1..=8).
pub open spec fn spec_en_passant_key(file: int) -> u64 {
    spec_key((EN_PASSANT_BASE + file - 1) as u16)
}

/// The key that marks white to move.
pub open spec fn spec_turn_key() -> u64 {
    spec_key(TURN_INDEX)
}

} // verus!
