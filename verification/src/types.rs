//! Shared scalar types and sentinel conventions of the binary transducer
//! layout.

use vstd::prelude::*;

verus! {

/// Index into the alphabet.
pub type SymbolNumber = u16;

/// Pointer into an index or transition table.
pub type TransitionTableIndex = u32;

/// Non-negative path cost; lower is better.
///
/// On disk a weight occupies the same four little-endian bytes that would
/// otherwise hold a table target. The engine keeps the value as an unsigned
/// 32-bit cost: costs accumulate additively (saturating at the top of the
/// range) along a search path and are compared by the ordinary unsigned
/// order.
pub type Weight = u32;

/// Sentinel in an input-symbol slot: "no symbol / epsilon marker".
pub const NO_SYMBOL: SymbolNumber = 0xFFFF;

/// Sentinel in a target slot: "no target".
pub const NO_TARGET: TransitionTableIndex = 0xFFFF_FFFF;

/// Symbol number reserved for the epsilon symbol, which consumes no input
/// and emits no output.
pub const EPSILON: SymbolNumber = 0;

/// Byte size of one index-table record:
/// input symbol (2), padding (2), target or weight (4).
pub const INDEX_TABLE_SIZE: usize = 8;

/// Byte size of one transition-table record:
/// input symbol (2), output symbol (2), target (4), weight (4).
pub const TRANS_TABLE_SIZE: usize = 12;

} // verus!
