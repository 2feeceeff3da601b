//! The transition table: fixed-record, sentinel-aware reads over a byte
//! region, with records that additionally carry an output symbol and a
//! weight used while building a candidate's surface output string.
//!
//! Each record is twelve bytes: a 16-bit input symbol, a 16-bit output
//! symbol, a 32-bit target slot, and a 32-bit weight. All values are
//! little-endian. The final-state convention is the same as in the index
//! table: a record is final exactly when its input-symbol slot holds the
//! "no symbol" sentinel and its target slot does not hold the "no target"
//! sentinel; the acceptance weight is then read from the weight field.

use vstd::prelude::*;

use crate::bytes::{le16, le32, read_u16_le, read_u32_le};
use crate::types::{SymbolNumber, TransitionTableIndex, Weight, NO_SYMBOL, NO_TARGET,
    TRANS_TABLE_SIZE};

verus! {

/// An immutable array of fixed-size transition records decoded from a byte
/// region, starting at `offset`, with `size` entries; `len` bounds the
/// readable part of the region.
#[derive(Debug)]
pub struct TransitionTable {
    pub buf: Vec<u8>,
    pub offset: usize,
    pub len: usize,
    pub size: TransitionTableIndex,
}

impl TransitionTable {
    /// All `size` records lie inside the readable part of the byte region.
    pub open spec fn wf(self) -> bool {
        &&& self.offset + TRANS_TABLE_SIZE * self.size <= self.len
        &&& self.len <= self.buf@.len()
    }

    /// Byte position of record `i`.
    pub open spec fn record_pos(self, i: TransitionTableIndex) -> int {
        self.offset + TRANS_TABLE_SIZE * i
    }

    /// The input symbol of record `i`: absent when `i` is out of range or
    /// the slot holds the "no symbol" sentinel.
    pub open spec fn spec_input_symbol(self, i: TransitionTableIndex) -> Option<SymbolNumber> {
        if i >= self.size {
            None
        } else {
            let v = le16(self.buf@, self.record_pos(i));
            if v == NO_SYMBOL {
                None
            } else {
                Some(v)
            }
        }
    }

    /// The output symbol of record `i`: absent when `i` is out of range or
    /// the slot holds the "no symbol" sentinel.
    pub open spec fn spec_output_symbol(self, i: TransitionTableIndex) -> Option<SymbolNumber> {
        if i >= self.size {
            None
        } else {
            let v = le16(self.buf@, self.record_pos(i) + 2);
            if v == NO_SYMBOL {
                None
            } else {
                Some(v)
            }
        }
    }

    /// The target of record `i`: absent when `i` is out of range or the
    /// slot holds the "no target" sentinel.
    pub open spec fn spec_target(self, i: TransitionTableIndex) -> Option<TransitionTableIndex> {
        if i >= self.size {
            None
        } else {
            let t = le32(self.buf@, self.record_pos(i) + 4);
            if t == NO_TARGET {
                None
            } else {
                Some(t)
            }
        }
    }

    /// The weight of record `i`: absent only when `i` is out of range. For
    /// a final record this is the acceptance weight.
    pub open spec fn spec_weight(self, i: TransitionTableIndex) -> Option<Weight> {
        if i >= self.size {
            None
        } else {
            Some(le32(self.buf@, self.record_pos(i) + 8))
        }
    }

    /// A record is final exactly when its input-symbol slot is the
    /// "no symbol" sentinel and its target slot is not the "no target"
    /// sentinel.
    pub open spec fn spec_is_final(self, i: TransitionTableIndex) -> bool {
        self.spec_input_symbol(i) is None && self.spec_target(i) is Some
    }

    pub fn new(
        buf: Vec<u8>,
        offset: usize,
        len: usize,
        size: TransitionTableIndex,
    ) -> (t: TransitionTable)
        requires
            offset + TRANS_TABLE_SIZE * size <= len,
            len <= buf@.len(),
        ensures
            t.wf(),
            t.buf == buf,
            t.offset == offset,
            t.len == len,
            t.size == size,
    {
        TransitionTable { size, buf, offset, len }
    }

    /// Records `i < size` start at least one whole record before `len`.
    proof fn lemma_record_in_bounds(self, i: TransitionTableIndex)
        requires
            self.wf(),
            i < self.size,
        ensures
            self.offset + TRANS_TABLE_SIZE * i + TRANS_TABLE_SIZE <= self.len,
            self.record_pos(i) + 12 <= self.buf@.len(),
    {
        assert(TRANS_TABLE_SIZE * i + TRANS_TABLE_SIZE == TRANS_TABLE_SIZE * (i + 1))
            by (nonlinear_arith);
        assert(TRANS_TABLE_SIZE * (i + 1) <= TRANS_TABLE_SIZE * self.size)
            by (nonlinear_arith)
            requires
                i + 1 <= self.size,
        ;
    }

    pub fn input_symbol(&self, i: TransitionTableIndex) -> (r: Option<SymbolNumber>)
        requires
            self.wf(),
        ensures
            r == self.spec_input_symbol(i),
    {
        if i >= self.size {
            return None;
        }
        proof {
            self.lemma_record_in_bounds(i);
        }
        let pos: usize = self.offset + TRANS_TABLE_SIZE * (i as usize);
        let v = read_u16_le(&self.buf, pos);
        if v == NO_SYMBOL {
            None
        } else {
            Some(v)
        }
    }

    pub fn output_symbol(&self, i: TransitionTableIndex) -> (r: Option<SymbolNumber>)
        requires
            self.wf(),
        ensures
            r == self.spec_output_symbol(i),
    {
        if i >= self.size {
            return None;
        }
        proof {
            self.lemma_record_in_bounds(i);
        }
        let pos: usize = self.offset + TRANS_TABLE_SIZE * (i as usize);
        let v = read_u16_le(&self.buf, pos + 2);
        if v == NO_SYMBOL {
            None
        } else {
            Some(v)
        }
    }

    pub fn target(&self, i: TransitionTableIndex) -> (r: Option<TransitionTableIndex>)
        requires
            self.wf(),
        ensures
            r == self.spec_target(i),
    {
        if i >= self.size {
            return None;
        }
        proof {
            self.lemma_record_in_bounds(i);
        }
        let pos: usize = self.offset + TRANS_TABLE_SIZE * (i as usize);
        let t = read_u32_le(&self.buf, pos + 4);
        if t == NO_TARGET {
            None
        } else {
            Some(t)
        }
    }

    pub fn weight(&self, i: TransitionTableIndex) -> (r: Option<Weight>)
        requires
            self.wf(),
        ensures
            r == self.spec_weight(i),
    {
        if i >= self.size {
            return None;
        }
        proof {
            self.lemma_record_in_bounds(i);
        }
        let pos: usize = self.offset + TRANS_TABLE_SIZE * (i as usize);
        Some(read_u32_le(&self.buf, pos + 8))
    }

    pub fn is_final(&self, i: TransitionTableIndex) -> (r: bool)
        requires
            self.wf(),
        ensures
            r == self.spec_is_final(i),
    {
        self.input_symbol(i).is_none() && self.target(i).is_some()
    }
}

/// Any index at or past a table's size reads as wholly absent.
pub proof fn lemma_out_of_range_is_absent(t: TransitionTable, i: TransitionTableIndex)
    requires
        i >= t.size,
    ensures
        t.spec_input_symbol(i) is None,
        t.spec_target(i) is None,
{
}

/// A record is final exactly when its input symbol is absent and its
/// target is present.
pub proof fn lemma_is_final_characterization(t: TransitionTable, i: TransitionTableIndex)
    ensures
        t.spec_is_final(i) <==> (t.spec_input_symbol(i) is None && t.spec_target(i) is Some),
{
}

} // verus!
