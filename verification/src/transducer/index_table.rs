//! The index table: fixed-record, sentinel-aware, alignment-safe reads over
//! a byte region.
//!
//! Each record is eight bytes: a 16-bit input symbol, two bytes of padding,
//! and a 32-bit slot that holds either a target index or, in a final-state
//! record, a weight. All values are little-endian. An index at or past the
//! table's size reads as wholly absent; it never faults.

use vstd::prelude::*;

use vstd::arithmetic::div_mod::{lemma_fundamental_div_mod, lemma_mod_division_less_than_divisor};

use crate::bytes::{
    le16, le32, lemma_le16_round_trip, lemma_le32_round_trip, push_u16_le, push_u32_le,
    read_u16_le, read_u32_le, u16_le_bytes, u32_le_bytes,
};
use crate::types::{SymbolNumber, TransitionTableIndex, Weight, INDEX_TABLE_SIZE, NO_SYMBOL,
    NO_TARGET};

verus! {

/// Refusal of a table export whose chunk size does not align with the
/// fixed record size.
#[derive(Clone, Copy, Debug, PartialEq, Eq, Structural)]
pub enum SerializeError {
    ChunkSizeNotRecordAligned,
}

/// An immutable array of fixed-size records decoded from a byte region,
/// starting at `offset`, with `size` entries; `len` bounds the readable
/// part of the region.
#[derive(Debug)]
pub struct IndexTable {
    pub buf: Vec<u8>,
    pub offset: usize,
    pub len: usize,
    pub size: TransitionTableIndex,
}

impl IndexTable {
    /// All `size` records lie inside the readable part of the byte region.
    pub open spec fn wf(self) -> bool {
        &&& self.offset + INDEX_TABLE_SIZE * self.size <= self.len
        &&& self.len <= self.buf@.len()
    }

    /// Byte position of record `i`.
    pub open spec fn record_pos(self, i: TransitionTableIndex) -> int {
        self.offset + INDEX_TABLE_SIZE * i
    }

    /// The input symbol of record `i`: absent when `i` is out of range or
    /// the slot holds the "no symbol" sentinel.
    pub open spec fn spec_input_symbol(self, i: TransitionTableIndex) -> Option<SymbolNumber> {
        if i >= self.size {
            None
        } else {
            let v = le16(self.buf@, self.record_pos(i));
            if v == NO_SYMBOL {
                None
            } else {
                Some(v)
            }
        }
    }

    /// The target of record `i`: absent when `i` is out of range or the
    /// slot holds the "no target" sentinel.
    pub open spec fn spec_target(self, i: TransitionTableIndex) -> Option<TransitionTableIndex> {
        if i >= self.size {
            None
        } else {
            let t = le32(self.buf@, self.record_pos(i) + 4);
            if t == NO_TARGET {
                None
            } else {
                Some(t)
            }
        }
    }

    /// The target slot of record `i` reinterpreted as a weight; meaningful
    /// only when `spec_is_final(i)` holds.
    pub open spec fn spec_final_weight(self, i: TransitionTableIndex) -> Option<Weight> {
        if i >= self.size {
            None
        } else {
            Some(le32(self.buf@, self.record_pos(i) + 4))
        }
    }

    /// A record is final exactly when its input-symbol slot is the
    /// "no symbol" sentinel and its target slot is not the "no target"
    /// sentinel.
    pub open spec fn spec_is_final(self, i: TransitionTableIndex) -> bool {
        self.spec_input_symbol(i) is None && self.spec_target(i) is Some
    }

    pub fn new(
        buf: Vec<u8>,
        offset: usize,
        len: usize,
        size: TransitionTableIndex,
    ) -> (t: IndexTable)
        requires
            offset + INDEX_TABLE_SIZE * size <= len,
            len <= buf@.len(),
        ensures
            t.wf(),
            t.buf == buf,
            t.offset == offset,
            t.len == len,
            t.size == size,
    {
        IndexTable { size, buf, offset, len }
    }

    /// Records `i < size` start at least one whole record before `len`.
    proof fn lemma_record_in_bounds(self, i: TransitionTableIndex)
        requires
            self.wf(),
            i < self.size,
        ensures
            self.offset + INDEX_TABLE_SIZE * i + INDEX_TABLE_SIZE <= self.len,
            self.record_pos(i) + 8 <= self.buf@.len(),
    {
        assert(INDEX_TABLE_SIZE * i + INDEX_TABLE_SIZE == INDEX_TABLE_SIZE * (i + 1))
            by (nonlinear_arith);
        assert(INDEX_TABLE_SIZE * (i + 1) <= INDEX_TABLE_SIZE * self.size)
            by (nonlinear_arith)
            requires
                i + 1 <= self.size,
        ;
    }

    pub fn input_symbol(&self, i: TransitionTableIndex) -> (r: Option<SymbolNumber>)
        requires
            self.wf(),
        ensures
            r == self.spec_input_symbol(i),
    {
        if i >= self.size {
            return None;
        }
        proof {
            self.lemma_record_in_bounds(i);
        }
        let pos: usize = self.offset + INDEX_TABLE_SIZE * (i as usize);
        let v = read_u16_le(&self.buf, pos);
        if v == NO_SYMBOL {
            None
        } else {
            Some(v)
        }
    }

    pub fn target(&self, i: TransitionTableIndex) -> (r: Option<TransitionTableIndex>)
        requires
            self.wf(),
        ensures
            r == self.spec_target(i),
    {
        if i >= self.size {
            return None;
        }
        proof {
            self.lemma_record_in_bounds(i);
        }
        let pos: usize = self.offset + INDEX_TABLE_SIZE * (i as usize);
        let t = read_u32_le(&self.buf, pos + 4);
        if t == NO_TARGET {
            None
        } else {
            Some(t)
        }
    }

    /// Reads the same byte slot as `target`, reinterpreted as a weight.
    /// The slot's meaning is determined by context: call this only where
    /// `is_final(i)` holds.
    pub fn final_weight(&self, i: TransitionTableIndex) -> (r: Option<Weight>)
        requires
            self.wf(),
        ensures
            r == self.spec_final_weight(i),
    {
        if i >= self.size {
            return None;
        }
        proof {
            self.lemma_record_in_bounds(i);
        }
        let pos: usize = self.offset + INDEX_TABLE_SIZE * (i as usize);
        Some(read_u32_le(&self.buf, pos + 4))
    }

    pub fn is_final(&self, i: TransitionTableIndex) -> (r: bool)
        requires
            self.wf(),
        ensures
            r == self.spec_is_final(i),
    {
        self.input_symbol(i).is_none() && self.target(i).is_some()
    }

    /// The input-symbol slot of record `i` as exported: the symbol itself,
    /// or the "no symbol" sentinel where it is absent.
    pub open spec fn spec_symbol_or_sentinel(self, i: TransitionTableIndex) -> SymbolNumber {
        match self.spec_input_symbol(i) {
            Some(v) => v,
            None => NO_SYMBOL,
        }
    }

    /// The target slot of record `i` as exported: the raw slot value, or
    /// the "no target" sentinel where it is absent. For a final record this
    /// is exactly the weight held in the slot.
    pub open spec fn spec_target_or_sentinel(self, i: TransitionTableIndex) -> TransitionTableIndex {
        match self.spec_target(i) {
            Some(t) => t,
            None => NO_TARGET,
        }
    }

    /// The eight exported bytes of record `i`: symbol, two bytes of
    /// padding, target-or-weight slot; all little-endian.
    pub open spec fn spec_record_bytes(self, i: TransitionTableIndex) -> Seq<u8> {
        u16_le_bytes(self.spec_symbol_or_sentinel(i)) + u16_le_bytes(0) + u32_le_bytes(
            self.spec_target_or_sentinel(i),
        )
    }

    /// The exported bytes of records `from .. to`, in order.
    pub open spec fn spec_records_bytes(self, from: int, to: int) -> Seq<u8>
        decreases to - from,
    {
        if from >= to {
            Seq::<u8>::empty()
        } else {
            self.spec_record_bytes(from as TransitionTableIndex) + self.spec_records_bytes(
                from + 1,
                to,
            )
        }
    }

    /// How many chunks an export with `per` records per chunk produces:
    /// the record count divided by `per`, rounded up.
    pub open spec fn spec_chunk_count(self, per: int) -> int {
        if self.size as int % per == 0 {
            self.size as int / per
        } else {
            self.size as int / per + 1
        }
    }

    /// The bytes of export chunk `j` with `per` records per chunk: the
    /// records from `j * per` up to the next chunk boundary or the end of
    /// the table, whichever comes first.
    pub open spec fn spec_chunk_bytes(self, j: int, per: int) -> Seq<u8> {
        let begin = j * per;
        let end = if (j + 1) * per <= self.size {
            (j + 1) * per
        } else {
            self.size as int
        };
        self.spec_records_bytes(begin, end)
    }

    /// Exported record ranges concatenate one record at a time.
    proof fn lemma_records_bytes_snoc(self, from: int, to: int)
        requires
            0 <= from <= to,
        ensures
            self.spec_records_bytes(from, to + 1) == self.spec_records_bytes(from, to)
                + self.spec_record_bytes(to as TransitionTableIndex),
        decreases to - from,
    {
        let rec = self.spec_record_bytes(to as TransitionTableIndex);
        if from == to {
            assert(self.spec_records_bytes(to + 1, to + 1) == Seq::<u8>::empty());
            assert(self.spec_records_bytes(from, to) == Seq::<u8>::empty());
            assert(rec + Seq::<u8>::empty() =~= rec);
            assert(Seq::<u8>::empty() + rec =~= rec);
        } else {
            self.lemma_records_bytes_snoc(from + 1, to);
            let head = self.spec_record_bytes(from as TransitionTableIndex);
            let mid = self.spec_records_bytes(from + 1, to);
            assert(self.spec_records_bytes(from, to + 1) == head + (mid + rec));
            assert(head + (mid + rec) =~= (head + mid) + rec);
            assert(self.spec_records_bytes(from, to) == head + mid);
        }
    }

    /// An exported record range holds eight bytes per record.
    proof fn lemma_records_bytes_len(self, from: int, to: int)
        requires
            from <= to,
        ensures
            self.spec_records_bytes(from, to).len() == 8 * (to - from),
        decreases to - from,
    {
        if from < to {
            self.lemma_records_bytes_len(from + 1, to);
        }
    }

    /// Each byte of an exported record range comes from the record that
    /// covers its position.
    proof fn lemma_records_bytes_index(self, from: int, to: int, k: int, m: int)
        requires
            0 <= from <= k < to,
            0 <= m < 8,
        ensures
            self.spec_records_bytes(from, to).len() == 8 * (to - from),
            self.spec_records_bytes(from, to)[8 * (k - from) + m] == self.spec_record_bytes(
                k as TransitionTableIndex,
            )[m],
        decreases k - from,
    {
        self.lemma_records_bytes_len(from, to);
        self.lemma_records_bytes_len(from + 1, to);
        if from == k {
            assert(self.spec_records_bytes(from, to)[m] == self.spec_record_bytes(
                from as TransitionTableIndex,
            )[m]);
        } else {
            self.lemma_records_bytes_index(from + 1, to, k, m);
            assert(self.spec_records_bytes(from, to)[8 * (k - from) + m]
                == self.spec_records_bytes(from + 1, to)[8 * (k - (from + 1)) + m]);
        }
    }

    /// Export the table as a sequence of fixed-size binary chunks.
    ///
    /// `chunk_size` must be a positive multiple of the record size (eight
    /// bytes); otherwise the export fails with a configuration error and
    /// produces nothing. Chunk boundaries are computed purely from the
    /// record count and never split a record; the final chunk may be
    /// short. A record's target slot is exported raw, so a final record's
    /// weight bytes survive the export unchanged.
    pub fn serialize(&self, chunk_size: usize) -> (r: Result<Vec<Vec<u8>>, SerializeError>)
        requires
            self.wf(),
            chunk_size > 0,
        ensures
            match r {
                Result::Err(e) => {
                    &&& chunk_size % INDEX_TABLE_SIZE != 0
                    &&& e == SerializeError::ChunkSizeNotRecordAligned
                },
                Result::Ok(chunks) => {
                    &&& chunk_size % INDEX_TABLE_SIZE == 0
                    &&& chunks@.len() == self.spec_chunk_count(chunk_size as int / 8)
                    &&& forall|j: int|
                        0 <= j < chunks@.len() ==> chunks@[j]@ == self.spec_chunk_bytes(
                            j,
                            chunk_size as int / 8,
                        )
                },
            },
    {
        if chunk_size % INDEX_TABLE_SIZE != 0 {
            return Err(SerializeError::ChunkSizeNotRecordAligned);
        }
        let per: usize = chunk_size / INDEX_TABLE_SIZE;
        assert(per >= 1);
        let size: usize = self.size as usize;
        let chunk_count: usize = size / per + (if size % per == 0 {
            0
        } else {
            1
        });
        proof {
            lemma_fundamental_div_mod(size as int, per as int);
            lemma_mod_division_less_than_divisor(size as int, per as int);
            let q = size as int / per as int;
            assert(per as int * q == q * per as int) by (nonlinear_arith);
            assert((q + 1) * per as int == q * per as int + per as int) by (nonlinear_arith);
        }
        let mut chunks: Vec<Vec<u8>> = Vec::new();
        let mut j: usize = 0;
        while j < chunk_count
            invariant
                self.wf(),
                per >= 1,
                size == self.size,
                chunk_count == self.spec_chunk_count(per as int),
                size <= chunk_count * per < size + per,
                j <= chunk_count,
                chunks@.len() == j,
                forall|k: int|
                    0 <= k < j ==> chunks@[k]@ == self.spec_chunk_bytes(k, per as int),
            decreases chunk_count - j,
        {
            proof {
                assert(j * per + per == (j + 1) * per) by (nonlinear_arith);
                assert((j + 1) * per <= chunk_count * per) by (nonlinear_arith)
                    requires
                        j + 1 <= chunk_count,
                        per >= 1,
                ;
            }
            let begin: usize = j * per;
            let remaining: usize = size - begin;
            let end: usize = if remaining > per {
                begin + per
            } else {
                size
            };
            let mut chunk: Vec<u8> = Vec::new();
            let mut idx: usize = begin;
            while idx < end
                invariant
                    self.wf(),
                    begin <= idx <= end,
                    end <= size == self.size,
                    chunk@ == self.spec_records_bytes(begin as int, idx as int),
                decreases end - idx,
            {
                let sym: SymbolNumber = match self.input_symbol(idx as TransitionTableIndex) {
                    Some(v) => v,
                    None => NO_SYMBOL,
                };
                let tgt: TransitionTableIndex = match self.target(idx as TransitionTableIndex) {
                    Some(t) => t,
                    None => NO_TARGET,
                };
                push_u16_le(&mut chunk, sym);
                push_u16_le(&mut chunk, 0);
                push_u32_le(&mut chunk, tgt);
                proof {
                    self.lemma_records_bytes_snoc(begin as int, idx as int);
                    assert(chunk@ =~= self.spec_records_bytes(begin as int, idx + 1));
                }
                idx += 1;
            }
            chunks.push(chunk);
            j += 1;
        }
        Ok(chunks)
    }
}

/// The bytes of a sequence of chunks, concatenated in order.
pub open spec fn spec_flatten_chunks(chunks: Seq<Seq<u8>>) -> Seq<u8>
    decreases chunks.len(),
{
    if chunks.len() == 0 {
        Seq::<u8>::empty()
    } else {
        spec_flatten_chunks(chunks.drop_last()) + chunks.last()
    }
}

/// Append the bytes of `src` to `out`.
fn append_bytes(out: &mut Vec<u8>, src: &Vec<u8>)
    ensures
        final(out)@ == old(out)@ + src@,
{
    let n = src.len();
    let mut i: usize = 0;
    while i < n
        invariant
            i <= n == src@.len(),
            out@ == old(out)@ + src@.take(i as int),
        decreases n - i,
    {
        out.push(src[i]);
        proof {
            assert(out@ =~= old(out)@ + src@.take(i + 1));
        }
        i += 1;
    }
    proof {
        assert(old(out)@ + src@.take(n as int) =~= old(out)@ + src@);
    }
}

impl IndexTable {
    /// Rebuild a table from exported chunk files, for the layout that
    /// splits a large table across fixed-size chunks. `None` when the
    /// chunks do not amount to exactly `size` records.
    pub fn from_chunks(chunks: &Vec<Vec<u8>>, size: TransitionTableIndex) -> (r: Option<
        IndexTable,
    >)
        ensures
            ({
                let flat = spec_flatten_chunks(Seq::new(chunks@.len(), |j: int| chunks@[j]@));
                match r {
                    Some(t) => {
                        &&& t.wf()
                        &&& t.offset == 0
                        &&& t.size == size
                        &&& t.len == t.buf@.len()
                        &&& t.buf@ == flat
                        &&& flat.len() == INDEX_TABLE_SIZE * size
                    },
                    None => flat.len() != INDEX_TABLE_SIZE * size,
                }
            }),
    {
        let n = chunks.len();
        let mut buf: Vec<u8> = Vec::new();
        let mut j: usize = 0;
        while j < n
            invariant
                j <= n == chunks@.len(),
                buf@ == spec_flatten_chunks(Seq::new(j as nat, |k: int| chunks@[k]@)),
            decreases n - j,
        {
            append_bytes(&mut buf, &chunks[j]);
            proof {
                let prev = Seq::new(j as nat, |k: int| chunks@[k]@);
                let cur = Seq::new((j + 1) as nat, |k: int| chunks@[k]@);
                assert(cur.drop_last() =~= prev);
                assert(cur.last() == chunks@[j as int]@);
            }
            j += 1;
        }
        proof {
            assert(Seq::new(n as nat, |k: int| chunks@[k]@) =~= Seq::new(
                chunks@.len(),
                |k: int| chunks@[k]@,
            ));
        }
        let total: u64 = buf.len() as u64;
        if total != (size as u64) * (INDEX_TABLE_SIZE as u64) {
            return None;
        }
        let len = buf.len();
        Some(IndexTable::new(buf, 0, len, size))
    }

    /// An exported record range splits at any middle point.
    proof fn lemma_records_bytes_split(self, a: int, b: int, c: int)
        requires
            0 <= a <= b <= c,
        ensures
            self.spec_records_bytes(a, c) == self.spec_records_bytes(a, b)
                + self.spec_records_bytes(b, c),
        decreases b - a,
    {
        if a == b {
            assert(self.spec_records_bytes(a, b) =~= Seq::<u8>::empty());
            assert(Seq::<u8>::empty() + self.spec_records_bytes(b, c) =~= self.spec_records_bytes(
                b,
                c,
            ));
        } else {
            self.lemma_records_bytes_split(a + 1, b, c);
            let head = self.spec_record_bytes(a as TransitionTableIndex);
            assert(head + (self.spec_records_bytes(a + 1, b) + self.spec_records_bytes(b, c))
                =~= (head + self.spec_records_bytes(a + 1, b)) + self.spec_records_bytes(b, c));
        }
    }

    /// Flattening the first `j` chunks of an export yields the record
    /// bytes up to the `j`-th chunk boundary.
    #[verifier::rlimit(60)]
    proof fn lemma_flatten_prefix(self, per: int, j: int)
        requires
            per >= 1,
            0 <= j <= self.spec_chunk_count(per),
        ensures
            spec_flatten_chunks(Seq::new(j as nat, |k: int| self.spec_chunk_bytes(k, per)))
                == self.spec_records_bytes(
                0,
                if j * per <= self.size {
                    j * per
                } else {
                    self.size as int
                },
            ),
        decreases j,
    {
        lemma_fundamental_div_mod(self.size as int, per);
        lemma_mod_division_less_than_divisor(self.size as int, per);
        let q = self.size as int / per;
        assert(per * q == q * per) by (nonlinear_arith);
        assert((q + 1) * per == q * per + per) by (nonlinear_arith);
        let cc = self.spec_chunk_count(per);
        if j == 0 {
            assert(Seq::new(0, |k: int| self.spec_chunk_bytes(k, per)) =~= Seq::<Seq<u8>>::empty());
        } else {
            self.lemma_flatten_prefix(per, j - 1);
            let s = Seq::new(j as nat, |k: int| self.spec_chunk_bytes(k, per));
            let prev = Seq::new((j - 1) as nat, |k: int| self.spec_chunk_bytes(k, per));
            assert(s.drop_last() =~= prev);
            assert(s.last() == self.spec_chunk_bytes(j - 1, per));
            let begin = (j - 1) * per;
            let end = if j * per <= self.size {
                j * per
            } else {
                self.size as int
            };
            assert((j - 1) * per + per == j * per) by (nonlinear_arith);
            assert((cc - 1) * per == cc * per - per) by (nonlinear_arith);
            assert((j - 1) * per <= (cc - 1) * per) by (nonlinear_arith)
                requires
                    j <= cc,
                    per >= 1,
            ;
            assert(begin < self.size);
            assert(spec_flatten_chunks(prev) == self.spec_records_bytes(0, begin));
            assert(self.spec_chunk_bytes(j - 1, per) == self.spec_records_bytes(begin, end));
            assert(begin <= end);
            self.lemma_records_bytes_split(0, begin, end);
            assert(spec_flatten_chunks(s) == self.spec_records_bytes(0, begin)
                + self.spec_records_bytes(begin, end));
            assert(spec_flatten_chunks(s) == self.spec_records_bytes(0, end));
        }
    }

    /// A table laid over exactly the exported record bytes reads the same
    /// symbol, target and final weight at every index as the original.
    proof fn lemma_rebuilt_table_agrees(self, u: IndexTable, i: TransitionTableIndex)
        requires
            self.wf(),
            u.offset == 0,
            u.size == self.size,
            u.len == u.buf@.len(),
            u.buf@ == self.spec_records_bytes(0, self.size as int),
        ensures
            u.wf(),
            u.spec_input_symbol(i) == self.spec_input_symbol(i),
            u.spec_target(i) == self.spec_target(i),
            u.spec_final_weight(i) == self.spec_final_weight(i),
            u.spec_is_final(i) == self.spec_is_final(i),
    {
        self.lemma_records_bytes_len(0, self.size as int);
        if i < self.size {
            let rb = self.spec_record_bytes(i);
            self.lemma_records_bytes_index(0, self.size as int, i as int, 0);
            self.lemma_records_bytes_index(0, self.size as int, i as int, 1);
            self.lemma_records_bytes_index(0, self.size as int, i as int, 4);
            self.lemma_records_bytes_index(0, self.size as int, i as int, 5);
            self.lemma_records_bytes_index(0, self.size as int, i as int, 6);
            self.lemma_records_bytes_index(0, self.size as int, i as int, 7);
            let sym = self.spec_symbol_or_sentinel(i);
            let tgt = self.spec_target_or_sentinel(i);
            assert(rb[0] == (sym % 0x100) as u8);
            assert(rb[1] == (sym / 0x100) as u8);
            assert(rb[4] == (tgt % 0x100) as u8);
            assert(rb[5] == ((tgt / 0x100) % 0x100) as u8);
            assert(rb[6] == ((tgt / 0x1_0000) % 0x100) as u8);
            assert(rb[7] == ((tgt / 0x100_0000) % 0x100) as u8);
            lemma_le16_round_trip(u.buf@, 8 * i, sym);
            lemma_le32_round_trip(u.buf@, 8 * i + 4, tgt);
        }
    }
}

/// Round trip through chunk files: a table rebuilt over the flattened
/// chunks of an export reads, at every index, the same input symbol,
/// target, final weight and finality as the table it was exported from.
pub proof fn lemma_chunk_rebuild_round_trip(
    t: IndexTable,
    u: IndexTable,
    per: int,
    chunks: Seq<Seq<u8>>,
    i: TransitionTableIndex,
)
    requires
        t.wf(),
        per >= 1,
        chunks.len() == t.spec_chunk_count(per),
        forall|j: int| 0 <= j < chunks.len() ==> chunks[j] == t.spec_chunk_bytes(j, per),
        u.offset == 0,
        u.size == t.size,
        u.len == u.buf@.len(),
        u.buf@ == spec_flatten_chunks(chunks),
    ensures
        u.wf(),
        u.spec_input_symbol(i) == t.spec_input_symbol(i),
        u.spec_target(i) == t.spec_target(i),
        u.spec_final_weight(i) == t.spec_final_weight(i),
        u.spec_is_final(i) == t.spec_is_final(i),
{
    let cc = t.spec_chunk_count(per);
    assert(chunks =~= Seq::new(cc as nat, |k: int| t.spec_chunk_bytes(k, per)));
    t.lemma_flatten_prefix(per, cc);
    lemma_fundamental_div_mod(t.size as int, per);
    lemma_mod_division_less_than_divisor(t.size as int, per);
    let q = t.size as int / per;
    assert(per * q == q * per) by (nonlinear_arith);
    assert((q + 1) * per == q * per + per) by (nonlinear_arith);
    assert(t.size <= cc * per);
    assert(u.buf@ == t.spec_records_bytes(0, t.size as int));
    t.lemma_rebuilt_table_agrees(u, i);
}

/// Round trip: after an export with `per` records per chunk, every valid
/// record, read back little-endian out of the chunk that covers it,
/// reproduces the same input-symbol slot and target slot that direct
/// in-memory reads give.
pub proof fn lemma_serialize_round_trip(t: IndexTable, per: int, i: TransitionTableIndex)
    requires
        t.wf(),
        per >= 1,
        i < t.size,
    ensures
        ({
            let j = i as int / per;
            let off = 8 * (i as int % per);
            &&& 0 <= j < t.spec_chunk_count(per)
            &&& le16(t.spec_chunk_bytes(j, per), off) == t.spec_symbol_or_sentinel(i)
            &&& le32(t.spec_chunk_bytes(j, per), off + 4) == t.spec_target_or_sentinel(i)
        }),
{
    lemma_fundamental_div_mod(i as int, per);
    lemma_mod_division_less_than_divisor(i as int, per);
    let j = i as int / per;
    let rem = i as int % per;
    assert(per * j == j * per) by (nonlinear_arith);
    assert(j >= 0) by (nonlinear_arith)
        requires
            i as int == per * j + rem,
            0 <= rem < per,
            i as int >= 0,
            per >= 1,
    ;
    let begin = j * per;
    assert((j + 1) * per == j * per + per) by (nonlinear_arith);
    let end = if (j + 1) * per <= t.size {
        (j + 1) * per
    } else {
        t.size as int
    };
    assert(begin <= (i as int) && (i as int) < end);
    lemma_fundamental_div_mod(t.size as int, per);
    lemma_mod_division_less_than_divisor(t.size as int, per);
    let q = t.size as int / per;
    assert(per * q == q * per) by (nonlinear_arith);
    assert((q + 1) * per == q * per + per) by (nonlinear_arith);
    let cc = t.spec_chunk_count(per);
    assert(t.size <= cc * per);
    if j >= cc {
        assert(j * per >= cc * per) by (nonlinear_arith)
            requires
                j >= cc,
                per >= 1,
        ;
        assert(false);
    }
    let off = 8 * rem;
    let chunk = t.spec_chunk_bytes(j, per);
    let rb = t.spec_record_bytes(i);
    t.lemma_records_bytes_index(begin, end, i as int, 0);
    t.lemma_records_bytes_index(begin, end, i as int, 1);
    t.lemma_records_bytes_index(begin, end, i as int, 4);
    t.lemma_records_bytes_index(begin, end, i as int, 5);
    t.lemma_records_bytes_index(begin, end, i as int, 6);
    t.lemma_records_bytes_index(begin, end, i as int, 7);
    let sym = t.spec_symbol_or_sentinel(i);
    let tgt = t.spec_target_or_sentinel(i);
    assert(rb[0] == (sym % 0x100) as u8);
    assert(rb[1] == (sym / 0x100) as u8);
    assert(rb[4] == (tgt % 0x100) as u8);
    assert(rb[5] == ((tgt / 0x100) % 0x100) as u8);
    assert(rb[6] == ((tgt / 0x1_0000) % 0x100) as u8);
    assert(rb[7] == ((tgt / 0x100_0000) % 0x100) as u8);
    assert(chunk[off] == rb[0] && chunk[off + 1] == rb[1]);
    assert(chunk[off + 4] == rb[4] && chunk[off + 5] == rb[5] && chunk[off + 6] == rb[6]
        && chunk[off + 7] == rb[7]);
    lemma_le16_round_trip(chunk, off, sym);
    lemma_le32_round_trip(chunk, off + 4, tgt);
}

/// Any index at or past a table's size reads as wholly absent: no input
/// symbol, no target.
pub proof fn lemma_out_of_range_is_absent(t: IndexTable, i: TransitionTableIndex)
    requires
        i >= t.size,
    ensures
        t.spec_input_symbol(i) is None,
        t.spec_target(i) is None,
{
}

/// A record is final exactly when its input symbol is absent and its
/// target is present.
pub proof fn lemma_is_final_characterization(t: IndexTable, i: TransitionTableIndex)
    ensures
        t.spec_is_final(i) <==> (t.spec_input_symbol(i) is None && t.spec_target(i) is Some),
{
}

} // verus!
